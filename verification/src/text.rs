//! Text helpers.
use crate::types::{str_eq, strs};
use vstd::prelude::*;

verus! {

/// `text` ends with the characters of `suffix`.
pub open spec fn has_suffix(text: Seq<char>, suffix: Seq<char>) -> bool {
    suffix.len() <= text.len() && text.subrange(text.len() - suffix.len(), text.len() as int)
        == suffix
}

/// Whether `a` ends with `p`.
pub fn ends_with(a: &str, p: &str) -> (r: bool)
    ensures
        r == has_suffix(a@, p@),
{
    let n = p.unicode_len();
    let m = a.unicode_len();
    if m < n {
        return false;
    }
    let ghost tail = a@.subrange(m - n, m as int);
    let mut i: usize = 0;
    while i < n
        invariant
            n == p@.len(),
            m == a@.len(),
            n <= m,
            i <= n,
            tail == a@.subrange(m - n, m as int),
            forall|j: int| 0 <= j < i ==> tail[j] == p@[j],
        decreases n - i,
    {
        assert(tail[i as int] == a@[m - n + i]);
        if a.get_char(m - n + i) != p.get_char(i) {
            return false;
        }
        i += 1;
    }
    assert(tail =~= p@);
    true
}

/// Whether `list` holds `text`.
pub fn contains_string(list: &Vec<String>, text: &str) -> (r: bool)
    ensures
        r == strs(list@).contains(text@),
{
    let mut i: usize = 0;
    while i < list.len()
        invariant
            i <= list.len(),
            forall|j: int| 0 <= j < i ==> #[trigger] strs(list@)[j] != text@,
        decreases list.len() - i,
    {
        assert(strs(list@)[i as int] == list@[i as int]@);
        if str_eq(list[i].as_str(), text) {
            return true;
        }
        i += 1;
    }
    false
}

/// Whether `list` holds `x`.
pub fn contains_u32(list: &Vec<u32>, x: u32) -> (r: bool)
    ensures
        r == list@.contains(x),
{
    let mut i: usize = 0;
    while i < list.len()
        invariant
            i <= list.len(),
            forall|j: int| 0 <= j < i ==> #[trigger] list@[j] != x,
        decreases list.len() - i,
    {
        if list[i] == x {
            return true;
        }
        i += 1;
    }
    false
}

/// The decimal digit `d`.
pub open spec fn digit(d: nat) -> char {
    if d == 0 {
        '0'
    } else if d == 1 {
        '1'
    } else if d == 2 {
        '2'
    } else if d == 3 {
        '3'
    } else if d == 4 {
        '4'
    } else if d == 5 {
        '5'
    } else if d == 6 {
        '6'
    } else if d == 7 {
        '7'
    } else if d == 8 {
        '8'
    } else {
        '9'
    }
}

/// `n` in decimal.
pub open spec fn decimal(n: nat) -> Seq<char>
    decreases n,
{
    if n < 10 {
        seq![digit(n)]
    } else {
        decimal(n / 10).push(digit(n % 10))
    }
}

/// Distinct numbers have distinct decimal texts.
pub proof fn lemma_decimal_injective(m: nat, n: nat)
    requires
        decimal(m) == decimal(n),
    ensures
        m == n,
    decreases m + n,
{
    lemma_decimal_len(m);
    lemma_decimal_len(n);
    if m < 10 && n < 10 {
        assert(decimal(m) == seq![digit(m)]);
        assert(decimal(n) == seq![digit(n)]);
        assert(seq![digit(m)][0] == seq![digit(n)][0]);
        lemma_digit_injective(m, n);
    } else if m >= 10 && n >= 10 {
        assert(decimal(m).drop_last() =~= decimal(m / 10));
        assert(decimal(n).drop_last() =~= decimal(n / 10));
        assert(decimal(m).last() == digit(m % 10));
        assert(decimal(n).last() == digit(n % 10));
        lemma_digit_injective(m % 10, n % 10);
        lemma_decimal_injective(m / 10, n / 10);
    }
}

/// Distinct digits have distinct characters.
proof fn lemma_digit_injective(a: nat, b: nat)
    requires
        a < 10,
        b < 10,
        digit(a) == digit(b),
    ensures
        a == b,
{
}

/// A decimal text has at least one digit, and more than one from ten on.
proof fn lemma_decimal_len(n: nat)
    ensures
        decimal(n).len() >= 1,
        n < 10 <==> decimal(n).len() == 1,
    decreases n,
{
    if n >= 10 {
        lemma_decimal_len(n / 10);
    }
}

/// `prefix` followed by `k` in decimal.
pub open spec fn numbered(prefix: Seq<char>, k: nat) -> Seq<char> {
    prefix + decimal(k)
}

/// If the first `m` numbered names are all taken, there are at least `m` taken names.
pub proof fn lemma_numbered_taken(prefix: Seq<char>, m: nat, taken: Seq<Seq<char>>)
    requires
        forall|j: nat| 1 <= j <= m ==> taken.contains(#[trigger] numbered(prefix, j)),
    ensures
        m <= taken.len(),
{
    let candidates = Seq::new(m, |i: int| numbered(prefix, (i + 1) as nat));
    assert(candidates.no_duplicates()) by {
        assert forall|i: int, j: int|
            0 <= i < candidates.len() && 0 <= j < candidates.len() && i != j implies candidates[i]
            != candidates[j] by {
            if candidates[i] == candidates[j] {
                let n = prefix.len() as int;
                assert(decimal((i + 1) as nat) =~= candidates[i].skip(n));
                assert(decimal((j + 1) as nat) =~= candidates[j].skip(n));
                lemma_decimal_injective((i + 1) as nat, (j + 1) as nat);
            }
        }
    }
    assert(candidates.to_set().subset_of(taken.to_set())) by {
        assert forall|x: Seq<char>| candidates.to_set().contains(x) implies taken.to_set().contains(
            x,
        ) by {
            assert(candidates.contains(x));
            let i = choose|i: int| 0 <= i < candidates.len() && candidates[i] == x;
            assert(taken.contains(numbered(prefix, (i + 1) as nat)));
        }
    }
    candidates.unique_seq_to_set();
    taken.lemma_cardinality_of_set();
    vstd::set_lib::lemma_len_subset(candidates.to_set(), taken.to_set());
}

/// Adds `n` in decimal to the end of `s`.
pub fn append_decimal(s: &mut String, n: u128)
    ensures
        final(s)@ == old(s)@ + decimal(n as nat),
    decreases n,
{
    proof {
        reveal_strlit("0");
        reveal_strlit("1");
        reveal_strlit("2");
        reveal_strlit("3");
        reveal_strlit("4");
        reveal_strlit("5");
        reveal_strlit("6");
        reveal_strlit("7");
        reveal_strlit("8");
        reveal_strlit("9");
    }
    if n >= 10 {
        append_decimal(s, n / 10);
    }
    let d = (n % 10) as u8;
    match d {
        0 => s.append("0"),
        1 => s.append("1"),
        2 => s.append("2"),
        3 => s.append("3"),
        4 => s.append("4"),
        5 => s.append("5"),
        6 => s.append("6"),
        7 => s.append("7"),
        8 => s.append("8"),
        _ => s.append("9"),
    }
    assert(s@ =~= old(s)@ + decimal(n as nat));
}

/// `n` in decimal, with a sign where it is negative.
pub open spec fn int_text(n: int) -> Seq<char> {
    if n < 0 {
        seq!['-'] + decimal((-n) as nat)
    } else {
        decimal(n as nat)
    }
}

/// Adds `n` in decimal to the end of `s`.
pub fn append_int(s: &mut String, n: i64)
    ensures
        final(s)@ == old(s)@ + int_text(n as int),
{
    if n < 0 {
        proof {
            reveal_strlit("-");
        }
        s.append("-");
        append_decimal(s, (-(n as i128)) as u128);
        assert(s@ =~= old(s)@ + int_text(n as int));
    } else {
        append_decimal(s, n as u128);
    }
}

/// A decimal digit.
pub open spec fn is_decimal_digit(c: char) -> bool {
    c == '0' || c == '1' || c == '2' || c == '3' || c == '4' || c == '5' || c == '6' || c == '7'
        || c
        == '8' || c == '9'
}

/// Whether `c` is a decimal digit.
pub fn decimal_digit(c: char) -> (r: bool)
    ensures
        r == is_decimal_digit(c),
{
    c == '0' || c == '1' || c == '2' || c == '3' || c == '4' || c == '5' || c == '6' || c == '7'
        || c
        == '8' || c == '9'
}

} // verus!
