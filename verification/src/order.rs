//! Sets of variables in ascending order.
use std::collections::HashSet;
use vstd::prelude::*;

verus! {

broadcast use vstd::std_specs::hash::group_hash_axioms;

/// Strictly ascending.
pub open spec fn ascending(l: Seq<u32>) -> bool {
    forall|i: int, j: int| 0 <= i < j < l.len() ==> l[i] < l[j]
}

/// `l` lists the members of `s` in ascending order.
pub open spec fn lists(l: Seq<u32>, s: Set<u32>) -> bool {
    ascending(l) && forall|v: u32| #[trigger] l.contains(v) <==> s.contains(v)
}

/// The members of a finite set in ascending order.
pub open spec fn in_order(s: Set<u32>) -> Seq<u32> {
    choose|l: Seq<u32>| lists(l, s)
}

/// The members of `s` below `n`, in ascending order.
spec fn listed_below(s: Set<u32>, n: nat) -> Seq<u32>
    decreases n,
{
    if n == 0 {
        seq![]
    } else {
        let front = listed_below(s, (n - 1) as nat);
        if s.contains((n - 1) as u32) {
            front.push((n - 1) as u32)
        } else {
            front
        }
    }
}

/// What [`listed_below`] holds.
proof fn lemma_listed_below(s: Set<u32>, n: nat)
    requires
        n <= 0x1_0000_0000,
    ensures
        ascending(listed_below(s, n)),
        forall|v: u32| #[trigger] listed_below(s, n).contains(v) <==> s.contains(v) && v < n,
    decreases n,
{
    if n > 0 {
        let front = listed_below(s, (n - 1) as nat);
        let all = listed_below(s, n);
        lemma_listed_below(s, (n - 1) as nat);
        assert forall|i: int| 0 <= i < front.len() implies #[trigger] front[i] < n - 1 by {
            assert(front.contains(front[i]));
        }
        assert forall|v: u32| #[trigger] all.contains(v) <==> s.contains(v) && v < n by {
            if all.contains(v) {
                let i = choose|i: int| 0 <= i < all.len() && all[i] == v;
                if i < front.len() {
                    assert(front.contains(front[i]));
                }
            }
            if s.contains(v) && v < n {
                if v < n - 1 {
                    assert(front.contains(v));
                    let i = choose|i: int| 0 <= i < front.len() && front[i] == v;
                    assert(all[i] == v);
                } else {
                    assert(all[front.len() as int] == v);
                }
            }
        }
    }
}

/// Every set of variables has an ascending list.
pub proof fn lemma_in_order(s: Set<u32>)
    ensures
        lists(in_order(s), s),
{
    lemma_listed_below(s, 0x1_0000_0000);
    assert(lists(listed_below(s, 0x1_0000_0000), s));
}

/// There is one ascending list of a set.
pub proof fn lemma_lists_unique(a: Seq<u32>, b: Seq<u32>, s: Set<u32>)
    requires
        lists(a, s),
        lists(b, s),
    ensures
        a == b,
    decreases a.len(),
{
    if a.len() == 0 {
        if b.len() > 0 {
            assert(b.contains(b[0]));
            assert(a.contains(b[0]));
        }
        assert(a =~= b);
    } else {
        assert(a.contains(a.last()));
        assert(b.contains(a.last()));
        assert(b.contains(b.last()));
        assert(a.contains(b.last()));
        let i = choose|i: int| 0 <= i < a.len() && a[i] == b.last();
        let j = choose|j: int| 0 <= j < b.len() && b[j] == a.last();
        assert(a.last() == b.last());
        let s1 = s.remove(a.last());
        assert forall|v: u32| #[trigger] a.drop_last().contains(v) <==> s1.contains(v) by {
            lemma_drop_last_contains(a, v);
            assert(a.contains(v) <==> s.contains(v));
        }
        assert forall|v: u32| #[trigger] b.drop_last().contains(v) <==> s1.contains(v) by {
            lemma_drop_last_contains(b, v);
            assert(b.contains(v) <==> s.contains(v));
        }
        lemma_lists_unique(a.drop_last(), b.drop_last(), s1);
        assert(a =~= a.drop_last().push(a.last()));
        assert(b =~= b.drop_last().push(b.last()));
    }
}

/// An ascending list without its last element lacks just that one.
proof fn lemma_drop_last_contains(a: Seq<u32>, v: u32)
    requires
        a.len() > 0,
        ascending(a),
    ensures
        a.drop_last().contains(v) <==> a.contains(v) && v != a.last(),
{
    if a.contains(v) && v != a.last() {
        let i = choose|i: int| 0 <= i < a.len() && a[i] == v;
        assert(a.drop_last()[i] == v);
    }
    if a.drop_last().contains(v) {
        let i = choose|i: int| 0 <= i < a.drop_last().len() && a.drop_last()[i] == v;
        assert(a[i] == v);
    }
}

/// Inserts `x` into an ascending list that lacks it.
#[verifier::loop_isolation(false)]
fn insert_ascending(l: &mut Vec<u32>, x: u32)
    requires
        ascending(old(l)@),
        !old(l)@.contains(x),
    ensures
        ascending(final(l)@),
        forall|v: u32| #[trigger] final(l)@.contains(v) <==> old(l)@.contains(v) || v == x,
{
    let mut i: usize = 0;
    while i < l.len() && l[i] < x
        invariant
            i <= l.len(),
            forall|j: int| 0 <= j < i ==> l@[j] < x,
        decreases l.len() - i,
    {
        i += 1;
    }
    l.insert(i, x);
    assert(l@ =~= old(l)@.insert(i as int, x));
    assert(i < old(l)@.len() ==> x < old(l)@[i as int]) by {
        if i < old(l)@.len() {
            assert(old(l)@.contains(old(l)@[i as int]));
        }
    }
    assert forall|v: u32| #[trigger] l@.contains(v) <==> old(l)@.contains(v) || v == x by {
        if old(l)@.contains(v) {
            let k = choose|k: int| 0 <= k < old(l)@.len() && old(l)@[k] == v;
            if k < i {
                assert(l@[k] == v);
            } else {
                assert(l@[k + 1] == v);
            }
        }
        if v == x {
            assert(l@[i as int] == v);
        }
        if l@.contains(v) && v != x {
            let k = choose|k: int| 0 <= k < l@.len() && l@[k] == v;
            if k < i {
                assert(old(l)@[k] == v);
            } else {
                assert(old(l)@[k - 1] == v);
            }
        }
    }
}

/// The members of a set in ascending order.
#[verifier::loop_isolation(false)]
pub fn sorted_ids(s: &HashSet<u32>) -> (r: Vec<u32>)
    ensures
        r@ == in_order(s@),
        lists(r@, s@),
{
    let mut r: Vec<u32> = Vec::new();
    for x in it: s.iter()
        invariant
            ascending(r@),
            forall|v: u32| #[trigger]
                r@.contains(v) ==> exists|k: int| 0 <= k < it.index() && *it.seq()[k] == v,
            forall|v: u32| #[trigger] r@.contains(v) ==> s@.contains(v),
            forall|v: u32| #[trigger]
                s@.contains(v) ==> r@.contains(v) || exists|k: int|
                    it.index() <= k < it.seq().len() && *it.seq()[k] == v,
            it.seq().unref().to_set() == s@,
            it.seq().no_duplicates(),
    {
        assert(!r@.contains(*x)) by {
            if r@.contains(*x) {
                let k = choose|k: int| 0 <= k < it.index() && *it.seq()[k] == *x;
                assert(it.seq()[k] == it.seq()[it.index() as int]);
            }
        }
        assert(s@.contains(*x)) by {
            assert(it.seq().unref()[it.index() as int] == *x);
            assert(it.seq().unref().contains(*x));
        }
        insert_ascending(&mut r, *x);
    }
    proof {
        lemma_lists_unique(r@, in_order(s@), s@);
    }
    r
}

} // verus!
