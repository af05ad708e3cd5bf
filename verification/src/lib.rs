//! Verified passes of a Java class-file decompiler.
pub mod arrays;
pub mod asserts;
pub mod assigns;
pub mod block;
pub mod booleans;
pub mod builder;
pub mod bytecode;
pub mod captures;
pub mod catches;
pub mod classes;
pub mod cleanup;
pub mod copies;
pub mod ctor_guards;
pub mod ctors;
pub mod dead_stores;
pub mod declarations;
pub mod diamonds;
pub mod equality;
pub mod escapes;
pub mod expr;
pub mod finallys;
pub mod finals;
pub mod floats;
pub mod flow;
pub mod forward;
pub mod generic_casts;
pub mod generics;
pub mod graph;
pub mod handlers;
pub mod hoisting;
pub mod indy;
pub mod infer;
pub mod inflight;
pub mod invoke;
pub mod jumps;
pub mod jvmctx;
pub mod labels;
pub mod machine;
pub mod meaning;
pub mod merged_news;
pub mod method;
pub mod monitors;
pub mod nameless;
pub mod naming;
pub mod nested;
pub mod numbering;
pub mod order;
pub mod outputs;
pub mod paths;
pub mod reach;
pub mod renames;
pub mod rethrows;
pub mod retype;
pub mod rewrite;
pub mod rotate;
pub mod running;
pub mod scopes;
pub mod selftype;
pub mod shuffles;
pub mod signatures;
pub mod sim;
pub mod sizes;
pub mod split;
pub mod stack_vars;
pub mod stmt;
pub mod termination;
pub mod text;
pub mod tidying;
pub mod truths;
pub mod twr11;
pub mod twr7;
pub mod types;
pub mod uses;
pub mod values;
pub mod var;
pub mod verdicts;
