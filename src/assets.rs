//! Garbage collection of empty folders in the asset tree.

use vstd::prelude::*;
use vstd::string::*;

use crate::text::{concat2, has_prefix, is_prefix};

verus! {

/// An entry of a walked directory tree: its path relative to the walk's
/// root and whether it is a directory.
#[derive(Debug, Clone)]
pub struct TreeEntry {
    pub rel: String,
    pub is_dir: bool,
}

/// Some file among `es` lies below the directory `d`.
pub open spec fn holds_file(es: Seq<TreeEntry>, d: Seq<char>) -> bool {
    exists|j: int|
        0 <= j < es.len() && !es[j].is_dir && #[trigger] is_prefix(d + seq!['/'], es[j].rel@)
}

/// Entry `k` is a directory with no file anywhere below it: it is empty
/// once its empty subdirectories are gone.
pub open spec fn removable(es: Seq<TreeEntry>, k: int) -> bool {
    es[k].is_dir && !holds_file(es, es[k].rel@)
}

/// The removable directories among entries `k`, `k + 1`, ..., last entry
/// first.
pub open spec fn removals_from(es: Seq<TreeEntry>, k: int) -> Seq<Seq<char>>
    decreases es.len() - k,
{
    if k < 0 || k >= es.len() {
        Seq::empty()
    } else if removable(es, k) {
        removals_from(es, k + 1).push(es[k].rel@)
    } else {
        removals_from(es, k + 1)
    }
}

/// The directories that garbage collection removes from a tree listed as
/// `es`.
pub open spec fn removals(es: Seq<TreeEntry>) -> Seq<Seq<char>> {
    removals_from(es, 0)
}

fn holds_file_exec(es: &Vec<TreeEntry>, d: &str) -> (r: bool)
    ensures
        r == holds_file(es@, d@),
{
    proof {
        reveal_strlit("/");
        assert("/"@ =~= seq!['/']);
    }
    let under = concat2(d, "/");
    let mut j: usize = 0;
    while j < es.len()
        invariant
            j <= es@.len(),
            under@ == d@ + seq!['/'],
            forall|q: int|
                0 <= q < j ==> !(!es@[q].is_dir && #[trigger] is_prefix(under@, es@[q].rel@)),
        decreases es@.len() - j,
    {
        if !es[j].is_dir && has_prefix(es[j].rel.as_str(), under.as_str()) {
            return true;
        }
        j = j + 1;
    }
    false
}

/// Every directory of the walked asset tree `entries` that holds no file at
/// any depth, children before their parents when `entries` lists each
/// directory before what it holds. Non-empty directories are kept.
pub fn removable_dirs(entries: &Vec<TreeEntry>) -> (r: Vec<String>)
    ensures
        r@.map_values(|s: String| s@) == removals(entries@),
{
    let mut r: Vec<String> = Vec::new();
    let mut i: usize = entries.len();
    while i > 0
        invariant
            i <= entries@.len(),
            r@.map_values(|s: String| s@) == removals_from(entries@, i as int),
        decreases i,
    {
        let k = i - 1;
        let ghost prev = r@;
        if entries[k].is_dir && !holds_file_exec(entries, entries[k].rel.as_str()) {
            r.push(entries[k].rel.clone());
            proof {
                assert(r@.map_values(|s: String| s@) =~= prev.map_values(|s: String| s@).push(
                    entries@[k as int].rel@,
                ));
            }
        }
        i = k;
    }
    r
}

/// What garbage collection removes is exactly the removable directories.
pub proof fn lemma_removals_contains(es: Seq<TreeEntry>, k: int, x: Seq<char>)
    requires
        0 <= k,
    ensures
        removals_from(es, k).contains(x) <==> exists|j: int|
            k <= j < es.len() && removable(es, j) && #[trigger] es[j].rel@ == x,
    decreases es.len() - k,
{
    if k < es.len() {
        lemma_removals_contains(es, k + 1, x);
        let rest = removals_from(es, k + 1);
        if removable(es, k) {
            assert(removals_from(es, k) == rest.push(es[k].rel@));
            if rest.push(es[k].rel@).contains(x) && !rest.contains(x) {
                let m = choose|m: int| 0 <= m < rest.len() + 1 && rest.push(es[k].rel@)[m] == x;
                assert(m == rest.len());
            }
            if rest.contains(x) {
                let m = choose|m: int| 0 <= m < rest.len() && rest[m] == x;
                assert(rest.push(es[k].rel@)[m] == x);
            }
            if es[k].rel@ == x {
                assert(rest.push(es[k].rel@)[rest.len() as int] == x);
            }
        }
    }
}

/// Garbage collection of a tree of empty folders only removes every one
/// of them.
pub proof fn lemma_gc_all_empty(es: Seq<TreeEntry>)
    requires
        forall|k: int| 0 <= k < es.len() ==> (#[trigger] es[k]).is_dir,
    ensures
        forall|k: int| 0 <= k < es.len() ==> removals(es).contains(#[trigger] es[k].rel@),
{
    assert forall|k: int| 0 <= k < es.len() implies removals(es).contains(#[trigger] es[k].rel@) by {
        lemma_removals_contains(es, 0, es[k].rel@);
        assert(removable(es, k));
    }
}

/// Garbage collection of a tree whose one file is entry `f` removes a
/// folder exactly when it is not on the way to that file: the file's
/// ancestors stay, every other (empty) folder goes.
pub proof fn lemma_gc_one_file(es: Seq<TreeEntry>, f: int)
    requires
        0 <= f < es.len(),
        !es[f].is_dir,
        forall|k: int| 0 <= k < es.len() && k != f ==> (#[trigger] es[k]).is_dir,
    ensures
        forall|k: int|
            0 <= k < es.len() && es[k].is_dir ==> (removals(es).contains(#[trigger] es[k].rel@)
                <==> !is_prefix(es[k].rel@ + seq!['/'], es[f].rel@)),
{
    assert forall|k: int| 0 <= k < es.len() && es[k].is_dir implies (removals(es).contains(
        #[trigger] es[k].rel@,
    ) <==> !is_prefix(es[k].rel@ + seq!['/'], es[f].rel@)) by {
        let x = es[k].rel@;
        lemma_removals_contains(es, 0, x);
        if is_prefix(x + seq!['/'], es[f].rel@) {
            assert(holds_file(es, x));
        } else {
            assert(!holds_file(es, x));
            assert(removable(es, k));
        }
    }
}

} // verus!
