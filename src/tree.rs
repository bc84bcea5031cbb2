//! One level of the displayed note tree: which directory entries show,
//! under what name and logical path, and in what order.

use vstd::multiset::Multiset;
use vstd::prelude::*;
use vstd::string::*;

use crate::text::{concat3, has_prefix, has_suffix, is_suffix, slice};
use crate::trash::{item_name, note_ext};

verus! {

broadcast use vstd::seq_lib::group_to_multiset_ensures;

/// An entry of the note tree as shown: display name, logical path, whether
/// it is a folder, and (for a folder) its own entries.
#[derive(Debug)]
pub struct FileNode {
    pub name: String,
    pub path: String,
    pub is_dir: bool,
    pub children: Vec<FileNode>,
}

/// A directory entry as read from disk: its file name and whether it is a
/// directory.
#[derive(Debug, Clone)]
pub struct DirEntryInfo {
    pub name: String,
    pub is_dir: bool,
}

/// What a node shows: display name, logical path, folder or not.
pub type NodeHead = (Seq<char>, Seq<char>, bool);

/// The shown part of a node.
pub open spec fn head(n: FileNode) -> NodeHead {
    (n.name@, n.path@, n.is_dir)
}

/// The shown parts of a list of nodes.
pub open spec fn heads(v: Seq<FileNode>) -> Seq<NodeHead> {
    v.map_values(|n: FileNode| head(n))
}

/// A name the tree never shows: the asset tree, the trash, anything hidden.
pub open spec fn is_internal_name(name: Seq<char>) -> bool {
    name == "assets"@ || name == ".trash"@ || (name.len() > 0 && name[0] == '.')
}

/// An entry shows when it is not internal and is a folder or a note file.
pub open spec fn is_shown(name: Seq<char>, is_dir: bool) -> bool {
    !is_internal_name(name) && (is_dir || is_suffix(note_ext(), name))
}

/// Display name: a folder's name, or a note's name without the extension.
pub open spec fn display_name(name: Seq<char>, is_dir: bool) -> Seq<char> {
    if is_dir {
        name
    } else {
        name.subrange(0, name.len() - note_ext().len())
    }
}

/// Logical path of the entry `name` at the level whose path is `rel`.
pub open spec fn child_path(rel: Seq<char>, name: Seq<char>) -> Seq<char> {
    if rel.len() == 0 {
        name
    } else {
        rel + seq!['/'] + name
    }
}

/// The node an entry becomes at level `rel`.
pub open spec fn node_of(rel: Seq<char>, name: Seq<char>, is_dir: bool) -> NodeHead {
    let shown = display_name(name, is_dir);
    (shown, child_path(rel, shown), is_dir)
}

/// The nodes of the shown entries among `es`, in entry order.
pub open spec fn level_nodes(rel: Seq<char>, es: Seq<DirEntryInfo>) -> Seq<NodeHead>
    decreases es.len(),
{
    if es.len() == 0 {
        Seq::empty()
    } else {
        let e = es.last();
        let before = level_nodes(rel, es.drop_last());
        if is_shown(e.name@, e.is_dir) {
            before.push(node_of(rel, e.name@, e.is_dir))
        } else {
            before
        }
    }
}

/// Lexicographic order of names from position `i` on, by character code.
pub open spec fn name_le_from(a: Seq<char>, b: Seq<char>, i: int) -> bool
    decreases a.len() - i,
{
    if i < 0 || i >= a.len() {
        true
    } else if i >= b.len() {
        false
    } else if (a[i] as u32) < (b[i] as u32) {
        true
    } else if (a[i] as u32) > (b[i] as u32) {
        false
    } else {
        name_le_from(a, b, i + 1)
    }
}

/// `a` comes no later than `b` in lexicographic order.
pub open spec fn name_le(a: Seq<char>, b: Seq<char>) -> bool {
    name_le_from(a, b, 0)
}

/// Display order: folders before notes, then by name.
pub open spec fn node_le(x: NodeHead, y: NodeHead) -> bool {
    (x.2 && !y.2) || (x.2 == y.2 && name_le(x.0, y.0))
}

/// Each node is in display order with the next.
pub open spec fn in_display_order(s: Seq<NodeHead>) -> bool {
    forall|i: int| 0 <= i < s.len() - 1 ==> node_le(#[trigger] s[i], s[i + 1])
}

/// Any two names are ordered one way or the other.
pub proof fn lemma_name_le_total(a: Seq<char>, b: Seq<char>, i: int)
    requires
        0 <= i,
    ensures
        name_le_from(a, b, i) || name_le_from(b, a, i),
    decreases a.len() - i,
{
    if i < a.len() && i < b.len() && (a[i] as u32) == (b[i] as u32) {
        lemma_name_le_total(a, b, i + 1);
    }
}

/// Whether `a` comes no later than `b` in lexicographic order.
pub fn name_le_exec(a: &str, b: &str) -> (r: bool)
    ensures
        r == name_le(a@, b@),
{
    let n = a.unicode_len();
    let m = b.unicode_len();
    let mut i: usize = 0;
    while i < n
        invariant
            n == a@.len(),
            m == b@.len(),
            i <= n,
            name_le(a@, b@) == name_le_from(a@, b@, i as int),
        decreases n - i,
    {
        if i >= m {
            return false;
        }
        let x = a.get_char(i) as u32;
        let y = b.get_char(i) as u32;
        if x < y {
            return true;
        }
        if x > y {
            return false;
        }
        proof {
            assert(a@[i as int] == b@[i as int]);
        }
        i = i + 1;
    }
    true
}

fn node_le_exec(x: &FileNode, y: &FileNode) -> (r: bool)
    ensures
        r == node_le(head(*x), head(*y)),
{
    (x.is_dir && !y.is_dir) || (x.is_dir == y.is_dir && name_le_exec(
        x.name.as_str(),
        y.name.as_str(),
    ))
}

/// Puts nodes in display order: folders first, then notes, each by name.
/// Nodes without children stay without.
pub fn sort_nodes(v: Vec<FileNode>) -> (r: Vec<FileNode>)
    ensures
        heads(r@).to_multiset() == heads(v@).to_multiset(),
        in_display_order(heads(r@)),
        (forall|k: int| 0 <= k < v@.len() ==> (#[trigger] v@[k]).children@.len() == 0) ==> (
        forall|k: int| 0 <= k < r@.len() ==> (#[trigger] r@[k]).children@.len() == 0),
{
    let ghost orig = v@;
    let mut rest = v;
    let mut out: Vec<FileNode> = Vec::new();
    while rest.len() > 0
        invariant
            orig == v@,
            heads(out@).to_multiset().add(heads(rest@).to_multiset()) == heads(orig).to_multiset(),
            in_display_order(heads(out@)),
            (forall|k: int| 0 <= k < orig.len() ==> (#[trigger] orig[k]).children@.len() == 0) ==> (
            forall|k: int| 0 <= k < out@.len() ==> (#[trigger] out@[k]).children@.len() == 0)
                && (forall|k: int|
                0 <= k < rest@.len() ==> (#[trigger] rest@[k]).children@.len() == 0),
        decreases rest.len(),
    {
        let ghost before = rest@;
        let x = rest.pop().unwrap();
        proof {
            assert(before == rest@.push(x));
            assert(heads(before) =~= heads(rest@).push(head(x)));
            assert(before[before.len() - 1] == x);
        }
        let mut k: usize = 0;
        while k < out.len() && node_le_exec(&out[k], &x)
            invariant
                k <= out@.len(),
                k == 0 || node_le(head(out@[k - 1]), head(x)),
            decreases out@.len() - k,
        {
            k = k + 1;
        }
        let ghost prev = out@;
        proof {
            if k < prev.len() {
                lemma_name_le_total(head(x).0, head(prev[k as int]).0, 0);
            }
        }
        out.insert(k, x);
        proof {
            assert(heads(out@) =~= heads(prev).insert(k as int, head(x)));
            let hs = heads(out@);
            assert forall|i: int| 0 <= i < hs.len() - 1 implies node_le(
                #[trigger] hs[i],
                hs[i + 1],
            ) by {
                if i + 1 < k {
                    assert(hs[i] == heads(prev)[i] && hs[i + 1] == heads(prev)[i + 1]);
                } else if i + 1 == k {
                } else if i == k {
                } else {
                    assert(hs[i] == heads(prev)[i - 1] && hs[i + 1] == heads(prev)[i]);
                }
            }
            if forall|q: int| 0 <= q < orig.len() ==> (#[trigger] orig[q]).children@.len() == 0 {
                assert forall|q: int| 0 <= q < out@.len() implies (
                #[trigger] out@[q]).children@.len() == 0 by {
                    if q < k {
                        assert(out@[q] == prev[q]);
                    } else if q > k {
                        assert(out@[q] == prev[q - 1]);
                    } else {
                        assert(before[before.len() - 1] == x);
                    }
                }
                assert forall|q: int| 0 <= q < rest@.len() implies (
                #[trigger] rest@[q]).children@.len() == 0 by {
                    assert(rest@[q] == before[q]);
                }
            }
        }
    }
    proof {
        assert(heads(rest@).to_multiset() =~= Multiset::empty());
    }
    out
}

/// The nodes of one level, in display order, for the entries `entries` of
/// the directory at logical path `rel`. Folder nodes come with no children;
/// the caller fills them by listing that folder in turn.
pub fn list_level(rel: &str, entries: &Vec<DirEntryInfo>) -> (r: Vec<FileNode>)
    ensures
        heads(r@).to_multiset() == level_nodes(rel@, entries@).to_multiset(),
        forall|h: NodeHead| #[trigger] heads(r@).contains(h) <==> level_nodes(rel@, entries@).contains(h),
        in_display_order(heads(r@)),
        forall|k: int| 0 <= k < r@.len() ==> (#[trigger] r@[k]).children@.len() == 0,
{
    let mut nodes: Vec<FileNode> = Vec::new();
    let mut i: usize = 0;
    while i < entries.len()
        invariant
            i <= entries@.len(),
            heads(nodes@) == level_nodes(rel@, entries@.subrange(0, i as int)),
            forall|k: int| 0 <= k < nodes@.len() ==> (#[trigger] nodes@[k]).children@.len() == 0,
        decreases entries@.len() - i,
    {
        let e = &entries[i];
        proof {
            assert(entries@.subrange(0, i + 1).drop_last() =~= entries@.subrange(0, i as int));
        }
        if shown_exec(e.name.as_str(), e.is_dir) {
            let node = node_exec(rel, e.name.as_str(), e.is_dir);
            let ghost prev = nodes@;
            nodes.push(node);
            proof {
                assert(heads(nodes@) =~= heads(prev).push(head(node)));
            }
        }
        i = i + 1;
    }
    proof {
        assert(entries@.subrange(0, entries@.len() as int) =~= entries@);
    }
    let r = sort_nodes(nodes);
    proof {
        assert forall|h: NodeHead| #[trigger] heads(r@).contains(h) <==> level_nodes(
            rel@,
            entries@,
        ).contains(h) by {
            vstd::seq_lib::to_multiset_contains(heads(r@), h);
            vstd::seq_lib::to_multiset_contains(level_nodes(rel@, entries@), h);
        }
    }
    r
}

/// Every shown entry of a level has its node among the level's nodes.
pub proof fn lemma_shown_entry_listed(rel: Seq<char>, es: Seq<DirEntryInfo>, k: int)
    requires
        0 <= k < es.len(),
        is_shown(es[k].name@, es[k].is_dir),
    ensures
        level_nodes(rel, es).contains(node_of(rel, es[k].name@, es[k].is_dir)),
    decreases es.len(),
{
    let before = level_nodes(rel, es.drop_last());
    if k == es.len() - 1 {
        assert(level_nodes(rel, es) == before.push(node_of(rel, es[k].name@, es[k].is_dir)));
        assert(level_nodes(rel, es)[before.len() as int] == node_of(rel, es[k].name@, es[k].is_dir));
    } else {
        assert(es.drop_last()[k] == es[k]);
        lemma_shown_entry_listed(rel, es.drop_last(), k);
        let m = choose|m: int| 0 <= m < before.len() && before[m] == node_of(rel, es[k].name@, es[k].is_dir);
        if is_shown(es.last().name@, es.last().is_dir) {
            assert(level_nodes(rel, es)[m] == before[m]);
        }
    }
}

/// A saved note shows in the tree with its ancestry: on the level at
/// logical path `rel`, the folder (or, for the last segment, the note file)
/// that saving created for the segment `seg` shows as a node named `seg`
/// whose logical path is `seg` below `rel`, provided the segment is not
/// hidden and is not the asset tree's name.
pub proof fn lemma_saved_segment_listed(
    rel: Seq<char>,
    es: Seq<DirEntryInfo>,
    k: int,
    seg: Seq<char>,
    is_note: bool,
)
    requires
        0 <= k < es.len(),
        seg.len() > 0,
        seg[0] != '.',
        seg != "assets"@,
        es[k].name@ == item_name(seg, !is_note),
        es[k].is_dir == !is_note,
    ensures
        level_nodes(rel, es).contains((seg, child_path(rel, seg), !is_note)),
{
    reveal_strlit(".md");
    reveal_strlit("assets");
    reveal_strlit(".trash");
    let name = item_name(seg, !is_note);
    assert(name[0] == seg[0]);
    if is_note {
        assert(name.subrange(name.len() - 3, name.len() as int) =~= note_ext());
        assert(name.subrange(0, name.len() - 3) =~= seg);
        if name == "assets"@ {
            assert(name[name.len() - 3] == '.');
        }
    }
    assert(is_shown(name, !is_note));
    lemma_shown_entry_listed(rel, es, k);
}

fn is_internal_exec(name: &str) -> (r: bool)
    ensures
        r == is_internal_name(name@),
{
    proof {
        reveal_strlit("assets");
        reveal_strlit(".trash");
        reveal_strlit(".");
    }
    let n = name.unicode_len();
    let is_assets = n == 6 && has_prefix(name, "assets");
    let is_trash = n == 6 && has_prefix(name, ".trash");
    proof {
        if n == 6 {
            assert(name@.subrange(0, 6) =~= name@);
        }
    }
    is_assets || is_trash || (n > 0 && name.get_char(0) == '.')
}

fn shown_exec(name: &str, is_dir: bool) -> (r: bool)
    ensures
        r == is_shown(name@, is_dir),
{
    proof {
        reveal_strlit(".md");
    }
    !is_internal_exec(name) && (is_dir || has_suffix(name, ".md"))
}

fn node_exec(rel: &str, name: &str, is_dir: bool) -> (r: FileNode)
    requires
        is_shown(name@, is_dir),
    ensures
        head(r) == node_of(rel@, name@, is_dir),
        r.children@.len() == 0,
{
    proof {
        reveal_strlit(".md");
        reveal_strlit("/");
    }
    let shown = if is_dir {
        String::from_str(name)
    } else {
        slice(name, 0, name.unicode_len() - 3)
    };
    let path = if rel.unicode_len() == 0 {
        shown.clone()
    } else {
        concat3(rel, "/", shown.as_str())
    };
    proof {
        assert("/"@ =~= seq!['/']);
    }
    FileNode { name: shown, path, is_dir, children: Vec::new() }
}

} // verus!
