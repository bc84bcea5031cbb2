//! What the planned steps do to the vault's files, as a map from physical
//! path to bytes, and the round trips that the plans guarantee. The model
//! tracks files by path: a rename moves the entry stored under that exact
//! path, and removing a directory removes every entry below it.

use vstd::prelude::*;
use vstd::utf8::*;

use crate::layout::{apart, join, VaultLayout};
use crate::plan::{delete_steps, placeholder, rename_steps, restore_steps, save_steps, Act};
use crate::text::is_prefix;
use crate::trash::{
    item_name, last_segment, lemma_restore_inverts_trash_name, logical_name, note_ext,
    restore_target, restored_prefix, satellite_suffix, trash_name,
};

verus! {

/// The vault's files: physical path to content.
pub type Files = Map<Seq<char>, Seq<u8>>;

/// The files after one action succeeds.
pub open spec fn apply(fs: Files, a: Act) -> Files {
    match a {
        Act::CreateDirAll(_) => fs,
        Act::WriteText(p, t) => fs.insert(p, encode_utf8(t)),
        Act::WriteBytes(p, b) => fs.insert(p, b),
        Act::Rename(x, y) => if fs.contains_key(x) {
            fs.remove(x).insert(y, fs[x])
        } else {
            fs
        },
        Act::RemoveFile(p) => fs.remove(p),
        Act::RemoveDirAll(p) => fs.remove_keys(
            Set::new(|k: Seq<char>| k == p || is_prefix(p + seq!['/'], k)),
        ),
    }
}

/// The files after every step succeeds in order.
pub open spec fn run(fs: Files, steps: Seq<(Act, bool)>) -> Files
    decreases steps.len(),
{
    if steps.len() == 0 {
        fs
    } else {
        run(apply(fs, steps[0].0), steps.drop_first())
    }
}

/// What loading the note `p` yields: its file's bytes, or nothing when
/// there is no such file.
pub open spec fn loaded(fs: Files, l: &VaultLayout, p: Seq<char>) -> Seq<u8> {
    if fs.contains_key(l.note_file(p)) {
        fs[l.note_file(p)]
    } else {
        Seq::empty()
    }
}

/// The text a load returns given what reading the note's file gave: the
/// file's text, or empty text when there is no file.
pub fn loaded_text(read: Option<String>) -> (r: String)
    ensures
        read is None ==> r@.len() == 0,
        read matches Some(t) ==> r@ == t@,
{
    match read {
        Some(t) => t,
        None => String::new(),
    }
}

proof fn lemma_run_cons(fs: Files, s: (Act, bool), rest: Seq<(Act, bool)>)
    ensures
        run(fs, seq![s] + rest) == run(apply(fs, s.0), rest),
{
    assert((seq![s] + rest).drop_first() =~= rest);
}

proof fn lemma_run_one(fs: Files, s: (Act, bool))
    ensures
        run(fs, seq![s]) == apply(fs, s.0),
{
    lemma_run_cons(fs, s, Seq::empty());
    assert(seq![s] + Seq::<(Act, bool)>::empty() =~= seq![s]);
}

proof fn lemma_run_append(fs: Files, a: Seq<(Act, bool)>, b: Seq<(Act, bool)>)
    ensures
        run(fs, a + b) == run(run(fs, a), b),
    decreases a.len(),
{
    if a.len() == 0 {
        assert(a + b =~= b);
    } else {
        assert((a + b).drop_first() =~= a.drop_first() + b);
        lemma_run_append(apply(fs, a[0].0), a.drop_first(), b);
    }
}

/// A path below one root is never below a root apart from it.
pub proof fn lemma_apart_below(a: Seq<char>, b: Seq<char>, x: Seq<char>)
    requires
        apart(a, b),
    ensures
        !is_prefix(a + seq!['/'], join(b, x)),
{
    let pa = a + seq!['/'];
    let pb = b + seq!['/'];
    let s = join(b, x);
    assert(s.subrange(0, pb.len() as int) =~= pb);
    if is_prefix(pa, s) {
        if pa.len() <= pb.len() {
            assert(pb.subrange(0, pa.len() as int) =~= s.subrange(0, pa.len() as int));
        } else {
            assert(pa.subrange(0, pb.len() as int) =~= s.subrange(0, pb.len() as int));
        }
    }
}

/// Paths below two roots that are apart differ.
pub proof fn lemma_apart_differ(a: Seq<char>, b: Seq<char>, x: Seq<char>, y: Seq<char>)
    requires
        apart(a, b),
    ensures
        join(a, x) != join(b, y),
{
    lemma_apart_below(a, b, y);
    assert(join(a, x).subrange(0, a.len() + 1 as int) =~= a + seq!['/']);
}

/// Different notes live in different files.
pub proof fn lemma_note_file_injective(l: &VaultLayout, p: Seq<char>, q: Seq<char>)
    requires
        l.note_file(p) == l.note_file(q),
    ensures
        p == q,
{
    reveal_strlit(".md");
    let n = l.notes@.len() + 1 as int;
    assert(l.note_file(p).len() == n + p.len() + 3);
    assert(l.note_file(q).len() == n + q.len() + 3);
    assert(l.note_file(p).subrange(n, n + p.len()) =~= p);
    assert(l.note_file(q).subrange(n, n + q.len()) =~= q);
}

/// Saving then loading a note gives back what was saved.
pub proof fn lemma_save_then_load(fs: Files, l: &VaultLayout, p: Seq<char>, c: Seq<char>)
    ensures
        loaded(run(fs, save_steps(l, p, c)), l, p) == encode_utf8(c),
        run(fs, save_steps(l, p, c)).contains_key(l.note_file(p)),
{
    let s = save_steps(l, p, c);
    lemma_run_cons(fs, s[0], seq![s[1]]);
    assert(s =~= seq![s[0]] + seq![s[1]]);
    lemma_run_one(apply(fs, s[0].0), s[1]);
}

/// Saving `p`, then renaming it to `q`, leaves the content at `q` and none
/// at `p`, whether or not an asset folder moves along.
pub proof fn lemma_rename_moves_content(
    fs: Files,
    l: &VaultLayout,
    p: Seq<char>,
    q: Seq<char>,
    c: Seq<char>,
    asset_exists: bool,
)
    requires
        l.well_formed(),
        p != q,
    ensures
        ({
            let after = run(run(fs, save_steps(l, p, c)), rename_steps(l, p, q, false, asset_exists));
            loaded(after, l, q) == encode_utf8(c) && loaded(after, l, p).len() == 0
        }),
{
    let fs1 = run(fs, save_steps(l, p, c));
    lemma_save_then_load(fs, l, p, c);
    let nfp = l.note_file(p);
    let nfq = l.note_file(q);
    assert(l.item_path(p, false) == nfp);
    assert(l.item_path(q, false) == nfq);
    if nfp == nfq {
        lemma_note_file_injective(l, p, q);
    }
    let steps = rename_steps(l, p, q, false, asset_exists);
    let primary = seq![
        (Act::CreateDirAll(crate::layout::parent_in(l.notes@, item_name(q, false))), true),
        (Act::Rename(nfp, nfq), false),
    ];
    assert(primary =~= seq![primary[0]] + seq![primary[1]]);
    lemma_run_cons(fs1, primary[0], seq![primary[1]]);
    lemma_run_one(fs1, primary[1]);
    let fs2 = run(fs1, primary);
    assert(fs2.contains_key(nfq) && fs2[nfq] == encode_utf8(c) && !fs2.contains_key(nfp));
    if asset_exists {
        let extra = seq![
            (Act::CreateDirAll(crate::layout::parent_in(l.assets@, q)), true),
            (Act::Rename(l.asset_dir(p), l.asset_dir(q)), true),
        ];
        assert(steps =~= primary + extra);
        lemma_run_append(fs1, primary, extra);
        assert(extra =~= seq![extra[0]] + seq![extra[1]]);
        lemma_run_cons(fs2, extra[0], seq![extra[1]]);
        lemma_run_one(fs2, extra[1]);
        lemma_apart_differ(l.notes@, l.assets@, p + note_ext(), p);
        lemma_apart_differ(l.notes@, l.assets@, q + note_ext(), p);
        lemma_apart_differ(l.notes@, l.assets@, p + note_ext(), q);
        lemma_apart_differ(l.notes@, l.assets@, q + note_ext(), q);
    } else {
        assert(steps =~= primary);
    }
}

/// Saving a note, deleting it, then restoring its trash entry puts the
/// saved content back at the root of the notes tree, under the note's own
/// name, or behind the restored prefix when that name was already taken;
/// whether asset folders travel along makes no difference to the note.
pub proof fn lemma_delete_then_restore(
    fs: Files,
    l: &VaultLayout,
    p: Seq<char>,
    c: Seq<char>,
    secs: nat,
    asset_exists: bool,
    plain_taken: bool,
    satellite_exists: bool,
    asset_target_exists: bool,
)
    requires
        l.well_formed(),
    ensures
        ({
            let e = trash_name(p, false, secs);
            let saved = run(fs, save_steps(l, p, c));
            let deleted = run(saved, delete_steps(l, p, false, e, asset_exists));
            let target = restore_target(e, plain_taken);
            let restored = run(
                deleted,
                restore_steps(l, e, target, satellite_exists, asset_target_exists),
            );
            let name = if plain_taken {
                restored_prefix() + last_segment(p)
            } else {
                last_segment(p)
            };
            target == name + note_ext() && loaded(restored, l, name) == encode_utf8(c)
        }),
{
    reveal_strlit(".assets");
    let e = trash_name(p, false, secs);
    let saved = run(fs, save_steps(l, p, c));
    lemma_save_then_load(fs, l, p, c);
    lemma_restore_inverts_trash_name(p, false, secs);
    let name = if plain_taken {
        restored_prefix() + last_segment(p)
    } else {
        last_segment(p)
    };
    let target = restore_target(e, plain_taken);
    assert(target =~= name + note_ext());
    let jt = join(l.notes@, target);
    assert(l.note_file(name) == jt);

    // Into the trash.
    let nfp = l.note_file(p);
    let te = l.trash_path(e);
    let tsat = l.trash_path(e + satellite_suffix());
    assert(l.item_path(p, false) == nfp);
    let first = seq![(Act::Rename(nfp, te), false)];
    lemma_run_one(saved, first[0]);
    let d1 = run(saved, first);
    assert(d1.contains_key(te) && d1[te] == encode_utf8(c));
    let dsteps = delete_steps(l, p, false, e, asset_exists);
    if asset_exists {
        let extra = seq![(Act::Rename(l.asset_dir(p), tsat), true)];
        assert(dsteps =~= first + extra);
        lemma_run_append(saved, first, extra);
        lemma_run_one(d1, extra[0]);
        lemma_apart_differ(l.assets@, l.trash@, p, e);
        assert(te.len() != tsat.len());
    } else {
        assert(dsteps =~= first);
    }
    let deleted = run(saved, dsteps);
    assert(deleted.contains_key(te) && deleted[te] == encode_utf8(c));

    // Back out of the trash.
    let rsteps = restore_steps(l, e, target, satellite_exists, asset_target_exists);
    let back = seq![(Act::Rename(te, jt), false)];
    lemma_run_one(deleted, back[0]);
    let r1 = run(deleted, back);
    assert(r1.contains_key(jt) && r1[jt] == encode_utf8(c));
    if satellite_exists {
        let ad = l.asset_dir(logical_name(target));
        let clear: Seq<(Act, bool)> = if asset_target_exists {
            seq![(Act::RemoveDirAll(ad), true)]
        } else {
            Seq::empty()
        };
        let last = seq![(Act::Rename(tsat, ad), true)];
        assert(rsteps =~= back + clear + last);
        lemma_run_append(deleted, back + clear, last);
        lemma_run_append(deleted, back, clear);
        lemma_apart_below(l.assets@, l.notes@, target);
        lemma_apart_differ(l.assets@, l.notes@, logical_name(target), target);
        lemma_apart_differ(l.trash@, l.notes@, e + satellite_suffix(), target);
        if asset_target_exists {
            lemma_run_one(r1, clear[0]);
            if is_prefix(ad + seq!['/'], jt) {
                assert(jt.subrange(0, l.assets@.len() + 1 as int) =~= (ad + seq!['/']).subrange(
                    0,
                    l.assets@.len() + 1 as int,
                ));
                assert((ad + seq!['/']).subrange(0, l.assets@.len() + 1 as int) =~= l.assets@
                    + seq!['/']);
            }
        } else {
            assert(run(r1, clear) == r1);
        }
        let r2 = run(r1, clear);
        assert(r2.contains_key(jt) && r2[jt] == encode_utf8(c));
        lemma_run_one(r2, last[0]);
    } else {
        assert(rsteps =~= back);
    }
}

/// After a note is created its file exists holding the placeholder, so a
/// second create of the same path is told the file exists and is refused,
/// which leaves that placeholder as it is.
pub proof fn lemma_create_leaves_file(fs: Files, l: &VaultLayout, p: Seq<char>)
    ensures
        run(fs, save_steps(l, p, placeholder())).contains_key(l.note_file(p)),
        loaded(run(fs, save_steps(l, p, placeholder())), l, p) == encode_utf8(placeholder()),
{
    lemma_save_then_load(fs, l, p, placeholder());
}

} // verus!
