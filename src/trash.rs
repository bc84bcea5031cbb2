//! Naming in the flat trash: how a deleted item is renamed, how its asset
//! folder travels beside it, and how a name is turned back on restore.

use vstd::prelude::*;
use vstd::string::*;

use crate::tree::DirEntryInfo;
use crate::text::{
    concat2, find_first_from, find_last, first_index_from, has_suffix, is_suffix, last_index,
    lemma_first_index_at, lemma_last_index_append_free, slice,
};

verus! {

/// The file extension of a note.
pub open spec fn note_ext() -> Seq<char> {
    ".md"@
}

/// The suffix that ties a trashed asset folder to its trash entry.
pub open spec fn satellite_suffix() -> Seq<char> {
    ".assets"@
}

/// The prefix given to a restored name that is already taken.
pub open spec fn restored_prefix() -> Seq<char> {
    "restored_"@
}

/// The last `/`-separated segment of a logical path.
pub open spec fn last_segment(p: Seq<char>) -> Seq<char> {
    match last_index(p, '/') {
        Some(i) => p.subrange(i + 1, p.len() as int),
        None => p,
    }
}

/// The decimal digit for `d < 10`.
pub open spec fn digit_char(d: nat) -> char {
    ((d + 48) as u8) as char
}

/// Decimal representation of `n`, without leading zeros.
pub open spec fn decimal(n: nat) -> Seq<char>
    decreases n,
{
    if n < 10 {
        seq![digit_char(n)]
    } else {
        decimal(n / 10) + seq![digit_char(n % 10)]
    }
}

/// The on-disk name of a note (`stem.md`) or of a folder (`stem`).
pub open spec fn item_name(stem: Seq<char>, is_dir: bool) -> Seq<char> {
    if is_dir {
        stem
    } else {
        stem + note_ext()
    }
}

/// Trash entry name of the item at logical path `p`, deleted at `secs`:
/// `<stem>_<secs>` followed by the note extension for a note.
pub open spec fn trash_name(p: Seq<char>, is_dir: bool, secs: nat) -> Seq<char> {
    if is_dir {
        last_segment(p) + seq!['_'] + decimal(secs)
    } else {
        last_segment(p) + seq!['_'] + decimal(secs) + note_ext()
    }
}

/// The name an entry is restored under: the part before the last `_`,
/// followed by whatever starts at the first `.` after it.
pub open spec fn restored_name(e: Seq<char>) -> Seq<char> {
    match last_index(e, '_') {
        None => e,
        Some(i) => e.subrange(0, i) + match first_index_from(e, '.', i) {
            Some(j) => e.subrange(j, e.len() as int),
            None => Seq::empty(),
        },
    }
}

/// The root-level name a restore uses: the restored name, or that name
/// behind the restored prefix when the plain name is taken.
pub open spec fn restore_target(e: Seq<char>, plain_taken: bool) -> Seq<char> {
    if plain_taken {
        restored_prefix() + restored_name(e)
    } else {
        restored_name(e)
    }
}

/// Logical name of a root-level item: its name without the note extension.
pub open spec fn logical_name(name: Seq<char>) -> Seq<char> {
    if is_suffix(note_ext(), name) {
        name.subrange(0, name.len() - note_ext().len())
    } else {
        name
    }
}

/// Every character of a decimal representation is an ASCII digit.
pub proof fn lemma_decimal_digits(n: nat)
    ensures
        forall|k: int|
            0 <= k < decimal(n).len() ==> #[trigger] decimal(n)[k] != '_' && decimal(n)[k] != '.',
    decreases n,
{
    let last = digit_char(n % 10);
    assert(last as u32 == (n % 10) + 48);
    if n >= 10 {
        lemma_decimal_digits(n / 10);
        assert forall|k: int| 0 <= k < decimal(n).len() implies #[trigger] decimal(n)[k] != '_'
            && decimal(n)[k] != '.' by {
            if k < decimal(n / 10).len() {
                assert(decimal(n)[k] == decimal(n / 10)[k]);
            }
        }
    }
}

/// Restoring undoes the trash renaming: the restored name of a trash entry
/// is the deleted item's own name, for every path, kind and time.
pub proof fn lemma_restore_inverts_trash_name(p: Seq<char>, is_dir: bool, secs: nat)
    ensures
        restored_name(trash_name(p, is_dir, secs)) == item_name(last_segment(p), is_dir),
{
    let stem = last_segment(p);
    let d = decimal(secs);
    let head = stem + seq!['_'];
    let ext: Seq<char> = if is_dir {
        Seq::empty()
    } else {
        note_ext()
    };
    let e = trash_name(p, is_dir, secs);
    reveal_strlit(".md");
    lemma_decimal_digits(secs);
    assert(e =~= head + (d + ext));
    assert(head.drop_last() =~= stem);
    assert(last_index(head, '_') == Some(stem.len() as int));
    lemma_last_index_append_free(head, d + ext, '_');
    let i = stem.len() as int;
    let j = i + 1 + d.len();
    lemma_first_index_at(e, '.', i, j);
    assert(e.subrange(0, i) =~= stem);
    if !is_dir {
        assert(e.subrange(j, e.len() as int) =~= note_ext());
    } else {
        assert(stem + Seq::<char>::empty() =~= stem);
    }
}

fn digit_text(d: u64) -> (r: &'static str)
    requires
        d < 10,
    ensures
        r@ == seq![digit_char(d as nat)],
{
    proof {
        reveal_strlit("0");
        reveal_strlit("1");
        reveal_strlit("2");
        reveal_strlit("3");
        reveal_strlit("4");
        reveal_strlit("5");
        reveal_strlit("6");
        reveal_strlit("7");
        reveal_strlit("8");
        reveal_strlit("9");
    }
    let r = if d == 0 {
        "0"
    } else if d == 1 {
        "1"
    } else if d == 2 {
        "2"
    } else if d == 3 {
        "3"
    } else if d == 4 {
        "4"
    } else if d == 5 {
        "5"
    } else if d == 6 {
        "6"
    } else if d == 7 {
        "7"
    } else if d == 8 {
        "8"
    } else {
        "9"
    };
    assert(r@ =~= seq![digit_char(d as nat)]);
    r
}

/// Appends the decimal representation of `n` to `out`.
pub fn push_decimal(out: &mut String, n: u64)
    ensures
        final(out)@ == old(out)@ + decimal(n as nat),
    decreases n,
{
    if n >= 10 {
        push_decimal(out, n / 10);
    }
    out.append(digit_text(n % 10));
    assert(final(out)@ =~= old(out)@ + decimal(n as nat));
}

/// The last segment of a logical path.
pub fn last_segment_of(p: &str) -> (r: String)
    ensures
        r@ == last_segment(p@),
{
    let n = p.unicode_len();
    match find_last(p, '/') {
        Some(i) => slice(p, i + 1, n),
        None => String::from_str(p),
    }
}

/// The name under which the item at `path` goes into the trash when
/// deleted at `secs` seconds after the Unix epoch.
pub fn trash_entry_name(path: &str, is_dir: bool, secs: u64) -> (r: String)
    ensures
        r@ == trash_name(path@, is_dir, secs as nat),
{
    let mut r = last_segment_of(path);
    r.append("_");
    push_decimal(&mut r, secs);
    if !is_dir {
        r.append(".md");
    }
    proof {
        reveal_strlit("_");
        reveal_strlit(".md");
        assert(seq!['_'] =~= "_"@);
    }
    r
}

/// The trash name of the asset folder that travels with `entry`.
pub fn satellite_name(entry: &str) -> (r: String)
    ensures
        r@ == entry@ + satellite_suffix(),
{
    concat2(entry, ".assets")
}

/// Whether a trash name is an asset folder riding along with another entry,
/// rather than an entry of its own.
pub fn is_satellite(name: &str) -> (r: bool)
    ensures
        r == is_suffix(satellite_suffix(), name@),
{
    has_suffix(name, ".assets")
}

/// The name that the trash entry `entry` is restored under.
pub fn restored_name_of(entry: &str) -> (r: String)
    ensures
        r@ == restored_name(entry@),
{
    match find_last(entry, '_') {
        None => String::from_str(entry),
        Some(i) => {
            let n = entry.unicode_len();
            let stem = slice(entry, 0, i);
            match find_first_from(entry, '.', i) {
                Some(j) => {
                    let ext = slice(entry, j, n);
                    concat2(stem.as_str(), ext.as_str())
                },
                None => stem,
            }
        },
    }
}

/// The root-level name a restore of `entry` uses, given whether the plain
/// restored name is already taken.
pub fn restore_target_name(entry: &str, plain_taken: bool) -> (r: String)
    ensures
        r@ == restore_target(entry@, plain_taken),
{
    let name = restored_name_of(entry);
    if plain_taken {
        concat2("restored_", name.as_str())
    } else {
        name
    }
}

/// A root-level item name without the note extension.
pub fn logical_name_of(name: &str) -> (r: String)
    ensures
        r@ == logical_name(name@),
{
    if has_suffix(name, ".md") {
        proof {
            reveal_strlit(".md");
        }
        slice(name, 0, name.unicode_len() - 3)
    } else {
        String::from_str(name)
    }
}

/// Two items with the same last segment, deleted in the same second, get
/// the same trash name: the collision that deletion refuses.
pub proof fn lemma_same_second_collides(p: Seq<char>, q: Seq<char>, is_dir: bool, secs: nat)
    requires
        last_segment(p) == last_segment(q),
    ensures
        trash_name(p, is_dir, secs) == trash_name(q, is_dir, secs),
{
}

/// An entry of the trash as listed.
#[derive(Debug, Clone)]
pub struct TrashItem {
    pub name: String,
    pub is_dir: bool,
    pub path: String,
}

/// The listed entries among `es`, in order: all but the satellites.
pub open spec fn listed(es: Seq<DirEntryInfo>) -> Seq<(Seq<char>, bool)>
    decreases es.len(),
{
    if es.len() == 0 {
        Seq::empty()
    } else if is_suffix(satellite_suffix(), es.last().name@) {
        listed(es.drop_last())
    } else {
        listed(es.drop_last()).push((es.last().name@, es.last().is_dir))
    }
}

/// The trash's entries as listed: satellites are left out, every other
/// entry is listed under its name, which is also its path in the trash.
pub fn list_trash(entries: &Vec<DirEntryInfo>) -> (r: Vec<TrashItem>)
    ensures
        r@.map_values(|t: TrashItem| (t.name@, t.is_dir)) == listed(entries@),
        forall|k: int| 0 <= k < r@.len() ==> (#[trigger] r@[k]).path@ == r@[k].name@,
{
    let mut r: Vec<TrashItem> = Vec::new();
    let mut i: usize = 0;
    while i < entries.len()
        invariant
            i <= entries@.len(),
            r@.map_values(|t: TrashItem| (t.name@, t.is_dir)) == listed(
                entries@.subrange(0, i as int),
            ),
            forall|k: int| 0 <= k < r@.len() ==> (#[trigger] r@[k]).path@ == r@[k].name@,
        decreases entries@.len() - i,
    {
        let e = &entries[i];
        proof {
            assert(entries@.subrange(0, i + 1).drop_last() =~= entries@.subrange(0, i as int));
        }
        if !is_satellite(e.name.as_str()) {
            let ghost prev = r@;
            r.push(TrashItem { name: e.name.clone(), is_dir: e.is_dir, path: e.name.clone() });
            proof {
                assert(r@.map_values(|t: TrashItem| (t.name@, t.is_dir)) =~= prev.map_values(
                    |t: TrashItem| (t.name@, t.is_dir),
                ).push((e.name@, e.is_dir)));
            }
        }
        i = i + 1;
    }
    proof {
        assert(entries@.subrange(0, entries@.len() as int) =~= entries@);
    }
    r
}

} // verus!
