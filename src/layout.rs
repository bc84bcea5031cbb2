//! Where things live: the three peer trees of a vault and the mapping from
//! logical note paths to physical paths.

use vstd::prelude::*;
use vstd::string::*;

use crate::text::{concat2, concat3, find_last, is_prefix, last_index, slice};
use crate::trash::{item_name, note_ext};

verus! {

/// The roots of the notes, assets and trash trees of one vault, fixed once
/// at startup and handed to every operation.
pub struct VaultLayout {
    pub notes: String,
    pub assets: String,
    pub trash: String,
}

/// `rel` below the directory `base`.
pub open spec fn join(base: Seq<char>, rel: Seq<char>) -> Seq<char> {
    base + seq!['/'] + rel
}

/// `a` and `b` are roots of which neither lies within the other.
pub open spec fn apart(a: Seq<char>, b: Seq<char>) -> bool {
    !is_prefix(a + seq!['/'], b + seq!['/']) && !is_prefix(b + seq!['/'], a + seq!['/'])
}

impl VaultLayout {
    /// The three trees are pairwise apart.
    pub open spec fn well_formed(&self) -> bool {
        &&& apart(self.notes@, self.assets@)
        &&& apart(self.notes@, self.trash@)
        &&& apart(self.assets@, self.trash@)
    }

    /// Physical file of the note at logical path `p`.
    pub open spec fn note_file(&self, p: Seq<char>) -> Seq<char> {
        join(self.notes@, p + note_ext())
    }

    /// Physical path of the note (or folder) at logical path `p`.
    pub open spec fn item_path(&self, p: Seq<char>, is_dir: bool) -> Seq<char> {
        join(self.notes@, item_name(p, is_dir))
    }

    /// Asset folder of the note at logical path `p`.
    pub open spec fn asset_dir(&self, p: Seq<char>) -> Seq<char> {
        join(self.assets@, p)
    }

    /// Physical path of the trash entry named `e`.
    pub open spec fn trash_path(&self, e: Seq<char>) -> Seq<char> {
        join(self.trash@, e)
    }
}

/// The folder holding `rel` below `base`.
pub open spec fn parent_in(base: Seq<char>, rel: Seq<char>) -> Seq<char> {
    match last_index(rel, '/') {
        Some(i) => join(base, rel.subrange(0, i)),
        None => base,
    }
}

/// `rel` below `base`.
pub fn join_path(base: &str, rel: &str) -> (r: String)
    ensures
        r@ == join(base@, rel@),
{
    proof {
        reveal_strlit("/");
        assert("/"@ =~= seq!['/']);
    }
    concat3(base, "/", rel)
}

/// The folder holding `rel` below `base`.
pub fn parent_path(base: &str, rel: &str) -> (r: String)
    ensures
        r@ == parent_in(base@, rel@),
{
    match find_last(rel, '/') {
        Some(i) => {
            let head = slice(rel, 0, i);
            join_path(base, head.as_str())
        },
        None => String::from_str(base),
    }
}

/// On-disk name of the note or folder `p`.
pub fn item_name_of(p: &str, is_dir: bool) -> (r: String)
    ensures
        r@ == item_name(p@, is_dir),
{
    if is_dir {
        String::from_str(p)
    } else {
        proof {
            reveal_strlit(".md");
        }
        concat2(p, ".md")
    }
}

impl VaultLayout {
    /// Physical file of the note at logical path `path`.
    pub fn note_file_path(&self, path: &str) -> (r: String)
        ensures
            r@ == self.note_file(path@),
    {
        let name = item_name_of(path, false);
        join_path(self.notes.as_str(), name.as_str())
    }

    /// Physical path of the note or folder at logical path `path`.
    pub fn item_path_of(&self, path: &str, is_dir: bool) -> (r: String)
        ensures
            r@ == self.item_path(path@, is_dir),
    {
        let name = item_name_of(path, is_dir);
        join_path(self.notes.as_str(), name.as_str())
    }

    /// Asset folder of the note at logical path `path`.
    pub fn asset_dir_of(&self, path: &str) -> (r: String)
        ensures
            r@ == self.asset_dir(path@),
    {
        join_path(self.assets.as_str(), path)
    }

    /// Physical path of the trash entry `name`.
    pub fn trash_path_of(&self, name: &str) -> (r: String)
        ensures
            r@ == self.trash_path(name@),
    {
        join_path(self.trash.as_str(), name)
    }
}

} // verus!
