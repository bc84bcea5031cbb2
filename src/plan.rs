//! The filesystem steps each vault command takes. The caller performs them
//! in order: a failed step that is not best-effort ends the command with
//! its error; a failed best-effort step is passed over.

use vstd::prelude::*;
use vstd::string::*;

use crate::error::VaultError;
use crate::layout::{join, join_path, parent_in, parent_path, VaultLayout};
use crate::trash::{
    item_name, logical_name, logical_name_of, restore_target, restore_target_name,
    satellite_name, satellite_suffix, trash_entry_name, trash_name,
};

verus! {

/// One filesystem change.
#[derive(Debug, Clone, PartialEq, Eq)]
pub enum FsAction {
    /// Create a directory and its missing ancestors.
    CreateDirAll(String),
    /// Write text to a file, replacing what was there.
    WriteText(String, String),
    /// Write bytes to a file, replacing what was there.
    WriteBytes(String, Vec<u8>),
    /// Move a file or directory; the target must not exist.
    Rename(String, String),
    /// Remove one file.
    RemoveFile(String),
    /// Remove a directory with everything in it.
    RemoveDirAll(String),
}

/// What an action does, over plain values.
pub enum Act {
    CreateDirAll(Seq<char>),
    WriteText(Seq<char>, Seq<char>),
    WriteBytes(Seq<char>, Seq<u8>),
    Rename(Seq<char>, Seq<char>),
    RemoveFile(Seq<char>),
    RemoveDirAll(Seq<char>),
}

impl View for FsAction {
    type V = Act;

    open spec fn view(&self) -> Act {
        match self {
            FsAction::CreateDirAll(p) => Act::CreateDirAll(p@),
            FsAction::WriteText(p, t) => Act::WriteText(p@, t@),
            FsAction::WriteBytes(p, b) => Act::WriteBytes(p@, b@),
            FsAction::Rename(a, b) => Act::Rename(a@, b@),
            FsAction::RemoveFile(p) => Act::RemoveFile(p@),
            FsAction::RemoveDirAll(p) => Act::RemoveDirAll(p@),
        }
    }
}

/// An action, and whether its failure is passed over.
#[derive(Debug, Clone, PartialEq, Eq)]
pub struct Step {
    pub action: FsAction,
    pub best_effort: bool,
}

impl View for Step {
    type V = (Act, bool);

    open spec fn view(&self) -> (Act, bool) {
        (self.action@, self.best_effort)
    }
}

/// The plain view of a list of steps.
pub open spec fn steps_view(v: Seq<Step>) -> Seq<(Act, bool)> {
    v.map_values(|s: Step| s@)
}

/// The placeholder body of a new note.
pub open spec fn placeholder() -> Seq<char> {
    "# "@
}

fn step(action: FsAction, best_effort: bool) -> (r: Step)
    ensures
        r@ == (action@, best_effort),
{
    Step { action, best_effort }
}

/// Steps of saving `content` as the note `path`.
pub open spec fn save_steps(l: &VaultLayout, p: Seq<char>, c: Seq<char>) -> Seq<(Act, bool)> {
    seq![
        (Act::CreateDirAll(parent_in(l.notes@, item_name(p, false))), true),
        (Act::WriteText(l.note_file(p), c), false),
    ]
}

/// Saves `content` as the note `path`: its folders are created as needed
/// (best-effort), then the file is written.
pub fn plan_save(layout: &VaultLayout, path: &str, content: &str) -> (r: Vec<Step>)
    ensures
        steps_view(r@) == save_steps(layout, path@, content@),
{
    let name = crate::layout::item_name_of(path, false);
    let parent = parent_path(layout.notes.as_str(), name.as_str());
    let file = layout.note_file_path(path);
    let mut r: Vec<Step> = Vec::new();
    r.push(step(FsAction::CreateDirAll(parent), true));
    r.push(step(FsAction::WriteText(file, String::from_str(content)), false));
    assert(steps_view(r@) =~= save_steps(layout, path@, content@));
    r
}

/// Creates the note `path` with the placeholder body; `exists` says whether
/// its file is already there, which is refused.
pub fn plan_create(layout: &VaultLayout, path: &str, exists: bool) -> (r: Result<
    Vec<Step>,
    VaultError,
>)
    ensures
        exists <==> r is Err,
        r matches Err(e) ==> e is AlreadyExists,
        r matches Ok(v) ==> steps_view(v@) == save_steps(layout, path@, placeholder()),
{
    if exists {
        return Err(VaultError::AlreadyExists);
    }
    proof {
        reveal_strlit("# ");
    }
    Ok(plan_save(layout, path, "# "))
}

/// Creates the folder `path` in the notes tree, with its ancestors.
pub fn plan_create_folder(layout: &VaultLayout, path: &str) -> (r: Vec<Step>)
    ensures
        steps_view(r@) == seq![(Act::CreateDirAll(join(layout.notes@, path@)), false)],
{
    let dir = join_path(layout.notes.as_str(), path);
    let mut r: Vec<Step> = Vec::new();
    r.push(step(FsAction::CreateDirAll(dir), false));
    assert(steps_view(r@) =~= seq![(Act::CreateDirAll(join(layout.notes@, path@)), false)]);
    r
}

/// Steps of renaming `o` to `n` once the destination is known to be free.
pub open spec fn rename_steps(
    l: &VaultLayout,
    o: Seq<char>,
    n: Seq<char>,
    is_dir: bool,
    asset_exists: bool,
) -> Seq<(Act, bool)> {
    let primary = seq![
        (Act::CreateDirAll(parent_in(l.notes@, item_name(n, is_dir))), true),
        (Act::Rename(l.item_path(o, is_dir), l.item_path(n, is_dir)), false),
    ];
    if asset_exists {
        primary + seq![
            (Act::CreateDirAll(parent_in(l.assets@, n)), true),
            (Act::Rename(l.asset_dir(o), l.asset_dir(n)), true),
        ]
    } else {
        primary
    }
}

/// Renames the note or folder `old_path` to `new_path`, and its asset folder
/// with it when `asset_exists` (best-effort). A taken destination
/// (`dest_exists`) is refused rather than overwritten.
pub fn plan_rename(
    layout: &VaultLayout,
    old_path: &str,
    new_path: &str,
    is_dir: bool,
    dest_exists: bool,
    asset_exists: bool,
) -> (r: Result<Vec<Step>, VaultError>)
    ensures
        dest_exists <==> r is Err,
        r matches Err(e) ==> e is AlreadyExists,
        r matches Ok(v) ==> steps_view(v@) == rename_steps(
            layout,
            old_path@,
            new_path@,
            is_dir,
            asset_exists,
        ),
{
    if dest_exists {
        return Err(VaultError::AlreadyExists);
    }
    let new_name = crate::layout::item_name_of(new_path, is_dir);
    let mut r: Vec<Step> = Vec::new();
    r.push(step(FsAction::CreateDirAll(parent_path(layout.notes.as_str(), new_name.as_str())), true));
    r.push(
        step(
            FsAction::Rename(
                layout.item_path_of(old_path, is_dir),
                layout.item_path_of(new_path, is_dir),
            ),
            false,
        ),
    );
    if asset_exists {
        r.push(step(FsAction::CreateDirAll(parent_path(layout.assets.as_str(), new_path)), true));
        r.push(
            step(
                FsAction::Rename(layout.asset_dir_of(old_path), layout.asset_dir_of(new_path)),
                true,
            ),
        );
    }
    assert(steps_view(r@) =~= rename_steps(layout, old_path@, new_path@, is_dir, asset_exists));
    Ok(r)
}

/// Steps of moving the item `p` to the trash entry `e`.
pub open spec fn delete_steps(
    l: &VaultLayout,
    p: Seq<char>,
    is_dir: bool,
    e: Seq<char>,
    asset_exists: bool,
) -> Seq<(Act, bool)> {
    let primary = seq![(Act::Rename(l.item_path(p, is_dir), l.trash_path(e)), false)];
    if asset_exists {
        primary + seq![
            (Act::Rename(l.asset_dir(p), l.trash_path(e + satellite_suffix())), true),
        ]
    } else {
        primary
    }
}

/// Moves the note or folder `path` to the trash at `secs` seconds after the
/// epoch, under its trash name, and its asset folder beside it as the
/// entry's satellite (best-effort). An absent source is a no-op. When the
/// trash name is already taken (`trash_taken`: the same name deleted in
/// the same second) the delete is refused and nothing moves.
pub fn plan_delete(
    layout: &VaultLayout,
    path: &str,
    is_dir: bool,
    secs: u64,
    source_exists: bool,
    trash_taken: bool,
    asset_exists: bool,
) -> (r: Result<Vec<Step>, VaultError>)
    ensures
        !source_exists ==> (r matches Ok(v) && v@.len() == 0),
        source_exists && trash_taken ==> (r matches Err(e) && e is AlreadyExists),
        source_exists && !trash_taken ==> (r matches Ok(v) && steps_view(v@) == delete_steps(
            layout,
            path@,
            is_dir,
            trash_name(path@, is_dir, secs as nat),
            asset_exists,
        )),
{
    if !source_exists {
        return Ok(Vec::new());
    }
    if trash_taken {
        return Err(VaultError::AlreadyExists);
    }
    let name = trash_entry_name(path, is_dir, secs);
    let mut r: Vec<Step> = Vec::new();
    r.push(
        step(
            FsAction::Rename(layout.item_path_of(path, is_dir), layout.trash_path_of(name.as_str())),
            false,
        ),
    );
    if asset_exists {
        let sat = satellite_name(name.as_str());
        r.push(
            step(FsAction::Rename(layout.asset_dir_of(path), layout.trash_path_of(sat.as_str())), true),
        );
    }
    assert(steps_view(r@) =~= delete_steps(
        layout,
        path@,
        is_dir,
        trash_name(path@, is_dir, secs as nat),
        asset_exists,
    ));
    Ok(r)
}

/// Steps of restoring the entry `e` under the root-level name `target`.
pub open spec fn restore_steps(
    l: &VaultLayout,
    e: Seq<char>,
    target: Seq<char>,
    satellite_exists: bool,
    asset_target_exists: bool,
) -> Seq<(Act, bool)> {
    let primary = seq![(Act::Rename(l.trash_path(e), join(l.notes@, target)), false)];
    let assets = l.asset_dir(logical_name(target));
    let clear = if asset_target_exists {
        seq![(Act::RemoveDirAll(assets), true)]
    } else {
        Seq::empty()
    };
    if satellite_exists {
        primary + clear + seq![(Act::Rename(l.trash_path(e + satellite_suffix()), assets), true)]
    } else {
        primary
    }
}

/// Restores the trash entry `entry` to the root of the notes tree under its
/// restored name, or behind the restored prefix when that name is taken
/// (`plain_taken`); when both are taken (`prefixed_taken`) it is refused,
/// never overwritten. The entry's satellite, if any (`satellite_exists`),
/// becomes the restored note's asset folder, replacing one already there
/// (`asset_target_exists`); both are best-effort.
pub fn plan_restore(
    layout: &VaultLayout,
    entry: &str,
    entry_exists: bool,
    plain_taken: bool,
    prefixed_taken: bool,
    satellite_exists: bool,
    asset_target_exists: bool,
) -> (r: Result<Vec<Step>, VaultError>)
    ensures
        !entry_exists ==> (r matches Err(e) && e is NotFound),
        entry_exists && plain_taken && prefixed_taken ==> (r matches Err(e) && e is AlreadyExists),
        entry_exists && !(plain_taken && prefixed_taken) ==> (r matches Ok(v) && steps_view(v@)
            == restore_steps(
            layout,
            entry@,
            restore_target(entry@, plain_taken),
            satellite_exists,
            asset_target_exists,
        )),
{
    if !entry_exists {
        return Err(VaultError::NotFound);
    }
    if plain_taken && prefixed_taken {
        return Err(VaultError::AlreadyExists);
    }
    let target = restore_target_name(entry, plain_taken);
    let mut r: Vec<Step> = Vec::new();
    r.push(
        step(
            FsAction::Rename(
                layout.trash_path_of(entry),
                join_path(layout.notes.as_str(), target.as_str()),
            ),
            false,
        ),
    );
    if satellite_exists {
        let logical = logical_name_of(target.as_str());
        if asset_target_exists {
            r.push(step(FsAction::RemoveDirAll(layout.asset_dir_of(logical.as_str())), true));
        }
        let sat = satellite_name(entry);
        r.push(
            step(
                FsAction::Rename(
                    layout.trash_path_of(sat.as_str()),
                    layout.asset_dir_of(logical.as_str()),
                ),
                true,
            ),
        );
    }
    assert(steps_view(r@) =~= restore_steps(
        layout,
        entry@,
        restore_target(entry@, plain_taken),
        satellite_exists,
        asset_target_exists,
    ));
    Ok(r)
}

/// Steps of purging the trash entry `e` for good.
pub open spec fn purge_steps(
    l: &VaultLayout,
    e: Seq<char>,
    entry_exists: bool,
    entry_is_dir: bool,
    satellite_exists: bool,
) -> Seq<(Act, bool)> {
    let main = if !entry_exists {
        Seq::empty()
    } else if entry_is_dir {
        seq![(Act::RemoveDirAll(l.trash_path(e)), false)]
    } else {
        seq![(Act::RemoveFile(l.trash_path(e)), false)]
    };
    if satellite_exists {
        main + seq![(Act::RemoveDirAll(l.trash_path(e + satellite_suffix())), true)]
    } else {
        main
    }
}

/// Purges the trash entry `entry` (a file or a whole folder), and its
/// satellite if there is one (best-effort).
pub fn plan_purge(
    layout: &VaultLayout,
    entry: &str,
    entry_exists: bool,
    entry_is_dir: bool,
    satellite_exists: bool,
) -> (r: Vec<Step>)
    ensures
        steps_view(r@) == purge_steps(
            layout,
            entry@,
            entry_exists,
            entry_is_dir,
            satellite_exists,
        ),
{
    let mut r: Vec<Step> = Vec::new();
    if entry_exists {
        let p = layout.trash_path_of(entry);
        if entry_is_dir {
            r.push(step(FsAction::RemoveDirAll(p), false));
        } else {
            r.push(step(FsAction::RemoveFile(p), false));
        }
    }
    if satellite_exists {
        let sat = satellite_name(entry);
        r.push(step(FsAction::RemoveDirAll(layout.trash_path_of(sat.as_str())), true));
    }
    assert(steps_view(r@) =~= purge_steps(
        layout,
        entry@,
        entry_exists,
        entry_is_dir,
        satellite_exists,
    ));
    r
}

/// Empties the trash: the whole trash tree, satellites included, is removed
/// and created anew; nothing happens when it is absent.
pub fn plan_empty_trash(layout: &VaultLayout, trash_exists: bool) -> (r: Vec<Step>)
    ensures
        trash_exists ==> steps_view(r@) == seq![
            (Act::RemoveDirAll(layout.trash@), false),
            (Act::CreateDirAll(layout.trash@), false),
        ],
        !trash_exists ==> r@.len() == 0,
{
    let mut r: Vec<Step> = Vec::new();
    if trash_exists {
        r.push(step(FsAction::RemoveDirAll(layout.trash.clone()), false));
        r.push(step(FsAction::CreateDirAll(layout.trash.clone()), false));
        assert(steps_view(r@) =~= seq![
            (Act::RemoveDirAll(layout.trash@), false),
            (Act::CreateDirAll(layout.trash@), false),
        ]);
    }
    r
}

/// Physical path of the attachment `file_name` of the note `note_path`.
pub open spec fn attachment_path(l: &VaultLayout, note: Seq<char>, file: Seq<char>) -> Seq<char> {
    join(l.asset_dir(note), file)
}

/// Stores an attachment: the note's asset folder is created as needed, then
/// the bytes are written. Returns the steps and the path written.
pub fn plan_save_attachment(
    layout: &VaultLayout,
    note_path: &str,
    file_name: &str,
    payload: Vec<u8>,
) -> (r: (Vec<Step>, String))
    ensures
        r.1@ == attachment_path(layout, note_path@, file_name@),
        steps_view(r.0@) == seq![
            (Act::CreateDirAll(layout.asset_dir(note_path@)), false),
            (Act::WriteBytes(r.1@, payload@), false),
        ],
{
    let dir = layout.asset_dir_of(note_path);
    let target = join_path(dir.as_str(), file_name);
    let mut r: Vec<Step> = Vec::new();
    r.push(step(FsAction::CreateDirAll(dir), false));
    let ghost bytes = payload@;
    r.push(step(FsAction::WriteBytes(target.clone(), payload), false));
    assert(steps_view(r@) =~= seq![
        (Act::CreateDirAll(layout.asset_dir(note_path@)), false),
        (Act::WriteBytes(target@, bytes), false),
    ]);
    (r, target)
}

} // verus!
