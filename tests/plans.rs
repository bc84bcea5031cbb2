use note_vault::error::VaultError;
use note_vault::layout::VaultLayout;
use note_vault::model::loaded_text;
use note_vault::plan::{
    plan_create, plan_create_folder, plan_delete, plan_empty_trash, plan_purge, plan_rename,
    plan_restore, plan_save, plan_save_attachment, FsAction, Step,
};

fn layout() -> VaultLayout {
    VaultLayout {
        notes: "/v/notes".to_string(),
        assets: "/v/assets".to_string(),
        trash: "/v/.trash".to_string(),
    }
}

fn s(action: FsAction, best_effort: bool) -> Step {
    Step { action, best_effort }
}

fn p(x: &str) -> String {
    x.to_string()
}

#[test]
fn save_writes_the_note_file() {
    let steps = plan_save(&layout(), "a/b", "X");
    assert_eq!(
        steps,
        vec![
            s(FsAction::CreateDirAll(p("/v/notes/a")), true),
            s(FsAction::WriteText(p("/v/notes/a/b.md"), p("X")), false),
        ]
    );
    let top = plan_save(&layout(), "top", "");
    assert_eq!(top[0], s(FsAction::CreateDirAll(p("/v/notes")), true));
}

#[test]
fn unsaved_note_loads_empty() {
    assert_eq!(loaded_text(None), "");
    assert_eq!(loaded_text(Some(p("X"))), "X");
}

#[test]
fn create_refuses_an_existing_note() {
    assert_eq!(plan_create(&layout(), "n", true), Err(VaultError::AlreadyExists));
    let steps = plan_create(&layout(), "n", false).unwrap();
    assert_eq!(steps[1], s(FsAction::WriteText(p("/v/notes/n.md"), p("# ")), false));
}

#[test]
fn create_folder_makes_the_directory() {
    assert_eq!(
        plan_create_folder(&layout(), "x/y"),
        vec![s(FsAction::CreateDirAll(p("/v/notes/x/y")), false)]
    );
}

#[test]
fn rename_moves_note_and_assets() {
    assert_eq!(plan_rename(&layout(), "a", "b", false, true, false), Err(VaultError::AlreadyExists));
    let steps = plan_rename(&layout(), "a/n", "c/m", false, false, true).unwrap();
    assert_eq!(
        steps,
        vec![
            s(FsAction::CreateDirAll(p("/v/notes/c")), true),
            s(FsAction::Rename(p("/v/notes/a/n.md"), p("/v/notes/c/m.md")), false),
            s(FsAction::CreateDirAll(p("/v/assets/c")), true),
            s(FsAction::Rename(p("/v/assets/a/n"), p("/v/assets/c/m")), true),
        ]
    );
    let dir = plan_rename(&layout(), "f", "g", true, false, false).unwrap();
    assert_eq!(dir.len(), 2);
    assert_eq!(dir[1], s(FsAction::Rename(p("/v/notes/f"), p("/v/notes/g")), false));
}

#[test]
fn delete_moves_into_the_trash() {
    assert_eq!(plan_delete(&layout(), "a/n", false, 5, false, false, true), Ok(vec![]));
    let steps = plan_delete(&layout(), "a/n", false, 5, true, false, true).unwrap();
    assert_eq!(
        steps,
        vec![
            s(FsAction::Rename(p("/v/notes/a/n.md"), p("/v/.trash/n_5.md")), false),
            s(FsAction::Rename(p("/v/assets/a/n"), p("/v/.trash/n_5.md.assets")), true),
        ]
    );
    let dir = plan_delete(&layout(), "a/f", true, 5, true, false, false).unwrap();
    assert_eq!(dir, vec![s(FsAction::Rename(p("/v/notes/a/f"), p("/v/.trash/f_5")), false)]);
}

#[test]
fn same_second_delete_is_refused() {
    assert_eq!(
        plan_delete(&layout(), "a/n", false, 5, true, true, false),
        Err(VaultError::AlreadyExists)
    );
}

#[test]
fn restore_places_the_entry_at_the_root() {
    assert_eq!(
        plan_restore(&layout(), "n_5.md", false, false, false, false, false),
        Err(VaultError::NotFound)
    );
    assert_eq!(
        plan_restore(&layout(), "n_5.md", true, true, true, false, false),
        Err(VaultError::AlreadyExists)
    );
    let plain = plan_restore(&layout(), "n_5.md", true, false, false, true, false).unwrap();
    assert_eq!(
        plain,
        vec![
            s(FsAction::Rename(p("/v/.trash/n_5.md"), p("/v/notes/n.md")), false),
            s(FsAction::Rename(p("/v/.trash/n_5.md.assets"), p("/v/assets/n")), true),
        ]
    );
    let prefixed = plan_restore(&layout(), "n_5.md", true, true, false, true, true).unwrap();
    assert_eq!(
        prefixed,
        vec![
            s(FsAction::Rename(p("/v/.trash/n_5.md"), p("/v/notes/restored_n.md")), false),
            s(FsAction::RemoveDirAll(p("/v/assets/restored_n")), true),
            s(FsAction::Rename(p("/v/.trash/n_5.md.assets"), p("/v/assets/restored_n")), true),
        ]
    );
}

#[test]
fn purge_removes_entry_and_satellite() {
    assert_eq!(
        plan_purge(&layout(), "n_5.md", true, false, true),
        vec![
            s(FsAction::RemoveFile(p("/v/.trash/n_5.md")), false),
            s(FsAction::RemoveDirAll(p("/v/.trash/n_5.md.assets")), true),
        ]
    );
    assert_eq!(
        plan_purge(&layout(), "f_5", true, true, false),
        vec![s(FsAction::RemoveDirAll(p("/v/.trash/f_5")), false)]
    );
    assert_eq!(plan_purge(&layout(), "gone", false, false, false), vec![]);
}

#[test]
fn empty_trash_recreates_the_directory() {
    assert_eq!(
        plan_empty_trash(&layout(), true),
        vec![
            s(FsAction::RemoveDirAll(p("/v/.trash")), false),
            s(FsAction::CreateDirAll(p("/v/.trash")), false),
        ]
    );
    assert_eq!(plan_empty_trash(&layout(), false), vec![]);
}

#[test]
fn attachment_goes_into_the_note_asset_folder() {
    let (steps, path) = plan_save_attachment(&layout(), "a/n", "img.png", vec![1, 2, 3]);
    assert_eq!(path, "/v/assets/a/n/img.png");
    assert_eq!(
        steps,
        vec![
            s(FsAction::CreateDirAll(p("/v/assets/a/n")), false),
            s(FsAction::WriteBytes(p("/v/assets/a/n/img.png"), vec![1, 2, 3]), false),
        ]
    );
}

#[test]
fn layout_paths() {
    let l = layout();
    assert_eq!(l.note_file_path("a/b"), "/v/notes/a/b.md");
    assert_eq!(l.item_path_of("a", true), "/v/notes/a");
    assert_eq!(l.asset_dir_of("a/b"), "/v/assets/a/b");
    assert_eq!(l.trash_path_of("x_1.md"), "/v/.trash/x_1.md");
}

#[test]
fn error_messages_are_readable() {
    assert_eq!(VaultError::NotFound.message(), "not found");
    assert_eq!(VaultError::Io(p("disk full")).message(), "disk full");
}
