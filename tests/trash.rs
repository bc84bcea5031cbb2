use note_vault::trash::{
    is_satellite, last_segment_of, list_trash, logical_name_of, restore_target_name,
    restored_name_of, satellite_name, trash_entry_name, push_decimal,
};
use note_vault::tree::DirEntryInfo;

#[test]
fn trash_names_carry_stem_seconds_and_extension() {
    assert_eq!(trash_entry_name("folder/note", false, 1700000000), "note_1700000000.md");
    assert_eq!(trash_entry_name("a/b", true, 7), "b_7");
    assert_eq!(trash_entry_name("top", false, 0), "top_0.md");
}

#[test]
fn decimal_digits_are_written_in_order() {
    let mut s = String::from("n=");
    push_decimal(&mut s, 18446744073709551615);
    assert_eq!(s, "n=18446744073709551615");
}

#[test]
fn last_segment_is_after_the_last_slash() {
    assert_eq!(last_segment_of("a/b/c"), "c");
    assert_eq!(last_segment_of("c"), "c");
}

#[test]
fn restored_name_drops_the_timestamp() {
    assert_eq!(restored_name_of("note_1700000000.md"), "note.md");
    assert_eq!(restored_name_of("my_note_12.md"), "my_note.md");
    assert_eq!(restored_name_of("v1.2_5.md"), "v1.2.md");
    assert_eq!(restored_name_of("b_7"), "b");
    assert_eq!(restored_name_of("plain"), "plain");
}

#[test]
fn delete_then_restore_names_round_trip() {
    let e = trash_entry_name("deep/path/my_note", false, 99);
    assert_eq!(restored_name_of(&e), "my_note.md");
    let d = trash_entry_name("x/folder.v2", true, 99);
    assert_eq!(restored_name_of(&d), "folder.v2");
}

#[test]
fn taken_restore_name_gets_the_prefix() {
    assert_eq!(restore_target_name("note_5.md", false), "note.md");
    assert_eq!(restore_target_name("note_5.md", true), "restored_note.md");
    assert_eq!(logical_name_of("restored_note.md"), "restored_note");
    assert_eq!(logical_name_of("folder"), "folder");
}

#[test]
fn same_second_deletes_collide() {
    assert_eq!(trash_entry_name("a/n", false, 42), trash_entry_name("a/n", false, 42));
    assert_eq!(trash_entry_name("a/n", false, 42), trash_entry_name("b/n", false, 42));
    assert_ne!(trash_entry_name("a/n", false, 42), trash_entry_name("a/n", false, 43));
}

#[test]
fn satellites_are_named_and_recognised() {
    assert_eq!(satellite_name("n_1.md"), "n_1.md.assets");
    assert!(is_satellite("n_1.md.assets"));
    assert!(!is_satellite("n_1.md"));
}

#[test]
fn listing_leaves_satellites_out() {
    let entries = vec![
        DirEntryInfo { name: "a_1.md".to_string(), is_dir: false },
        DirEntryInfo { name: "a_1.md.assets".to_string(), is_dir: true },
        DirEntryInfo { name: "f_2".to_string(), is_dir: true },
    ];
    let items = list_trash(&entries);
    assert_eq!(items.len(), 2);
    assert_eq!(items[0].name, "a_1.md");
    assert_eq!(items[0].path, "a_1.md");
    assert!(!items[0].is_dir);
    assert_eq!(items[1].name, "f_2");
    assert!(items[1].is_dir);
}
