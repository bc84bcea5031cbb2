use note_vault::assets::{removable_dirs, TreeEntry};
use note_vault::tree::{list_level, name_le_exec, DirEntryInfo};

fn e(name: &str, is_dir: bool) -> DirEntryInfo {
    DirEntryInfo { name: name.to_string(), is_dir }
}

fn t(rel: &str, is_dir: bool) -> TreeEntry {
    TreeEntry { rel: rel.to_string(), is_dir }
}

#[test]
fn level_filters_and_orders_entries() {
    let entries = vec![
        e("b.md", false),
        e("a", true),
        e("assets", true),
        e(".trash", true),
        e(".hidden.md", false),
        e("c.txt", false),
        e("A.md", false),
        e("z", true),
    ];
    let nodes = list_level("", &entries);
    let shown: Vec<(String, String, bool)> =
        nodes.iter().map(|n| (n.name.clone(), n.path.clone(), n.is_dir)).collect();
    assert_eq!(
        shown,
        vec![
            ("a".to_string(), "a".to_string(), true),
            ("z".to_string(), "z".to_string(), true),
            ("A".to_string(), "A".to_string(), false),
            ("b".to_string(), "b".to_string(), false),
        ]
    );
    assert!(nodes.iter().all(|n| n.children.is_empty()));
}

#[test]
fn nested_level_paths_carry_ancestry() {
    let nodes = list_level("x/y", &vec![e("note.md", false), e("sub", true)]);
    assert_eq!(nodes[0].path, "x/y/sub");
    assert_eq!(nodes[1].name, "note");
    assert_eq!(nodes[1].path, "x/y/note");
}

#[test]
fn names_compare_by_character_code() {
    assert!(name_le_exec("B", "a"));
    assert!(name_le_exec("ab", "abc"));
    assert!(!name_le_exec("abc", "ab"));
    assert!(name_le_exec("same", "same"));
}

#[test]
fn gc_removes_all_empty_nested_folders() {
    let entries = vec![t("a", true), t("a/b", true), t("a/b/c", true), t("d", true)];
    assert_eq!(removable_dirs(&entries), vec!["d", "a/b/c", "a/b", "a"]);
}

#[test]
fn gc_keeps_the_path_to_a_file() {
    let entries = vec![
        t("a", true),
        t("a/b", true),
        t("a/b/f.png", false),
        t("a/c", true),
        t("ab", true),
        t("d", true),
    ];
    assert_eq!(removable_dirs(&entries), vec!["d", "ab", "a/c"]);
}

#[test]
fn gc_of_an_empty_tree_removes_nothing() {
    assert!(removable_dirs(&vec![]).is_empty());
}
