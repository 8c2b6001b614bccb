use projector::entities::{DirEntry, Directory, EntryType, File};

fn file(name: &str) -> File {
    File { name: name.to_string(), content: None }
}

fn dir(name: &str, files: Option<Vec<File>>, directories: Option<Vec<Directory>>) -> Directory {
    Directory { name: name.to_string(), files, directories }
}

fn entry(entry_type: EntryType, path: &str) -> DirEntry {
    DirEntry::new(entry_type, path.to_string())
}

#[test]
fn test_child_files() {
    let dir = Directory {
        name: "test_dir".to_string(),
        directories: None,
        files: Some(vec![File { name: "file.rs".to_string(), content: None }]),
    };
    let fname = dir.child_files_names();
    assert_eq!(vec!["file.rs".to_string()], fname);
}

#[test]
fn test_get_child_names() {
    let dir = Directory {
        name: "test_dir".to_string(),
        directories: Some(vec![Directory {
            name: "test".to_string(),
            directories: None,
            files: None,
        }]),
        files: Some(vec![File { name: "file.rs".to_string(), content: None }]),
    };
    let ch = dir.children_names();
    assert_eq!(vec!["test".to_string(), "file.rs".to_string()], ch);
}

#[test]
fn walk_dir() {
    let dir = Directory {
        name: "td".to_string(),
        directories: Some(vec![
            Directory {
                name: "td_td0".to_string(),
                directories: Some(vec![Directory {
                    name: "td0_1".to_string(),
                    directories: None,
                    files: Some(vec![File {
                        name: "test_file.rs".to_string(),
                        content: Some("main.tmpl".to_owned()),
                    }]),
                }]),
                files: None,
            },
            Directory {
                name: "td_td1".to_string(),
                directories: Some(vec![Directory {
                    name: "td1_1".to_string(),
                    directories: None,
                    files: None,
                }]),
                files: None,
            },
            Directory {
                name: "td_td2".to_string(),
                directories: Some(vec![
                    Directory { name: String::from("td2_0"), directories: None, files: None },
                    Directory { name: String::from("td2_1"), directories: None, files: None },
                ]),
                files: None,
            },
        ]),
        files: Some(vec![File { name: ".gitignore".to_string(), content: None }]),
    };
    let got = dir.walk();
    let want = vec![
        DirEntry::new(EntryType::File, String::from("td/td_td0/td0_1/test_file.rs")),
        DirEntry::new(EntryType::Directory, String::from("td/td_td1/td1_1")),
        DirEntry::new(EntryType::Directory, String::from("td/td_td2/td2_0")),
        DirEntry::new(EntryType::Directory, String::from("td/td_td2/td2_1")),
        DirEntry::new(EntryType::File, String::from("td/.gitignore")),
    ];

    assert_eq!(want, got);
}

#[test]
fn walk_nested_file_is_joined_from_the_root() {
    let root = dir("app", None, Some(vec![dir("src", Some(vec![file("main.ext")]), None)]));
    assert_eq!(root.walk(), vec![entry(EntryType::File, "app/src/main.ext")]);
}

#[test]
fn walk_lists_subdirectories_before_own_files() {
    let root = dir(
        "proj",
        Some(vec![file("readme.md")]),
        Some(vec![dir("empty_dir", None, None)]),
    );
    assert_eq!(
        root.walk(),
        vec![entry(EntryType::Directory, "proj/empty_dir"), entry(EntryType::File, "proj/readme.md")]
    );
}

#[test]
fn walk_leaf_directory_is_its_own_entry() {
    let root = dir("lonely", None, None);
    assert_eq!(root.walk(), vec![entry(EntryType::Directory, "lonely")]);
}

#[test]
fn walk_treats_empty_lists_as_childless() {
    let root = dir("top", Some(vec![]), Some(vec![dir("inner", Some(vec![]), Some(vec![]))]));
    assert_eq!(root.walk(), vec![entry(EntryType::Directory, "top/inner")]);
    let bare = dir("bare", Some(vec![]), Some(vec![]));
    assert_eq!(bare.walk(), vec![entry(EntryType::Directory, "bare")]);
}

#[test]
fn walk_files_only_prefixes_each_once() {
    let root = dir("d", Some(vec![file("a"), file("b")]), None);
    assert_eq!(root.walk(), vec![entry(EntryType::File, "d/a"), entry(EntryType::File, "d/b")]);
}

#[test]
fn walk_twice_gives_the_same_list() {
    let root = dir(
        "r",
        Some(vec![file("x")]),
        Some(vec![dir("a", None, None), dir("b", Some(vec![file("y")]), None)]),
    );
    assert_eq!(root.walk(), root.walk());
}

#[test]
fn entry_tags_are_told_apart() {
    let f = entry(EntryType::File, "a/b");
    let d = entry(EntryType::Directory, "a");
    let u = entry(EntryType::Unknown, "?");
    assert!(f.is_file() && !f.is_dir());
    assert!(d.is_dir() && !d.is_file());
    assert!(!u.is_dir() && !u.is_file());
    assert_eq!(f.full_path, "a/b");
    assert_eq!(f.entry_type, EntryType::File);
}

#[test]
fn child_names_of_bare_directory_are_empty() {
    let root = dir("bare", None, None);
    assert!(root.children_names().is_empty());
    assert!(root.child_dirs_names().is_empty());
    assert!(root.child_files_names().is_empty());
}

#[test]
fn child_dirs_names_keep_order() {
    let root = dir("r", None, Some(vec![dir("z", None, None), dir("a", None, None)]));
    assert_eq!(root.child_dirs_names(), vec!["z".to_string(), "a".to_string()]);
}

#[test]
fn every_file_and_every_leaf_has_one_entry() {
    let root = dir(
        "r",
        Some(vec![file("same"), file("same")]),
        Some(vec![
            dir("a", Some(vec![file("x")]), Some(vec![dir("deep", None, None)])),
            dir("a", None, None),
            dir("mid", None, Some(vec![dir("l1", None, None), dir("l2", Some(vec![]), None)])),
        ]),
    );
    let got = root.walk();
    let want = vec![
        entry(EntryType::Directory, "r/a/deep"),
        entry(EntryType::File, "r/a/x"),
        entry(EntryType::Directory, "r/a"),
        entry(EntryType::Directory, "r/mid/l1"),
        entry(EntryType::Directory, "r/mid/l2"),
        entry(EntryType::File, "r/same"),
        entry(EntryType::File, "r/same"),
    ];
    assert_eq!(got, want);
    assert_eq!(got.iter().filter(|e| e.is_file()).count(), 3);
    assert_eq!(got.iter().filter(|e| e.is_dir()).count(), 4);
    assert!(got.iter().all(|e| e.full_path != "r" && e.full_path != "r/mid"));
}

#[test]
fn file_is_shown_by_its_name() {
    let f = File { name: "main.rs".to_string(), content: Some("main.tmpl".to_string()) };
    assert_eq!(f.to_string(), "main.rs");
}
