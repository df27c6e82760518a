use fstree::aggregate::calculate_directory_size;
use fstree::builder::make_tree;
use fstree::builder::DirEntry;
use fstree::builder::DirListing;
use fstree::builder::EntryKind;
use fstree::item::find_directory;
use fstree::item::DirectoryItem;
use fstree::item::FileItem;
use fstree::item::FileSystemItem;
use fstree::json::get_json;
use fstree::report::scan_report;

fn empty_dir(name: &str, path: &str) -> DirectoryItem {
    DirectoryItem {
        name: name.to_string(),
        fullpath: path.to_string(),
        children: Vec::new(),
        size: 0,
    }
}

fn file_entry(name: &str, size: u64) -> DirEntry {
    DirEntry {
        name: name.to_string(),
        kind: EntryKind::File(size),
    }
}

fn dir_entry(name: &str, entries: Vec<DirEntry>) -> DirEntry {
    DirEntry {
        name: name.to_string(),
        kind: EntryKind::Dir(DirListing::Entries(entries)),
    }
}

#[test]
fn no_selection_short_circuit() {
    let out = scan_report("", &DirListing::Unreadable);
    assert_eq!(out, "");
    let out = scan_report("", &DirListing::Entries(vec![file_entry("f.txt", 3)]));
    assert_eq!(out, "");
}

#[test]
fn acyclic_shape() {
    let listing = DirListing::Entries(vec![
        dir_entry("a", vec![]),
        dir_entry("b", vec![]),
        file_entry("f.txt", 10),
    ]);
    let mut root = empty_dir("top", "top");
    make_tree(&mut root, &listing);
    let total = calculate_directory_size(&mut root);
    assert_eq!(total, 10);
    assert_eq!(root.size, 10);
    assert_eq!(root.children.len(), 3);
    match &root.children[0] {
        FileSystemItem::DirectoryItem(d) => {
            assert_eq!(d.name, "a");
            assert_eq!(d.size, 0);
            assert!(d.children.is_empty());
        }
        _ => panic!("first child should be a directory"),
    }
    match &root.children[1] {
        FileSystemItem::DirectoryItem(d) => {
            assert_eq!(d.name, "b");
            assert_eq!(d.size, 0);
            assert!(d.children.is_empty());
        }
        _ => panic!("second child should be a directory"),
    }
    match &root.children[2] {
        FileSystemItem::FileItem(f) => {
            assert_eq!(f.name, "f.txt");
            assert_eq!(f.size, 10);
        }
        _ => panic!("third child should be a file"),
    }
}

fn collect_sizes(item: &FileSystemItem, out: &mut Vec<u64>) {
    match item {
        FileSystemItem::FileItem(f) => out.push(f.size),
        FileSystemItem::DirectoryItem(d) => collect_dir_sizes(d, out),
    }
}

fn collect_dir_sizes(d: &DirectoryItem, out: &mut Vec<u64>) {
    out.push(d.size);
    for c in &d.children {
        collect_sizes(c, out);
    }
}

#[test]
fn aggregation_idempotent() {
    let listing = DirListing::Entries(vec![
        dir_entry(
            "d1",
            vec![file_entry("f1", 5), dir_entry("d2", vec![file_entry("f2", 7)])],
        ),
        file_entry("f3", 11),
    ]);
    let mut root = empty_dir("r", "r");
    make_tree(&mut root, &listing);
    let first_total = calculate_directory_size(&mut root);
    let mut first_sizes = Vec::new();
    collect_dir_sizes(&root, &mut first_sizes);
    let second_total = calculate_directory_size(&mut root);
    let mut second_sizes = Vec::new();
    collect_dir_sizes(&root, &mut second_sizes);
    assert_eq!(first_total, second_total);
    assert_eq!(first_sizes, second_sizes);
}

#[test]
fn size_correctness() {
    let listing = DirListing::Entries(vec![
        dir_entry(
            "d1",
            vec![file_entry("f1", 5), dir_entry("d2", vec![file_entry("f2", 7)])],
        ),
        file_entry("f3", 11),
    ]);
    let mut root = empty_dir("r", "r");
    make_tree(&mut root, &listing);
    let total = calculate_directory_size(&mut root);
    assert_eq!(total, 23);
    assert_eq!(root.size, 23);
    match &root.children[0] {
        FileSystemItem::DirectoryItem(d1) => {
            assert_eq!(d1.size, 12);
            match &d1.children[1] {
                FileSystemItem::DirectoryItem(d2) => assert_eq!(d2.size, 7),
                _ => panic!("d2 should be a directory"),
            }
        }
        _ => panic!("d1 should be a directory"),
    }
    let whole = FileSystemItem::DirectoryItem(root);
    assert_eq!(whole.size(), 23);
}

#[test]
fn path_derivation() {
    let listing = DirListing::Entries(vec![
        file_entry("a.txt", 1),
        dir_entry("sub", vec![file_entry("inner.txt", 2)]),
    ]);
    let mut root = empty_dir("C:\\root", "C:\\root");
    make_tree(&mut root, &listing);
    match &root.children[0] {
        FileSystemItem::FileItem(f) => {
            assert_eq!(f.name, "a.txt");
            assert_eq!(f.fullpath, "C:\\root\\a.txt");
        }
        _ => panic!("expected a file"),
    }
    match &root.children[1] {
        FileSystemItem::DirectoryItem(d) => {
            assert_eq!(d.name, "sub");
            assert_eq!(d.fullpath, "C:\\root\\sub");
            match &d.children[0] {
                FileSystemItem::FileItem(f) => {
                    assert_eq!(f.fullpath, "C:\\root\\sub\\inner.txt");
                }
                _ => panic!("expected a file"),
            }
        }
        _ => panic!("expected a directory"),
    }
}

#[test]
fn symlink_skip() {
    let listing = DirListing::Entries(vec![
        file_entry("f", 1),
        DirEntry {
            name: "link".to_string(),
            kind: EntryKind::Other,
        },
        dir_entry("d", vec![]),
    ]);
    let mut root = empty_dir("r", "r");
    make_tree(&mut root, &listing);
    assert_eq!(root.children.len(), 2);
    match &root.children[0] {
        FileSystemItem::FileItem(f) => assert_eq!(f.name, "f"),
        _ => panic!("expected the file first"),
    }
    match &root.children[1] {
        FileSystemItem::DirectoryItem(d) => assert_eq!(d.name, "d"),
        _ => panic!("expected the directory second"),
    }
}

#[test]
fn soft_failure_isolation() {
    let listing = DirListing::Entries(vec![
        DirEntry {
            name: "bad".to_string(),
            kind: EntryKind::Dir(DirListing::Unreadable),
        },
        dir_entry("good", vec![file_entry("f", 10)]),
    ]);
    let mut root = empty_dir("r", "r");
    make_tree(&mut root, &listing);
    let total = calculate_directory_size(&mut root);
    assert_eq!(total, 10);
    assert_eq!(root.children.len(), 2);
    match &root.children[0] {
        FileSystemItem::DirectoryItem(d) => {
            assert_eq!(d.name, "bad");
            assert!(d.children.is_empty());
            assert_eq!(d.size, 0);
        }
        _ => panic!("expected the unreadable directory"),
    }
    match &root.children[1] {
        FileSystemItem::DirectoryItem(d) => {
            assert_eq!(d.name, "good");
            assert_eq!(d.children.len(), 1);
            assert_eq!(d.size, 10);
        }
        _ => panic!("expected the readable sibling"),
    }
}

#[test]
fn find_directory_matches() {
    let listing = DirListing::Entries(vec![
        file_entry("sub", 1),
        dir_entry("sub", vec![file_entry("x", 2)]),
    ]);
    let mut root = empty_dir("r", "r");
    make_tree(&mut root, &listing);
    let whole = FileSystemItem::DirectoryItem(root);
    let found = find_directory(&whole, "sub").expect("should find the directory");
    match found {
        FileSystemItem::DirectoryItem(d) => {
            assert_eq!(d.name, "sub");
            assert_eq!(d.children.len(), 1);
        }
        _ => panic!("a file must never match"),
    }
    assert!(find_directory(&whole, "x").is_none());
    assert!(find_directory(&whole, "missing").is_none());
}

#[test]
fn json_exact_small_tree() {
    let root = DirectoryItem {
        name: "r".to_string(),
        fullpath: "r".to_string(),
        children: vec![FileSystemItem::FileItem(FileItem {
            name: "a".to_string(),
            fullpath: "r\\a".to_string(),
            size: 10,
        })],
        size: 10,
    };
    let json = get_json(&root);
    let expected = "{\n  \"name\": \"r\",\n  \"path\": \"r\",\n  \"children\": [\n    {\n      \"name\": \"a\",\n      \"path\": \"r\\\\a\",\n      \"size\": 10\n    }\n  ],\n  \"size\": 10\n}";
    assert_eq!(json, expected);
}

#[test]
fn json_empty_children() {
    let root = empty_dir("r", "r");
    let json = get_json(&root);
    let expected = "{\n  \"name\": \"r\",\n  \"path\": \"r\",\n  \"children\": [],\n  \"size\": 0\n}";
    assert_eq!(json, expected);
}
