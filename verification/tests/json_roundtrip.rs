use fstree::aggregate::calculate_directory_size;
use fstree::builder::make_tree;
use fstree::builder::DirEntry;
use fstree::builder::DirListing;
use fstree::builder::EntryKind;
use fstree::item::DirectoryItem;
use fstree::item::FileItem;
use fstree::item::FileSystemItem;
use fstree::json::get_json;
use fstree::render::render_dir_only;
use fstree::render::render_filesystem;
use fstree::report::scan_report;

fn file_entry(name: &str, size: u64) -> DirEntry {
    DirEntry {
        name: name.to_string(),
        kind: EntryKind::File(size),
    }
}

fn dir_entry(name: &str, entries: Vec<DirEntry>) -> DirEntry {
    DirEntry {
        name: name.to_string(),
        kind: EntryKind::Dir(DirListing::Entries(entries)),
    }
}

fn check_node(value: &serde_json::Value, item: &FileSystemItem) {
    let obj = value.as_object().expect("every node is an object");
    match item {
        FileSystemItem::FileItem(f) => {
            assert_eq!(obj.len(), 3);
            assert_eq!(value["name"].as_str().unwrap(), f.name);
            assert_eq!(value["path"].as_str().unwrap(), f.fullpath);
            assert_eq!(value["size"].as_u64().unwrap(), f.size);
            assert!(obj.get("children").is_none());
        }
        FileSystemItem::DirectoryItem(d) => {
            assert_eq!(obj.len(), 4);
            assert_eq!(value["name"].as_str().unwrap(), d.name);
            assert_eq!(value["path"].as_str().unwrap(), d.fullpath);
            assert_eq!(value["size"].as_u64().unwrap(), d.size);
            let children = value["children"].as_array().expect("children is an array");
            assert_eq!(children.len(), d.children.len());
            for (cv, ci) in children.iter().zip(d.children.iter()) {
                check_node(cv, ci);
            }
        }
    }
}

#[test]
fn round_trip_schema() {
    let listing = DirListing::Entries(vec![
        file_entry("plain.txt", 4),
        file_entry("he\"llo", 7),
        file_entry("li\nne\tend", 1),
        dir_entry(
            "sub",
            vec![file_entry("inner", 2), dir_entry("deeper", vec![])],
        ),
    ]);
    let mut root = DirectoryItem {
        name: "top".to_string(),
        fullpath: "top".to_string(),
        children: Vec::new(),
        size: 0,
    };
    make_tree(&mut root, &listing);
    calculate_directory_size(&mut root);
    let json = get_json(&root);
    let value: serde_json::Value = serde_json::from_str(&json).expect("the document parses");
    check_node(&value, &FileSystemItem::DirectoryItem(root));
}

#[test]
fn round_trip_scan_report() {
    let listing = DirListing::Entries(vec![file_entry("f", 3), dir_entry("d", vec![])]);
    let json = scan_report("the\\chosen\\dir", &listing);
    let value: serde_json::Value = serde_json::from_str(&json).expect("the document parses");
    assert_eq!(value["name"].as_str().unwrap(), "the\\chosen\\dir");
    assert_eq!(value["path"].as_str().unwrap(), "the\\chosen\\dir");
    assert_eq!(value["size"].as_u64().unwrap(), 3);
    assert_eq!(value["children"].as_array().unwrap().len(), 2);
}

#[test]
fn escapes_control_and_quote_characters() {
    let root = DirectoryItem {
        name: "a\u{1}b".to_string(),
        fullpath: "say \"hi\"".to_string(),
        children: Vec::new(),
        size: 0,
    };
    let json = get_json(&root);
    assert!(json.contains("a\\u0001b"));
    assert!(json.contains("say \\\"hi\\\""));
    let value: serde_json::Value = serde_json::from_str(&json).expect("the document parses");
    assert_eq!(value["name"].as_str().unwrap(), "a\u{1}b");
    assert_eq!(value["path"].as_str().unwrap(), "say \"hi\"");
}

#[test]
fn largest_size_survives_the_round_trip() {
    let root = DirectoryItem {
        name: "r".to_string(),
        fullpath: "r".to_string(),
        children: vec![FileSystemItem::FileItem(FileItem {
            name: "big".to_string(),
            fullpath: "r\\big".to_string(),
            size: u64::MAX,
        })],
        size: u64::MAX,
    };
    let json = get_json(&root);
    assert!(json.contains("18446744073709551615"));
    let value: serde_json::Value = serde_json::from_str(&json).expect("the document parses");
    assert_eq!(
        value["children"][0]["size"].as_u64().unwrap(),
        u64::MAX
    );
}

#[test]
fn unreadable_root_yields_empty_children() {
    let json = scan_report("p", &DirListing::Unreadable);
    let expected = "{\n  \"name\": \"p\",\n  \"path\": \"p\",\n  \"children\": [],\n  \"size\": 0\n}";
    assert_eq!(json, expected);
}

#[test]
fn display_strings() {
    let file = FileSystemItem::FileItem(FileItem {
        name: "a.txt".to_string(),
        fullpath: "r\\a.txt".to_string(),
        size: 10,
    });
    assert_eq!(file.display_string(), "FileItem: a.txt , 10 ");
    let dir = FileSystemItem::DirectoryItem(DirectoryItem {
        name: "r".to_string(),
        fullpath: "r".to_string(),
        children: vec![file],
        size: 0,
    });
    assert_eq!(dir.display_string(), "DirectoryItem: r , 10, 1");
    assert_eq!(dir.size(), 10);
    assert!(dir.is_directory());
    assert_eq!(dir.name(), "r");
}

#[test]
fn rendered_text() {
    let listing = DirListing::Entries(vec![
        file_entry("a", 10),
        dir_entry("sub", vec![file_entry("b", 5)]),
    ]);
    let mut root = DirectoryItem {
        name: "r".to_string(),
        fullpath: "r".to_string(),
        children: Vec::new(),
        size: 0,
    };
    make_tree(&mut root, &listing);
    calculate_directory_size(&mut root);
    let whole = FileSystemItem::DirectoryItem(root);
    let text = render_filesystem(&whole, 0);
    let expected = "DirectoryItem: r , 15, 2\n  FileItem: a , 10 \n  DirectoryItem: sub , 5, 1\n    FileItem: b , 5 \n";
    assert_eq!(text, expected);
    match &whole {
        FileSystemItem::DirectoryItem(d) => {
            let skeleton = render_dir_only(d, 0);
            assert_eq!(skeleton, "r\n  sub\n");
        }
        _ => unreachable!(),
    }
}

#[test]
fn base_name_splits_on_the_last_separator() {
    let listing = DirListing::Entries(vec![file_entry("odd\\name", 1)]);
    let mut root = DirectoryItem {
        name: "r".to_string(),
        fullpath: "r".to_string(),
        children: Vec::new(),
        size: 0,
    };
    make_tree(&mut root, &listing);
    match &root.children[0] {
        FileSystemItem::FileItem(f) => {
            assert_eq!(f.name, "name");
            assert_eq!(f.fullpath, "r\\name");
        }
        _ => panic!("expected a file"),
    }
}
