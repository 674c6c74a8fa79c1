use plexutil::checks::{check_tree, FsEntry};

fn file(path: &str, name_is_text: bool) -> FsEntry {
    FsEntry { path: path.as_bytes().to_vec(), name_is_text, children: None }
}

fn dir(path: &str, name_is_text: bool, children: Vec<FsEntry>) -> FsEntry {
    FsEntry { path: path.as_bytes().to_vec(), name_is_text, children: Some(children) }
}

#[test]
fn test_check() {
    // a tree with exactly one entry whose name is not valid text,
    // nested below the root among valid entries
    let tree = vec![
        dir(
            "test_data/sub",
            true,
            vec![file("test_data/sub/bad_name", false), file("test_data/sub/ok.txt", true)],
        ),
        file("test_data/readme.txt", true),
        dir("test_data/utf", true, vec![file("test_data/utf/fine.txt", true)]),
    ];

    let invalid_paths = check_tree(&tree);
    assert_eq!(invalid_paths.len(), 1);
    assert_eq!(invalid_paths[0], "test_data/sub/bad_name".as_bytes().to_vec());

    println!("invalid paths found: {:?}", invalid_paths);
}

// make sure that when given a folder with only valid
// paths we dont return a false positive
#[test]
fn test_only_valid() {
    let tree = vec![
        file("test_data/utf/a.txt", true),
        dir("test_data/utf/nested", true, vec![file("test_data/utf/nested/b.txt", true)]),
    ];
    let ip = check_tree(&tree);
    assert_eq!(ip.len(), 0);
}

#[test]
fn test_empty_tree() {
    let tree: Vec<FsEntry> = Vec::new();
    assert_eq!(check_tree(&tree).len(), 0);
}

#[test]
fn test_invalid_dir_is_descended() {
    // a directory whose own name is invalid is still descended into,
    // and both it and the invalid entry below it are reported, in
    // depth-first pre-order
    let tree = vec![dir(
        "root/bad_dir",
        false,
        vec![file("root/bad_dir/inner_bad", false), file("root/bad_dir/inner_ok", true)],
    )];
    let invalid = check_tree(&tree);
    assert_eq!(invalid.len(), 2);
    assert_eq!(invalid[0], "root/bad_dir".as_bytes().to_vec());
    assert_eq!(invalid[1], "root/bad_dir/inner_bad".as_bytes().to_vec());
}
