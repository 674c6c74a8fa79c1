use plexutil::media_mover::{folderize, is_media_file, list_media_files, FsNode, ListedEntry};

fn bytes(s: &str) -> Vec<u8> {
    s.as_bytes().to_vec()
}

fn entry(dir: &str, name: &str, is_file: bool) -> ListedEntry {
    ListedEntry {
        path: bytes(&format!("{}/{}", dir, name)),
        name: bytes(name),
        is_file,
    }
}

#[test]
fn test_known_extensions() {
    for ext in ["mkv", "asf", "avi", "mov", "mp4", "mpeg", "mpegts", "wmv"] {
        let name = bytes(&format!("movie.{}", ext));
        assert!(is_media_file(&name), "expected media: {}", ext);
    }
}

#[test]
fn test_extensions_fold_ascii_case() {
    assert!(is_media_file(&bytes("MOVIE.MKV")));
    assert!(is_media_file(&bytes("movie.Mp4")));
    assert!(is_media_file(&bytes("movie.MpEgTs")));
}

#[test]
fn test_non_media_extensions() {
    assert!(!is_media_file(&bytes("notes.txt")));
    assert!(!is_media_file(&bytes("movie.mkv.bak")));
    assert!(!is_media_file(&bytes("archive.mpg")));
}

#[test]
fn test_no_extension() {
    assert!(!is_media_file(&bytes("movie")));
    assert!(!is_media_file(&bytes("")));
    // a leading dot starts a hidden name, not an extension
    assert!(!is_media_file(&bytes(".mp4")));
    // a trailing dot gives the empty extension
    assert!(!is_media_file(&bytes("movie.")));
}

#[test]
fn test_no_unicode_case_folding() {
    // the Kelvin sign lower-cases to 'k' in Unicode, but folding is
    // ASCII-only, so this is not "mkv"
    assert!(!is_media_file(&bytes("a.m\u{212A}v")));
}

#[test]
fn test_single_file_media() {
    let node = FsNode::File { path: bytes("shows/pilot.mp4"), name: bytes("pilot.mp4") };
    let media = list_media_files(&node);
    assert_eq!(media, vec![bytes("shows/pilot.mp4")]);
}

#[test]
fn test_single_file_not_media() {
    let node = FsNode::File { path: bytes("shows/notes.txt"), name: bytes("notes.txt") };
    assert_eq!(list_media_files(&node).len(), 0);
}

#[test]
fn test_nonexistent_path() {
    assert_eq!(list_media_files(&FsNode::Other).len(), 0);
}

#[test]
fn test_directory_listing() {
    let node = FsNode::Dir {
        entries: vec![
            entry("d", "one.mkv", true),
            entry("d", "skip.txt", true),
            // a directory named like a media file is not listed
            entry("d", "folder.mp4", false),
            entry("d", "two.AVI", true),
        ],
    };
    let media = list_media_files(&node);
    assert_eq!(media, vec![bytes("d/one.mkv"), bytes("d/two.AVI")]);
}

// test to make sure that the whole thing works
// when its put together
#[test]
fn test_move() {
    let exts = ["mkv", "asf", "avi", "mov", "mp4", "mpeg", "mpegts", "wmv", "mp4", "mkv"];

    let mut files: Vec<(Vec<u8>, Vec<u8>)> = Vec::new();
    let mut entries: Vec<ListedEntry> = Vec::new();
    for (i, ext) in exts.iter().enumerate() {
        let name = format!("clip{}.{}", i, ext);
        files.push((bytes(&format!("tmp/clip{}.{}", i, ext)), bytes(&name)));
        entries.push(entry("tmp", &name, true));
    }
    assert_eq!(files.len(), 10);

    // run our function
    let media = list_media_files(&FsNode::Dir { entries });
    assert_eq!(media.len(), 10);
    let listed: Vec<&Vec<u8>> = media.iter().collect();
    for (path, _) in &files {
        assert!(listed.contains(&path));
    }

    // compute the expected new locations of the files after they have
    // been moved
    for (i, (path, name)) in files.iter().enumerate() {
        let plan = folderize(path, name);
        let stem = format!("tmp/clip{}", i);
        assert_eq!(plan.target_dir, bytes(&stem));
        assert_eq!(plan.new_path, bytes(&format!("{}/{}", stem, String::from_utf8(name.clone()).unwrap())));
    }
}

#[test]
fn test_folderize_paths() {
    let plan = folderize(&bytes("shows/pilot.mp4"), &bytes("pilot.mp4"));
    assert_eq!(plan.target_dir, bytes("shows/pilot"));
    assert_eq!(plan.new_path, bytes("shows/pilot/pilot.mp4"));
}

#[test]
fn test_folderize_multiple_dots() {
    // only the last extension is stripped
    let plan = folderize(&bytes("d/show.s01.mkv"), &bytes("show.s01.mkv"));
    assert_eq!(plan.target_dir, bytes("d/show.s01"));
    assert_eq!(plan.new_path, bytes("d/show.s01/show.s01.mkv"));
}

#[test]
fn test_folderize_bare_name() {
    // a path that is just a file name gets a sibling directory in the
    // current directory
    let plan = folderize(&bytes("video.wmv"), &bytes("video.wmv"));
    assert_eq!(plan.target_dir, bytes("video"));
    assert_eq!(plan.new_path, bytes("video/video.wmv"));
}
