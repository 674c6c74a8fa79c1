//! Media-file classification and the folderize path computation.

use vstd::prelude::*;

verus! {

/// The byte `'.'`, the separator before a file name's extension.
pub const DOT: u8 = 46;

/// The index of the last `'.'` byte of `name` at an index below `upto`,
/// or `-1` when there is none.
pub open spec fn last_dot(name: Seq<u8>, upto: int) -> int
    decreases upto,
{
    if upto <= 0 {
        -1
    } else if name[upto - 1] == DOT {
        upto - 1
    } else {
        last_dot(name, upto - 1)
    }
}

/// The extension of a file name: the portion after the last `'.'`.
///
/// A name with no `'.'`, or whose only `'.'` is its leading byte (a hidden
/// file such as `.config`), has no extension. A name ending in `'.'` has
/// the empty extension.
pub open spec fn extension_of(name: Seq<u8>) -> Option<Seq<u8>> {
    let j = last_dot(name, name.len() as int);
    if j <= 0 {
        None
    } else {
        Some(name.subrange(j + 1, name.len() as int))
    }
}

/// ASCII-only case folding of one byte: `'A'..='Z'` is mapped to its
/// lower-case counterpart, every other byte is unchanged. Letters outside
/// ASCII are deliberately not folded.
pub open spec fn lower_byte(b: u8) -> u8 {
    if 65 <= b && b <= 90 {
        (b + 32) as u8
    } else {
        b
    }
}

/// ASCII-only case folding of a byte string.
pub open spec fn ascii_lower(s: Seq<u8>) -> Seq<u8> {
    s.map_values(|b: u8| lower_byte(b))
}

/// The fixed allow-list of media-file extensions, compared after ASCII
/// case folding.
pub open spec fn allowed_ext(e: Seq<u8>) -> bool {
    ||| e == seq![109u8, 107u8, 118u8]  // mkv
    ||| e == seq![97u8, 115u8, 102u8]  // asf
    ||| e == seq![97u8, 118u8, 105u8]  // avi
    ||| e == seq![109u8, 111u8, 118u8]  // mov
    ||| e == seq![109u8, 112u8, 52u8]  // mp4
    ||| e == seq![109u8, 112u8, 101u8, 103u8]  // mpeg
    ||| e == seq![109u8, 112u8, 101u8, 103u8, 116u8, 115u8]  // mpegts
    ||| e == seq![119u8, 109u8, 118u8]  // wmv
}

/// A file name is a media-file name when it has an extension and that
/// extension, ASCII-lower-cased, is on the allow-list.
pub open spec fn is_media_name(name: Seq<u8>) -> bool {
    match extension_of(name) {
        Some(e) => allowed_ext(ascii_lower(e)),
        None => false,
    }
}

/// The index of the last `'.'` of `name`, or `None` when there is none.
fn last_dot_index(name: &Vec<u8>) -> (j: Option<usize>)
    ensures
        match j {
            Some(v) => v < name@.len() && last_dot(name@, name@.len() as int) == v as int,
            None => last_dot(name@, name@.len() as int) == -1,
        },
{
    let mut i: usize = name.len();
    while i > 0
        invariant
            i <= name@.len(),
            last_dot(name@, name@.len() as int) == last_dot(name@, i as int),
        decreases i,
    {
        if name[i - 1] == DOT {
            return Some(i - 1);
        }
        i -= 1;
    }
    None
}

fn bytes_eq(a: &Vec<u8>, b: &Vec<u8>) -> (r: bool)
    ensures
        r == (a@ == b@),
{
    if a.len() != b.len() {
        return false;
    }
    let mut i: usize = 0;
    while i < a.len()
        invariant
            i <= a@.len(),
            a@.len() == b@.len(),
            forall|k: int| 0 <= k < i ==> a@[k] == b@[k],
        decreases a@.len() - i,
    {
        if a[i] != b[i] {
            return false;
        }
        i += 1;
    }
    proof {
        assert(a@ =~= b@);
    }
    true
}

fn is_allowed_ext(ext: &Vec<u8>) -> (r: bool)
    ensures
        r == allowed_ext(ext@),
{
    let mkv: Vec<u8> = vec![109u8, 107u8, 118u8];
    let asf: Vec<u8> = vec![97u8, 115u8, 102u8];
    let avi: Vec<u8> = vec![97u8, 118u8, 105u8];
    let mov: Vec<u8> = vec![109u8, 111u8, 118u8];
    let mp4: Vec<u8> = vec![109u8, 112u8, 52u8];
    let mpeg: Vec<u8> = vec![109u8, 112u8, 101u8, 103u8];
    let mpegts: Vec<u8> = vec![109u8, 112u8, 101u8, 103u8, 116u8, 115u8];
    let wmv: Vec<u8> = vec![119u8, 109u8, 118u8];
    bytes_eq(ext, &mkv) || bytes_eq(ext, &asf) || bytes_eq(ext, &avi) || bytes_eq(ext, &mov)
        || bytes_eq(ext, &mp4) || bytes_eq(ext, &mpeg) || bytes_eq(ext, &mpegts) || bytes_eq(
        ext,
        &wmv,
    )
}

/// Decide whether the file name `name` (a path's final component, as the
/// byte string the operating system reports) names a recognized media
/// file: true exactly when the name's extension, ASCII-lower-cased, is on
/// the fixed allow-list. A name with no extension is never a media file.
pub fn is_media_file(name: &Vec<u8>) -> (r: bool)
    ensures
        r == is_media_name(name@),
{
    match last_dot_index(name) {
        None => false,
        Some(j) => {
            if j == 0 {
                false
            } else {
                let n = name.len();
                let mut ext: Vec<u8> = Vec::new();
                let mut k = j + 1;
                while k < n
                    invariant
                        j + 1 <= k <= n,
                        n == name@.len(),
                        ext@ =~= ascii_lower(name@.subrange(j + 1, k as int)),
                    decreases n - k,
                {
                    ext.push(lower_byte_exec(name[k]));
                    proof {
                        assert(name@.subrange(j + 1, k + 1) =~= name@.subrange(
                            j + 1,
                            k as int,
                        ).push(name@[k as int]));
                        assert(ext@ =~= ascii_lower(name@.subrange(j + 1, k + 1)));
                    }
                    k += 1;
                }
                proof {
                    assert(name@.subrange(j + 1, n as int) == extension_of(name@)->Some_0);
                }
                is_allowed_ext(&ext)
            }
        }
    }
}

fn lower_byte_exec(b: u8) -> (r: u8)
    ensures
        r == lower_byte(b),
{
    if 65 <= b && b <= 90 {
        b + 32
    } else {
        b
    }
}

/// One entry of a listed directory: its full path, its name (the final
/// component of that path), and whether it is a regular file. Both byte
/// strings are as the operating system reports them.
pub struct ListedEntry {
    pub path: Vec<u8>,
    pub name: Vec<u8>,
    pub is_file: bool,
}

/// What a path refers to, as the caller found it on the filesystem: a
/// regular file (with the path and its final name component), a directory
/// (with its immediate entries in listing order), or anything else —
/// nonexistent included.
pub enum FsNode {
    File { path: Vec<u8>, name: Vec<u8> },
    Dir { entries: Vec<ListedEntry> },
    Other,
}

/// The paths of the media files among the first `n` listed entries: the
/// regular files whose names pass the extension check, in listing order.
pub open spec fn media_paths_upto(entries: Seq<ListedEntry>, n: int) -> Seq<Seq<u8>>
    recommends
        n <= entries.len(),
    decreases n,
{
    if n <= 0 || n > entries.len() {
        Seq::empty()
    } else {
        let prev = media_paths_upto(entries, n - 1);
        let e = entries[n - 1];
        if e.is_file && is_media_name(e.name@) {
            prev + seq![e.path@]
        } else {
            prev
        }
    }
}

/// What listing the media files of a path yields: the path itself when it
/// is a media file, the matching entries of its listing when it is a
/// directory, and nothing otherwise.
pub open spec fn node_media_paths(node: FsNode) -> Seq<Seq<u8>> {
    match node {
        FsNode::File { path, name } => if is_media_name(name@) {
            seq![path@]
        } else {
            Seq::empty()
        },
        FsNode::Dir { entries } => media_paths_upto(entries@, entries@.len() as int),
        FsNode::Other => Seq::empty(),
    }
}

/// Return the paths of the media files the given path holds: the path
/// itself when it refers to a media file; the media files among a
/// directory's immediate entries, in listing order; nothing when the path
/// refers to anything else.
pub fn list_media_files(node: &FsNode) -> (media: Vec<Vec<u8>>)
    ensures
        media.deep_view() == node_media_paths(*node),
{
    let mut out: Vec<Vec<u8>> = Vec::new();
    match node {
        FsNode::File { path, name } => {
            if is_media_file(name) {
                let p = path.clone();
                proof {
                    assert(p.deep_view() =~= path@);
                }
                out.push(p);
                proof {
                    assert(out.deep_view() =~= seq![path@]);
                }
            }
        },
        FsNode::Dir { entries } => {
            let n = entries.len();
            let mut i: usize = 0;
            while i < n
                invariant
                    i <= n,
                    n == entries@.len(),
                    out.deep_view() == media_paths_upto(entries@, i as int),
                decreases n - i,
            {
                let ghost prev = out.deep_view();
                let e = &entries[i];
                if e.is_file && is_media_file(&e.name) {
                    let p = e.path.clone();
                    proof {
                        assert(p.deep_view() =~= e.path@);
                    }
                    out.push(p);
                    proof {
                        assert(out.deep_view() =~= prev + seq![e.path@]);
                    }
                }
                i += 1;
            }
        },
        FsNode::Other => {},
    }
    out
}

/// The byte `'/'`, the separator between path components.
pub const SLASH: u8 = 47;

/// A file name with its extension suffix removed: the whole name when it
/// has no extension, else the portion before the last `'.'`.
pub open spec fn stem_of(name: Seq<u8>) -> Seq<u8> {
    let j = last_dot(name, name.len() as int);
    if j <= 0 {
        name
    } else {
        name.subrange(0, j)
    }
}

/// The directory a file is folderized into: the file's path with the
/// name's extension suffix removed.
pub open spec fn folderize_target(path: Seq<u8>, name: Seq<u8>) -> Seq<u8>
    recommends
        name.len() <= path.len(),
{
    path.subrange(0, path.len() - name.len()) + stem_of(name)
}

/// The path a folderized file is moved to: the target directory joined
/// with the file's original full name, extension retained.
pub open spec fn folderize_new_path(path: Seq<u8>, name: Seq<u8>) -> Seq<u8>
    recommends
        name.len() <= path.len(),
{
    folderize_target(path, name) + seq![SLASH] + name
}

/// Where a folderized file goes: the directory to create, and the path
/// the file is then renamed to. The caller performs the two filesystem
/// steps, in that order, and aborts — leaving the file in place — when
/// creating the directory fails because an entry of that name already
/// exists.
pub struct FolderizePlan {
    pub target_dir: Vec<u8>,
    pub new_path: Vec<u8>,
}

/// Compute where the file at `path`, whose final name component is
/// `name`, is folderized to: a sibling directory named after the file's
/// stem, and the file's new path inside it.
pub fn folderize(path: &Vec<u8>, name: &Vec<u8>) -> (plan: FolderizePlan)
    requires
        name@.len() > 0,
        name@.len() <= path@.len(),
        path@.subrange(path@.len() - name@.len(), path@.len() as int) == name@,
        forall|k: int| 0 <= k < name@.len() ==> name@[k] != SLASH,
    ensures
        plan.target_dir@ == folderize_target(path@, name@),
        plan.new_path@ == folderize_new_path(path@, name@),
{
    let cut = path.len() - name.len();
    let stem_len: usize = match last_dot_index(name) {
        Some(j) if j > 0 => j,
        _ => name.len(),
    };
    let mut target_dir: Vec<u8> = Vec::new();
    let mut i: usize = 0;
    while i < cut
        invariant
            i <= cut <= path@.len(),
            target_dir@ =~= path@.subrange(0, i as int),
        decreases cut - i,
    {
        target_dir.push(path[i]);
        proof {
            assert(target_dir@ =~= path@.subrange(0, i + 1));
        }
        i += 1;
    }
    let mut k: usize = 0;
    while k < stem_len
        invariant
            k <= stem_len <= name@.len(),
            cut <= path@.len(),
            target_dir@ =~= path@.subrange(0, cut as int) + name@.subrange(0, k as int),
        decreases stem_len - k,
    {
        target_dir.push(name[k]);
        proof {
            assert(target_dir@ =~= path@.subrange(0, cut as int) + name@.subrange(0, k + 1));
        }
        k += 1;
    }
    let mut new_path: Vec<u8> = target_dir.clone();
    proof {
        assert(new_path@ =~= target_dir@);
    }
    new_path.push(SLASH);
    let mut m: usize = 0;
    while m < name.len()
        invariant
            m <= name@.len(),
            new_path@ =~= target_dir@ + seq![SLASH] + name@.subrange(0, m as int),
        decreases name@.len() - m,
    {
        new_path.push(name[m]);
        proof {
            assert(new_path@ =~= target_dir@ + seq![SLASH] + name@.subrange(0, m + 1));
        }
        m += 1;
    }
    proof {
        assert(target_dir@ =~= folderize_target(path@, name@));
        assert(name@.subrange(0, name@.len() as int) =~= name@);
        assert(new_path@ =~= folderize_new_path(path@, name@));
    }
    FolderizePlan { target_dir, new_path }
}

} // verus!


