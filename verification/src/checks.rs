//! Detection of filesystem entries whose names are not valid text.
//!
//! The caller lists a directory tree and hands it in as [`FsEntry`] values:
//! each entry carries its full path (as the byte string the operating system
//! reports), whether its final name component decodes as valid text, and,
//! for a directory, the listed entries below it. [`check_tree`] walks the
//! tree depth-first in listing order and collects the paths of all entries
//! whose names are not valid text.

use vstd::prelude::*;

verus! {

/// One entry of a listed directory tree.
///
/// `path` is the entry's full path as reported by the operating system;
/// `name_is_text` says whether the final name component of that path
/// decodes as valid text; `children` is `Some` exactly when the entry is
/// itself a directory, and then holds its immediate entries in listing
/// order.
pub struct FsEntry {
    pub path: Vec<u8>,
    pub name_is_text: bool,
    pub children: Option<Vec<FsEntry>>,
}

/// The paths of the invalid-named entries in `entry`'s subtree, in
/// depth-first pre-order: the entry's own path first (if its name is not
/// valid text), then those of its children's subtrees in listing order.
pub open spec fn entry_invalid_paths(entry: FsEntry) -> Seq<Seq<u8>>
    decreases entry,
{
    let own: Seq<Seq<u8>> = if entry.name_is_text {
        Seq::empty()
    } else {
        seq![entry.path@]
    };
    match entry.children {
        None => own,
        Some(cs) => own + entries_invalid_paths(cs, cs.len() as int),
    }
}

/// The invalid-named paths collected from the subtrees of the first `n`
/// entries of `entries`, in order.
pub open spec fn entries_invalid_paths(entries: Vec<FsEntry>, n: int) -> Seq<Seq<u8>>
    recommends
        n <= entries.len(),
    decreases entries, n,
{
    if n <= 0 || n > entries.len() {
        Seq::empty()
    } else {
        entries_invalid_paths(entries, n - 1) + entry_invalid_paths(entries[n - 1])
    }
}

/// The result of scanning a whole tree, given as the root directory's
/// listing.
pub open spec fn scan_invalid_paths(entries: Vec<FsEntry>) -> Seq<Seq<u8>> {
    entries_invalid_paths(entries, entries.len() as int)
}

/// Every name in `entry`'s subtree, its own included, is valid text.
pub open spec fn entry_all_valid(entry: FsEntry) -> bool
    decreases entry,
{
    &&& entry.name_is_text
    &&& match entry.children {
        None => true,
        Some(cs) => entries_all_valid(cs, cs.len() as int),
    }
}

/// Every name in the subtrees of the first `n` entries is valid text.
pub open spec fn entries_all_valid(entries: Vec<FsEntry>, n: int) -> bool
    recommends
        n <= entries.len(),
    decreases entries, n,
{
    if n <= 0 || n > entries.len() {
        true
    } else {
        entries_all_valid(entries, n - 1) && entry_all_valid(entries[n - 1])
    }
}

/// How many entries of `entry`'s subtree, itself included, have a name
/// that is not valid text.
pub open spec fn entry_invalid_count(entry: FsEntry) -> nat
    decreases entry,
{
    (if entry.name_is_text {
        0nat
    } else {
        1nat
    }) + match entry.children {
        None => 0nat,
        Some(cs) => entries_invalid_count(cs, cs.len() as int),
    }
}

/// How many entries in the subtrees of the first `n` entries have a name
/// that is not valid text.
pub open spec fn entries_invalid_count(entries: Vec<FsEntry>, n: int) -> nat
    recommends
        n <= entries.len(),
    decreases entries, n,
{
    if n <= 0 || n > entries.len() {
        0nat
    } else {
        entries_invalid_count(entries, n - 1) + entry_invalid_count(entries[n - 1])
    }
}

/// Some entry of `entry`'s subtree, itself included, has an invalid name
/// and the path `p`.
pub open spec fn entry_has_invalid(entry: FsEntry, p: Seq<u8>) -> bool
    decreases entry,
{
    ||| (!entry.name_is_text && entry.path@ == p)
    ||| match entry.children {
        None => false,
        Some(cs) => entries_has_invalid(cs, cs.len() as int, p),
    }
}

/// Some entry in the subtrees of the first `n` entries has an invalid
/// name and the path `p`.
pub open spec fn entries_has_invalid(entries: Vec<FsEntry>, n: int, p: Seq<u8>) -> bool
    recommends
        n <= entries.len(),
    decreases entries, n,
{
    &&& 0 < n <= entries.len()
    &&& (entries_has_invalid(entries, n - 1, p) || entry_has_invalid(entries[n - 1], p))
}

/// The scan reports one path per invalid-named entry of the subtree.
pub proof fn lemma_entry_len_is_count(entry: FsEntry)
    ensures
        entry_invalid_paths(entry).len() == entry_invalid_count(entry),
    decreases entry,
{
    match entry.children {
        None => {}
        Some(cs) => {
            lemma_entries_len_is_count(cs, cs.len() as int);
        }
    }
}

/// The scan reports one path per invalid-named entry among the first `n`
/// entries' subtrees.
pub proof fn lemma_entries_len_is_count(entries: Vec<FsEntry>, n: int)
    ensures
        entries_invalid_paths(entries, n).len() == entries_invalid_count(entries, n),
    decreases entries, n,
{
    if 0 < n <= entries.len() {
        lemma_entries_len_is_count(entries, n - 1);
        lemma_entry_len_is_count(entries[n - 1]);
    }
}

proof fn lemma_add_contains(a: Seq<Seq<u8>>, b: Seq<Seq<u8>>, p: Seq<u8>)
    ensures
        (a + b).contains(p) <==> (a.contains(p) || b.contains(p)),
{
    if a.contains(p) {
        let i = choose|i: int| 0 <= i < a.len() && a[i] == p;
        assert((a + b)[i] == p);
    }
    if b.contains(p) {
        let i = choose|i: int| 0 <= i < b.len() && b[i] == p;
        assert((a + b)[a.len() + i] == p);
    }
    if (a + b).contains(p) {
        let i = choose|i: int| 0 <= i < (a + b).len() && (a + b)[i] == p;
        if i < a.len() {
            assert(a[i] == p);
        } else {
            assert(b[i - a.len()] == p);
        }
    }
}

/// The scan reports the path `p` exactly when some entry of the subtree
/// has an invalid name and that path.
pub proof fn lemma_entry_contains(entry: FsEntry, p: Seq<u8>)
    ensures
        entry_invalid_paths(entry).contains(p) <==> entry_has_invalid(entry, p),
    decreases entry,
{
    let own: Seq<Seq<u8>> = if entry.name_is_text {
        Seq::empty()
    } else {
        seq![entry.path@]
    };
    if !entry.name_is_text {
        assert(own[0] == entry.path@);
        assert(own.contains(p) <==> entry.path@ == p);
    }
    match entry.children {
        None => {
            assert(entry_invalid_paths(entry) == own);
        }
        Some(cs) => {
            lemma_entries_contains(cs, cs.len() as int, p);
            lemma_add_contains(own, entries_invalid_paths(cs, cs.len() as int), p);
        }
    }
}

/// The scan of the first `n` entries' subtrees reports the path `p`
/// exactly when one of those subtrees holds an invalid-named entry with
/// that path.
pub proof fn lemma_entries_contains(entries: Vec<FsEntry>, n: int, p: Seq<u8>)
    ensures
        entries_invalid_paths(entries, n).contains(p) <==> entries_has_invalid(entries, n, p),
    decreases entries, n,
{
    if 0 < n <= entries.len() {
        lemma_entries_contains(entries, n - 1, p);
        lemma_entry_contains(entries[n - 1], p);
        lemma_add_contains(
            entries_invalid_paths(entries, n - 1),
            entry_invalid_paths(entries[n - 1]),
            p,
        );
    }
}

/// Valid names throughout a subtree are exactly an invalid count of zero.
pub proof fn lemma_entry_all_valid_iff_count_zero(entry: FsEntry)
    ensures
        entry_all_valid(entry) <==> entry_invalid_count(entry) == 0,
    decreases entry,
{
    match entry.children {
        None => {}
        Some(cs) => {
            lemma_entries_all_valid_iff_count_zero(cs, cs.len() as int);
        }
    }
}

/// Valid names throughout the first `n` entries' subtrees are exactly an
/// invalid count of zero.
pub proof fn lemma_entries_all_valid_iff_count_zero(entries: Vec<FsEntry>, n: int)
    ensures
        entries_all_valid(entries, n) <==> entries_invalid_count(entries, n) == 0,
    decreases entries, n,
{
    if 0 < n <= entries.len() {
        lemma_entries_all_valid_iff_count_zero(entries, n - 1);
        lemma_entry_all_valid_iff_count_zero(entries[n - 1]);
    }
}

/// A scan of a tree in which every entry name is valid text reports
/// nothing.
pub proof fn lemma_scan_no_false_positives(entries: Vec<FsEntry>)
    requires
        entries_all_valid(entries, entries.len() as int),
    ensures
        scan_invalid_paths(entries) == Seq::<Seq<u8>>::empty(),
{
    lemma_entries_all_valid_iff_count_zero(entries, entries.len() as int);
    lemma_entries_len_is_count(entries, entries.len() as int);
    assert(scan_invalid_paths(entries) =~= Seq::<Seq<u8>>::empty());
}

/// A scan of a tree holding exactly one invalid-named entry, whose path
/// is `p`, reports exactly `p`, whatever the tree's depth and listing
/// order.
pub proof fn lemma_scan_single_invalid(entries: Vec<FsEntry>, p: Seq<u8>)
    requires
        entries_invalid_count(entries, entries.len() as int) == 1,
        entries_has_invalid(entries, entries.len() as int, p),
    ensures
        scan_invalid_paths(entries) == seq![p],
{
    lemma_entries_len_is_count(entries, entries.len() as int);
    lemma_entries_contains(entries, entries.len() as int, p);
    let s = scan_invalid_paths(entries);
    let i = choose|i: int| 0 <= i < s.len() && s[i] == p;
    assert(s =~= seq![p]);
}

fn collect_invalid(entry: &FsEntry, out: &mut Vec<Vec<u8>>)
    ensures
        final(out).deep_view() == old(out).deep_view() + entry_invalid_paths(*entry),
    decreases *entry,
{
    let ghost base = out.deep_view();
    if !entry.name_is_text {
        let p = entry.path.clone();
        proof {
            assert(p@ =~= entry.path@);
            assert(p.deep_view() =~= entry.path@);
        }
        out.push(p);
        proof {
            assert(out.deep_view() =~= base + seq![entry.path@]);
        }
    }
    let ghost own = out.deep_view();
    match &entry.children {
        None => {}
        Some(cs) => {
            let n = cs.len();
            let mut i: usize = 0;
            while i < n
                invariant
                    i <= n,
                    n == cs.len(),
                    entry.children == Some(*cs),
                    out.deep_view() == own + entries_invalid_paths(*cs, i as int),
                decreases n - i,
            {
                proof {
                    assert(*cs == entry.children->Some_0);
                    assert(decreases_to!(*entry => entry.children->Some_0));
                    assert(decreases_to!(*cs => cs[i as int]));
                }
                collect_invalid(&cs[i], out);
                i += 1;
            }
        }
    }
}

/// Walk the listed tree and return the paths of all entries whose final
/// name component is not valid text, in depth-first pre-order.
pub fn check_tree(entries: &Vec<FsEntry>) -> (invalid: Vec<Vec<u8>>)
    ensures
        invalid.deep_view() == scan_invalid_paths(*entries),
{
    let mut out: Vec<Vec<u8>> = Vec::new();
    let n = entries.len();
    let mut i: usize = 0;
    while i < n
        invariant
            i <= n,
            n == entries.len(),
            out.deep_view() == entries_invalid_paths(*entries, i as int),
        decreases n - i,
    {
        collect_invalid(&entries[i], &mut out);
        i += 1;
    }
    out
}

} // verus!
