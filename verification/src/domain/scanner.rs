//! From the entries found below a directory to the listing of its files.

use crate::domain::index::{entries, FileEntry, IndexedFile};
use crate::utils::paths::{opt_path, strip_prefix, stripped};
use crate::utils::text::{lemma_filter_none, lemma_filter_step, replace_all, replaced};
use vstd::prelude::*;

verus! {

/// What the file system tells of a file.
#[derive(Debug, Clone, Copy, PartialEq, Eq, Structural)]
pub struct FileMeta {
    /// The size in bytes.
    pub size: u64,
    /// The time of the last modification, in whole seconds since the epoch.
    pub modified_secs: u64,
}

/// One entry found while walking a directory tree.
#[derive(Debug)]
pub struct WalkEntry {
    /// The path of the entry, the walked directory included.
    pub path: String,
    /// Whether the entry is a regular file.
    pub is_file: bool,
    /// What the file system tells of it; `None` where it could not be read.
    pub meta: Option<FileMeta>,
}

/// An entry as contracts see it.
pub struct WalkSpec {
    pub path: Seq<char>,
    pub is_file: bool,
    pub meta: Option<FileMeta>,
}

impl View for WalkEntry {
    type V = WalkSpec;

    open spec fn view(&self) -> WalkSpec {
        WalkSpec { path: self.path@, is_file: self.is_file, meta: self.meta }
    }
}

/// The entries that a sequence of entry values stands for.
pub open spec fn walk_specs(found: Seq<WalkEntry>) -> Seq<WalkSpec> {
    found.map_values(|e: WalkEntry| e@)
}

/// Why a walk gives no listing.
#[derive(Debug, Clone, Copy, PartialEq, Eq, Structural)]
pub enum ScanError {
    /// A file was found that does not lie below the walked directory.
    OutsideRoot,
}

/// Whether an entry is listed: regular files that could be read are;
/// directories are not, and what could not be read is passed over.
pub open spec fn is_listed(e: WalkSpec) -> bool {
    e.is_file && e.meta is Some
}

/// Whether an entry lies below `root`.
pub open spec fn lies_below(root: Seq<char>, e: WalkSpec) -> bool {
    stripped(e.path, root) is Some
}

/// The listing entry of a file found below `root`: its path from `root` on
/// with `separator` replaced by a slash, its size, and its modification time.
pub open spec fn listed_file(root: Seq<char>, separator: Seq<char>, e: WalkSpec) -> FileEntry {
    FileEntry {
        path: replaced(stripped(e.path, root)->0, separator, "/"@),
        size: e.meta->0.size,
        mtime: e.meta->0.modified_secs as i64,
    }
}

/// The files of a walk: its listed entries, in the order they were found.
pub open spec fn files_found(
    root: Seq<char>,
    separator: Seq<char>,
    found: Seq<WalkSpec>,
) -> Seq<FileEntry> {
    found.filter(|e: WalkSpec| is_listed(e)).map_values(
        |e: WalkSpec| listed_file(root, separator, e),
    )
}

/// Whether every listed entry of the walk lies below `root`.
pub open spec fn all_below(root: Seq<char>, found: Seq<WalkSpec>) -> bool {
    forall|i: int| 0 <= i < found.len() && is_listed(#[trigger] found[i]) ==> lies_below(root, found[i])
}

/// Turns what a walk below `root` found into the listing of the files there.
///
/// Every regular file that could be read is listed with its path relative
/// to `root`, in which the platform's path separator `separator` is replaced
/// by a slash. Directories are not listed, and entries that could not be read
/// are passed over. The order is that of the walk. The walk is refused when
/// a listed file does not lie below `root`.
pub fn scan_local(root: &str, separator: &str, found: &Vec<WalkEntry>) -> (r: Result<
    Vec<IndexedFile>,
    ScanError,
>)
    ensures
        match r {
            Ok(files) => all_below(root@, walk_specs(found@)) && entries(files@) == files_found(
                root@,
                separator@,
                walk_specs(found@),
            ),
            Err(e) => e == ScanError::OutsideRoot && !all_below(root@, walk_specs(found@)),
        },
{
    let ghost all = walk_specs(found@);
    let ghost keep = |e: WalkSpec| is_listed(e);
    let ghost make = |e: WalkSpec| listed_file(root@, separator@, e);
    let mut out: Vec<IndexedFile> = Vec::new();
    let mut i: usize = 0;
    proof {
        lemma_filter_none(all.take(0), keep);
        assert(entries(out@) =~= all.take(0).filter(keep).map_values(make));
    }
    while i < found.len()
        invariant
            i <= found.len(),
            all == walk_specs(found@),
            keep == (|e: WalkSpec| is_listed(e)),
            make == (|e: WalkSpec| listed_file(root@, separator@, e)),
            forall|k: int| 0 <= k < i && is_listed(#[trigger] all[k]) ==> lies_below(root@, all[k]),
            entries(out@) == all.take(i as int).filter(keep).map_values(make),
        decreases found.len() - i,
    {
        let entry = &found[i];
        let ghost before = entries(out@);
        proof {
            lemma_filter_step(all, keep, i as int);
        }
        if entry.is_file {
            match entry.meta {
                Some(meta) => {
                    let rel = match strip_prefix(entry.path.as_str(), root) {
                        Some(rel) => rel,
                        None => {
                            assert(is_listed(all[i as int]) && !lies_below(root@, all[i as int]));
                            return Err(ScanError::OutsideRoot);
                        },
                    };
                    let file = IndexedFile {
                        path: replace_all(rel.as_str(), separator, "/"),
                        size: meta.size,
                        mtime: #[verifier::truncate] (meta.modified_secs as i64),
                    };
                    proof {
                        assert(file@ == listed_file(root@, separator@, entry@));
                    }
                    out.push(file);
                    proof {
                        assert(entries(out@) =~= before.push(make(entry@)));
                        assert(all.take(i as int).filter(keep).push(entry@).map_values(make)
                            =~= before.push(make(entry@)));
                    }
                },
                None => {},
            }
        }
        i += 1;
    }
    assert(all.take(found.len() as int) =~= all);
    Ok(out)
}

} // verus!
