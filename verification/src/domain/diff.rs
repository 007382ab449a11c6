//! Comparing a fresh listing with the stored one: what to upload, what to delete.

use crate::domain::index::{entries, FileEntry, IndexedFile};
use crate::utils::text::{lemma_filter_all, lemma_filter_member, lemma_filter_none, lemma_filter_step, texts};
use vstd::hash_map::StringHashMap;
use vstd::hash_set::StringHashSet;
use vstd::prelude::*;

verus! {

/// The work that brings a target in line with the source.
pub struct Diff {
    /// New or modified files, in the order of the fresh listing.
    pub to_upload: Vec<IndexedFile>,
    /// Paths that the source no longer holds, in the order of the stored listing.
    pub to_delete: Vec<String>,
}

/// What `previous` records under `path`: its last entry with that path.
pub open spec fn recorded(previous: Seq<FileEntry>, path: Seq<char>) -> Option<FileEntry>
    decreases previous.len(),
{
    if previous.len() == 0 {
        None
    } else if previous.last().path == path {
        Some(previous.last())
    } else {
        recorded(previous.drop_last(), path)
    }
}

/// Whether some file of the listing has this path.
pub open spec fn has_path(files: Seq<FileEntry>, path: Seq<char>) -> bool {
    exists|i: int| 0 <= i < files.len() && #[trigger] files[i].path == path
}

/// Whether `previous` records `f` with the size and modification time it has now.
pub open spec fn unchanged(f: FileEntry, previous: Seq<FileEntry>) -> bool {
    recorded(previous, f.path) == Some(f)
}

/// The files to upload: those of `local` that `previous` does not record as they are.
pub open spec fn uploads(local: Seq<FileEntry>, previous: Seq<FileEntry>) -> Seq<FileEntry> {
    local.filter(|f: FileEntry| !unchanged(f, previous))
}

/// The entries of `previous` whose path `local` no longer holds.
pub open spec fn dropped(local: Seq<FileEntry>, previous: Seq<FileEntry>) -> Seq<FileEntry> {
    previous.filter(|p: FileEntry| !has_path(local, p.path))
}

/// The paths to delete: those of the entries of `previous` that `local` no longer holds.
pub open spec fn deletions(local: Seq<FileEntry>, previous: Seq<FileEntry>) -> Seq<Seq<char>> {
    dropped(local, previous).map_values(|p: FileEntry| p.path)
}

/// Whether equal paths mean equal entries: the path is the key of the listing.
pub open spec fn path_is_key(files: Seq<FileEntry>) -> bool {
    forall|i: int, j: int|
        0 <= i < files.len() && 0 <= j < files.len() && #[trigger] files[i].path
            == #[trigger] files[j].path ==> files[i] == files[j]
}

/// Whether no path occurs in both listings.
pub open spec fn disjoint_paths(a: Seq<FileEntry>, b: Seq<FileEntry>) -> bool {
    forall|i: int, j: int|
        0 <= i < a.len() && 0 <= j < b.len() ==> #[trigger] a[i].path != #[trigger] b[j].path
}

/// The lookup table built from a listing: each path with the size and
/// modification time of the last entry that has it.
pub open spec fn lookup_table(files: Seq<FileEntry>) -> Map<Seq<char>, (u64, i64)>
    decreases files.len(),
{
    if files.len() == 0 {
        Map::empty()
    } else {
        lookup_table(files.drop_last()).insert(
            files.last().path,
            (files.last().size, files.last().mtime),
        )
    }
}

/// The paths of a listing.
pub open spec fn path_set(files: Seq<FileEntry>) -> Set<Seq<char>>
    decreases files.len(),
{
    if files.len() == 0 {
        Set::empty()
    } else {
        path_set(files.drop_last()).insert(files.last().path)
    }
}

/// What is recorded under a path is an entry of the listing with that path,
/// behind which no other entry has it; nothing is recorded exactly when no
/// entry has the path.
pub proof fn lemma_recorded(previous: Seq<FileEntry>, path: Seq<char>)
    ensures
        match recorded(previous, path) {
            Some(p) => exists|j: int|
                0 <= j < previous.len() && #[trigger] previous[j] == p && p.path == path && forall|
                    k: int,
                | j < k < previous.len() ==> (#[trigger] previous[k]).path != path,
            None => !has_path(previous, path),
        },
    decreases previous.len(),
{
    if previous.len() == 0 {
    } else if previous.last().path == path {
        assert(previous[previous.len() - 1] == previous.last());
    } else {
        let front = previous.drop_last();
        lemma_recorded(front, path);
        match recorded(front, path) {
            Some(p) => {
                let j = choose|j: int|
                    0 <= j < front.len() && #[trigger] front[j] == p && p.path == path && forall|
                        k: int,
                    | j < k < front.len() ==> (#[trigger] front[k]).path != path;
                assert(previous[j] == p);
                assert forall|k: int| j < k < previous.len() implies (
                #[trigger] previous[k]).path != path by {
                    if k < front.len() {
                        assert(front[k] == previous[k]);
                    }
                }
            },
            None => {
                if has_path(previous, path) {
                    let i = choose|i: int|
                        0 <= i < previous.len() && #[trigger] previous[i].path == path;
                    assert(front[i].path == path);
                }
            },
        }
    }
}

/// The lookup table holds under each path what the listing records under it.
pub proof fn lemma_lookup_table(previous: Seq<FileEntry>, path: Seq<char>)
    ensures
        match recorded(previous, path) {
            Some(p) => lookup_table(previous).contains_key(path) && lookup_table(previous)[path]
                == (p.size, p.mtime),
            None => !lookup_table(previous).contains_key(path),
        },
    decreases previous.len(),
{
    if previous.len() > 0 {
        lemma_lookup_table(previous.drop_last(), path);
    }
}

/// The path set holds a path exactly when some entry of the listing has it.
pub proof fn lemma_path_set(files: Seq<FileEntry>, path: Seq<char>)
    ensures
        path_set(files).contains(path) <==> has_path(files, path),
    decreases files.len(),
{
    if files.len() > 0 {
        let front = files.drop_last();
        lemma_path_set(front, path);
        if has_path(front, path) {
            let i = choose|i: int| 0 <= i < front.len() && #[trigger] front[i].path == path;
            assert(files[i].path == path);
        }
        if files.last().path == path {
            assert(files[files.len() - 1].path == path);
        }
        if has_path(files, path) && files.last().path != path {
            let i = choose|i: int| 0 <= i < files.len() && #[trigger] files[i].path == path;
            assert(front[i].path == path);
        }
    }
}

/// Compares the fresh listing `local` with the stored listing `previous`.
///
/// A file of `local` is uploaded unless `previous` records it under its path
/// with the same size and modification time; new and modified files are not
/// told apart. A path of `previous` is deleted when no file of `local` has it.
/// Contents are never looked at.
pub fn compute_diff(local: &[IndexedFile], previous: &[IndexedFile]) -> (r: Diff)
    ensures
        entries(r.to_upload@) == uploads(entries(local@), entries(previous@)),
        texts(r.to_delete@) == deletions(entries(local@), entries(previous@)),
{
    let ghost loc = entries(local@);
    let ghost prev = entries(previous@);
    let mut prev_map: StringHashMap<(u64, i64)> = StringHashMap::new();
    let mut i: usize = 0;
    assert(prev.take(0) =~= Seq::<FileEntry>::empty());
    while i < previous.len()
        invariant
            i <= previous.len(),
            prev == entries(previous@),
            prev_map@ == lookup_table(prev.take(i as int)),
        decreases previous.len() - i,
    {
        let f = &previous[i];
        prev_map.insert(f.path.clone(), (f.size, f.mtime));
        proof {
            assert(prev.take(i + 1).drop_last() =~= prev.take(i as int));
            assert(prev.take(i + 1).last() == f@);
        }
        i += 1;
    }
    assert(prev.take(previous.len() as int) =~= prev);

    let ghost keep = |f: FileEntry| !unchanged(f, prev);
    let mut to_upload: Vec<IndexedFile> = Vec::new();
    let mut i: usize = 0;
    proof {
        assert(loc.take(0) =~= Seq::<FileEntry>::empty());
        lemma_filter_none(loc.take(0), keep);
        assert(entries(to_upload@) =~= Seq::<FileEntry>::empty());
    }
    while i < local.len()
        invariant
            i <= local.len(),
            loc == entries(local@),
            prev_map@ == lookup_table(prev),
            keep == (|f: FileEntry| !unchanged(f, prev)),
            entries(to_upload@) == loc.take(i as int).filter(keep),
        decreases local.len() - i,
    {
        let lf = &local[i];
        let ghost before = entries(to_upload@);
        proof {
            lemma_lookup_table(prev, lf.path@);
            lemma_filter_step(loc, keep, i as int);
        }
        let same = match prev_map.get(lf.path.as_str()) {
            Some(v) => v.0 == lf.size && v.1 == lf.mtime,
            None => false,
        };
        proof {
            lemma_recorded(prev, lf.path@);
            assert(same == unchanged(lf@, prev));
        }
        if !same {
            to_upload.push(lf.clone());
            assert(entries(to_upload@) =~= before.push(lf@));
        }
        i += 1;
    }
    assert(loc.take(local.len() as int) =~= loc);

    let mut local_set: StringHashSet = StringHashSet::new();
    let mut i: usize = 0;
    while i < local.len()
        invariant
            i <= local.len(),
            loc == entries(local@),
            local_set@ == path_set(loc.take(i as int)),
        decreases local.len() - i,
    {
        local_set.insert(local[i].path.clone());
        proof {
            assert(loc.take(i + 1).drop_last() =~= loc.take(i as int));
            assert(loc.take(i + 1).last() == local[i as int]@);
        }
        i += 1;
    }

    let ghost gone = |p: FileEntry| !has_path(loc, p.path);
    let ghost name = |p: FileEntry| p.path;
    let mut to_delete: Vec<String> = Vec::new();
    let mut i: usize = 0;
    proof {
        lemma_filter_none(prev.take(0), gone);
        assert(texts(to_delete@) =~= prev.take(0).filter(gone).map_values(name));
    }
    while i < previous.len()
        invariant
            i <= previous.len(),
            prev == entries(previous@),
            local_set@ == path_set(loc),
            gone == (|p: FileEntry| !has_path(loc, p.path)),
            name == (|p: FileEntry| p.path),
            texts(to_delete@) == prev.take(i as int).filter(gone).map_values(name),
        decreases previous.len() - i,
    {
        let pf = &previous[i];
        let ghost before = texts(to_delete@);
        proof {
            lemma_path_set(loc, pf.path@);
            lemma_filter_step(prev, gone, i as int);
        }
        if !local_set.contains(pf.path.as_str()) {
            to_delete.push(pf.path.clone());
            proof {
                assert(texts(to_delete@) =~= before.push(pf.path@));
                assert(prev.take(i as int).filter(gone).push(pf@).map_values(name) =~= before.push(
                    pf.path@,
                ));
            }
        }
        i += 1;
    }
    assert(prev.take(previous.len() as int) =~= prev);
    Diff { to_upload, to_delete }
}

/// Comparing a listing with itself finds no work, where the path is its key.
pub proof fn lemma_diff_of_equal_listings(x: Seq<FileEntry>)
    requires
        path_is_key(x),
    ensures
        uploads(x, x) == Seq::<FileEntry>::empty(),
        deletions(x, x) == Seq::<Seq<char>>::empty(),
{
    let keep = |f: FileEntry| !unchanged(f, x);
    assert forall|i: int| 0 <= i < x.len() implies !keep(#[trigger] x[i]) by {
        lemma_recorded(x, x[i].path);
        assert(has_path(x, x[i].path));
    }
    lemma_filter_none(x, keep);
    let gone = |p: FileEntry| !has_path(x, p.path);
    assert forall|i: int| 0 <= i < x.len() implies !gone(#[trigger] x[i]) by {
        assert(has_path(x, x[i].path));
    }
    lemma_filter_none(x, gone);
    assert(deletions(x, x) =~= Seq::<Seq<char>>::empty());
}

/// Where no path occurs in both listings, every fresh file is uploaded and
/// every stored path is deleted.
pub proof fn lemma_diff_of_disjoint_listings(local: Seq<FileEntry>, previous: Seq<FileEntry>)
    requires
        disjoint_paths(local, previous),
    ensures
        uploads(local, previous) == local,
        deletions(local, previous) == previous.map_values(|p: FileEntry| p.path),
{
    let keep = |f: FileEntry| !unchanged(f, previous);
    assert forall|i: int| 0 <= i < local.len() implies keep(#[trigger] local[i]) by {
        lemma_recorded(previous, local[i].path);
        if recorded(previous, local[i].path) is Some {
            let p = recorded(previous, local[i].path)->0;
            let j = choose|j: int|
                0 <= j < previous.len() && #[trigger] previous[j] == p && p.path == local[i].path;
            assert(local[i].path != previous[j].path);
        }
    }
    lemma_filter_all(local, keep);
    let gone = |p: FileEntry| !has_path(local, p.path);
    assert forall|j: int| 0 <= j < previous.len() implies gone(#[trigger] previous[j]) by {
        if has_path(local, previous[j].path) {
            let i = choose|i: int| 0 <= i < local.len() && #[trigger] local[i].path == previous[j].path;
            assert(local[i].path != previous[j].path);
        }
    }
    lemma_filter_all(previous, gone);
}

/// A file of the fresh listing is uploaded exactly when the stored listing
/// does not record it, under its path, with the size and modification time it
/// has now; and its path is never deleted.
pub proof fn lemma_diff_of_listed_file(
    local: Seq<FileEntry>,
    previous: Seq<FileEntry>,
    f: FileEntry,
)
    requires
        local.contains(f),
    ensures
        uploads(local, previous).contains(f) <==> recorded(previous, f.path) != Some(f),
        !deletions(local, previous).contains(f.path),
{
    let keep = |x: FileEntry| !unchanged(x, previous);
    lemma_filter_member(local, keep, f);
    let gone = |p: FileEntry| !has_path(local, p.path);
    let del = deletions(local, previous);
    if del.contains(f.path) {
        let i = choose|i: int| 0 <= i < del.len() && del[i] == f.path;
        let p = dropped(local, previous)[i];
        assert(dropped(local, previous).contains(p));
        lemma_filter_member(previous, gone, p);
        let k = choose|k: int| 0 <= k < local.len() && local[k] == f;
        assert(local[k].path == p.path);
        assert(has_path(local, p.path));
    }
}

/// A file that stands in both listings with the same size and modification
/// time is neither uploaded nor deleted, where the path is the key of the
/// stored listing.
pub proof fn lemma_unchanged_file_is_left_alone(
    local: Seq<FileEntry>,
    previous: Seq<FileEntry>,
    f: FileEntry,
)
    requires
        local.contains(f),
        previous.contains(f),
        path_is_key(previous),
    ensures
        !uploads(local, previous).contains(f),
        !deletions(local, previous).contains(f.path),
{
    lemma_diff_of_listed_file(local, previous, f);
    lemma_recorded(previous, f.path);
    let j = choose|j: int| 0 <= j < previous.len() && previous[j] == f;
    assert(previous[j].path == f.path);
    assert(has_path(previous, f.path));
}

/// A file of the fresh listing whose path the stored listing holds with
/// another size or modification time is uploaded, where the path is the key
/// of the stored listing.
pub proof fn lemma_modified_file_is_uploaded(
    local: Seq<FileEntry>,
    previous: Seq<FileEntry>,
    f: FileEntry,
    g: FileEntry,
)
    requires
        local.contains(f),
        previous.contains(g),
        g.path == f.path,
        g.size != f.size || g.mtime != f.mtime,
        path_is_key(previous),
    ensures
        uploads(local, previous).contains(f),
{
    lemma_diff_of_listed_file(local, previous, f);
    lemma_recorded(previous, f.path);
    let j = choose|j: int| 0 <= j < previous.len() && previous[j] == g;
    assert(previous[j].path == f.path);
}

} // verus!
