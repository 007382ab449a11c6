//! Tests of the plan of one synchronisation and of its run.

use sonik::config::{DeviceConfig, FolderConfig, SyncMode};
use sonik::domain::diff::{compute_diff, Diff};
use sonik::domain::index::{decode_manifest, encode_manifest, Index, IndexError, IndexedFile};
use sonik::domain::task::SyncTask;
use sonik::sync::operations::{delete_batch, upload_batch, SyncStep};
use sonik::sync::run::{compute_sync_stats, sync_folder, sync_folder_at, SyncRun, TEST_WRITE};
use sonik::utils::human::SyncStats;
use std::io::{Read, Seek, SeekFrom, Write};
use std::path::Path;
use tempfile::{NamedTempFile, TempDir};

fn file(path: &str, size: u64, mtime: i64) -> IndexedFile {
    IndexedFile { path: path.to_string(), size, mtime }
}

fn task(index_path: &str) -> SyncTask {
    SyncTask {
        device: DeviceConfig {
            name: "usb".to_string(),
            label: None,
            mount: "/media/usb".to_string(),
            mountinfo: true,
            folders: vec![],
        },
        folder: FolderConfig {
            source: "/srv/music".to_string(),
            target: "Music".to_string(),
            enabled: true,
            mode: None,
        },
        index_path: index_path.to_string(),
        source: "/srv/music".to_string(),
        target: "/media/usb/Music".to_string(),
        mode: SyncMode::Push,
    }
}

/// The steps in short: what is done, and to which path.
fn outline(steps: &[SyncStep]) -> Vec<String> {
    steps
        .iter()
        .map(|s| match s {
            SyncStep::SaveManifest { path, .. } => format!("save {}", path),
            SyncStep::Copy { from, to } => format!("copy {} -> {}", from, to),
            SyncStep::Remove { path } => format!("remove {}", path),
        })
        .collect()
}

fn saved_bytes(step: &SyncStep) -> &[u8] {
    match step {
        SyncStep::SaveManifest { bytes, .. } => bytes,
        other => panic!("expected a manifest to be saved, got {:?}", other),
    }
}

fn rows(files: &[IndexedFile]) -> Vec<(String, u64, i64)> {
    files.iter().map(|f| (f.path.clone(), f.size, f.mtime)).collect()
}

#[test]
fn diff_of_the_worked_example() {
    let local = vec![file("a.txt", 100, 1000), file("b.txt", 200, 2000)];
    let previous = vec![file("a.txt", 100, 1000), file("c.txt", 50, 500)];
    let diff = compute_diff(&local, &previous);
    assert_eq!(rows(&diff.to_upload), vec![("b.txt".to_string(), 200, 2000)]);
    assert_eq!(diff.to_delete, vec!["c.txt"]);
}

#[test]
fn diff_of_a_listing_with_itself_is_empty() {
    let listing = vec![file("a", 1, 1), file("b/c", 2, 2), file("a", 1, 1)];
    let diff = compute_diff(&listing, &listing);
    assert!(diff.to_upload.is_empty());
    assert!(diff.to_delete.is_empty());
}

#[test]
fn diff_of_disjoint_listings_is_everything() {
    let local = vec![file("x", 1, 1), file("y", 2, 2), file("x", 3, 3)];
    let previous = vec![file("p", 1, 1), file("q", 2, 2), file("p", 9, 9)];
    let diff = compute_diff(&local, &previous);
    assert_eq!(rows(&diff.to_upload), rows(&local));
    assert_eq!(diff.to_delete, vec!["p", "q", "p"]);
}

#[test]
fn last_record_of_a_path_counts() {
    let previous = vec![file("a", 1, 1), file("a", 2, 2)];
    // the listing records `a` with size 2: the older record does not count
    assert_eq!(compute_diff(&[file("a", 2, 2)], &previous).to_upload.len(), 0);
    assert_eq!(compute_diff(&[file("a", 1, 1)], &previous).to_upload.len(), 1);
    // compared with itself, the listing uploads the entry that its last record replaces
    let diff = compute_diff(&previous, &previous);
    assert_eq!(rows(&diff.to_upload), vec![("a".to_string(), 1, 1)]);
    assert!(diff.to_delete.is_empty());
}

#[test]
fn batches_join_paths() {
    let ups = upload_batch("/src", "/dst/", &[file("a/b.txt", 1, 1), file("/abs", 1, 1)]);
    assert_eq!(
        outline(&ups),
        vec!["copy /src/a/b.txt -> /dst/a/b.txt", "copy /abs -> /abs"]
    );
    let downs = delete_batch("/dst", &["x".to_string(), "y/z".to_string()]);
    assert_eq!(outline(&downs), vec!["remove /dst/x", "remove /dst/y/z"]);
    assert!(upload_batch("/s", "/t", &[]).is_empty());
    assert!(delete_batch("/t", &[]).is_empty());
}

#[test]
fn stats_count_and_add_up() {
    let previous = vec![file("gone", 40, 1), file("gone", 2, 1), file("kept", 5, 1)];
    let diff = Diff {
        to_upload: vec![file("new", 1000, 1), file("newer", 24, 1)],
        to_delete: vec!["gone".to_string(), "unknown".to_string(), "gone".to_string()],
    };
    let stats = compute_sync_stats(&diff, &previous);
    assert_eq!(stats, SyncStats::new(2, 3, 1024, 80));

    let huge = Diff {
        to_upload: vec![file("a", u64::MAX, 1), file("b", 3, 1)],
        to_delete: vec!["big".to_string(), "big".to_string()],
    };
    let stats = compute_sync_stats(&huge, &[file("big", u64::MAX, 0)]);
    assert_eq!(stats, SyncStats::new(2, 2, 2, u64::MAX - 1));
    assert!(TEST_WRITE);
}

#[test]
fn first_run_stores_the_baseline_first() {
    let local = vec![file("a.mp3", 10, 100), file("b/c.mp3", 20, 200)];
    let plan = sync_folder_at(&task("/data/usb/music.bin"), None, &local, 777).unwrap();
    assert!(plan.first_run);
    assert_eq!(plan.stats, SyncStats::new(2, 0, 30, 0));
    assert_eq!(rows(&plan.diff.to_upload), rows(&local));
    assert_eq!(
        outline(&plan.steps),
        vec![
            "save /data/usb/music.bin",
            "copy /srv/music/a.mp3 -> /media/usb/Music/a.mp3",
            "copy /srv/music/b/c.mp3 -> /media/usb/Music/b/c.mp3",
            "save /data/usb/music.bin",
        ]
    );
    let baseline = encode_manifest(1, 777, &local);
    assert_eq!(saved_bytes(&plan.steps[0]), baseline.as_slice());
    assert_eq!(saved_bytes(&plan.steps[3]), baseline.as_slice());
}

#[test]
fn first_run_of_an_empty_source_only_stores_the_baseline() {
    let plan = sync_folder_at(&task("/data/usb/music.bin"), None, &vec![], 5).unwrap();
    assert!(plan.first_run);
    assert!(!plan.stats.has_changes());
    assert_eq!(outline(&plan.steps), vec!["save /data/usb/music.bin"]);
    assert_eq!(saved_bytes(&plan.steps[0]), encode_manifest(1, 5, &vec![]).as_slice());
}

#[test]
fn matching_manifest_means_nothing_to_do() {
    let local = vec![file("a.mp3", 10, 100)];
    let stored = encode_manifest(1, 1, &local);
    let plan = sync_folder_at(&task("m.bin"), Some(&stored), &local, 2).unwrap();
    assert!(!plan.first_run);
    assert!(plan.steps.is_empty());
    assert_eq!(plan.stats, SyncStats::default());
}

#[test]
fn uploads_come_before_deletions_and_the_manifest_last() {
    let stored = encode_manifest(
        3,
        1,
        &vec![file("same", 1, 1), file("changed", 2, 2), file("gone", 64, 3)],
    );
    let local = vec![file("new", 9, 9), file("same", 1, 1), file("changed", 2, 5)];
    let plan = sync_folder_at(&task("m.bin"), Some(&stored), &local, 4242).unwrap();
    assert!(!plan.first_run);
    assert_eq!(plan.stats, SyncStats::new(2, 1, 11, 64));
    assert_eq!(
        outline(&plan.steps),
        vec![
            "copy /srv/music/new -> /media/usb/Music/new",
            "copy /srv/music/changed -> /media/usb/Music/changed",
            "remove /media/usb/Music/gone",
            "save m.bin",
        ]
    );
    // the stored version is kept, the time and the files are new
    assert_eq!(saved_bytes(&plan.steps[3]), encode_manifest(3, 4242, &local).as_slice());
}

#[test]
fn corrupt_manifest_fails_the_synchronisation() {
    let mut stored = encode_manifest(1, 1, &vec![file("a", 1, 1)]);
    stored.truncate(stored.len() - 1);
    let result = sync_folder_at(&task("m.bin"), Some(&stored), &vec![file("a", 1, 1)], 2);
    assert_eq!(result.err(), Some(IndexError::UnexpectedEnd));
    let result = sync_folder(&task("m.bin"), Some(&[0xff; 3]), &vec![]);
    assert_eq!(result.err(), Some(IndexError::UnexpectedEnd));
}

#[test]
fn plan_is_stamped_by_the_clock() {
    let plan = sync_folder(&task("m.bin"), None, &vec![file("a", 1, 1)]).unwrap();
    let (version, stamped, files) = decode_manifest(saved_bytes(&plan.steps[0])).unwrap();
    assert_eq!(version, 1);
    assert!(stamped > 1_600_000_000);
    assert_eq!(rows(&files), vec![("a".to_string(), 1, 1)]);
    assert_eq!(saved_bytes(&plan.steps[0]), saved_bytes(&plan.steps[2]));
}

#[test]
fn run_stops_at_the_first_failure() {
    let stored = encode_manifest(1, 1, &vec![file("gone", 1, 1), file("gone2", 1, 1)]);
    let local = vec![file("n1", 1, 1), file("n2", 1, 1)];
    let plan = sync_folder_at(&task("m.bin"), Some(&stored), &local, 2).unwrap();
    assert_eq!(plan.steps.len(), 5);

    let mut run = SyncRun::new(plan.steps);
    assert_eq!(run.next(), Some(0));
    assert_eq!(run.counts(), (0, 0));
    run.record(true);
    run.record(true);
    assert_eq!(run.next(), Some(2));
    assert_eq!(run.counts(), (2, 0));
    run.record(true);
    assert_eq!(run.counts(), (2, 1));
    run.record(false); // the second removal fails
    assert_eq!(run.next(), None, "nothing follows a failure: the manifest is not stored");
    assert!(run.failed);
    assert!(!run.completed());
    run.record(true);
    assert_eq!((run.done, run.failed), (3, true), "a run that failed stays as it is");
    assert_eq!(run.counts(), (2, 1));
}

#[test]
fn run_completes_when_every_step_succeeds() {
    let plan = sync_folder_at(&task("m.bin"), None, &vec![file("a", 1, 1)], 2).unwrap();
    let mut run = SyncRun::new(plan.steps);
    let mut carried_out = 0;
    while let Some(i) = run.next() {
        assert_eq!(i, carried_out);
        carried_out += 1;
        run.record(true);
    }
    assert_eq!(carried_out, 3);
    assert!(run.completed());
    assert_eq!(run.counts(), (1, 0));
    run.record(false);
    assert!(run.completed(), "there is no step left that could fail");

    let mut empty = SyncRun::new(vec![]);
    assert_eq!(empty.next(), None);
    assert!(empty.completed());
    empty.record(false);
    assert!(empty.completed());
}

/// Stores bytes at `path` through a temporary file and a rename.
fn store(path: &Path, bytes: &[u8]) -> impl Read + Seek {
    let mut tmp = NamedTempFile::new_in(path.parent().unwrap()).unwrap();
    tmp.write_all(bytes).unwrap();
    tmp.persist(path).unwrap()
}

#[test]
fn first_sync_leaves_the_manifest_on_disk() {
    let temp = TempDir::new().unwrap();
    let index_path = temp.path().join("music.bin");
    assert!(!index_path.exists());
    let scanned = vec![file("a.mp3", 10, 100), file("b.mp3", 20, 200)];

    let plan =
        sync_folder(&task(&index_path.to_string_lossy()), None, &scanned).unwrap();
    let mut run = SyncRun::new(plan.steps);
    let mut stored = None;
    while let Some(i) = run.next() {
        if let SyncStep::SaveManifest { path, bytes } = &run.steps[i] {
            stored = Some(store(Path::new(path), bytes));
        }
        run.record(true);
    }
    assert!(run.completed());
    assert!(index_path.exists(), "the manifest is on disk");

    let mut on_disk = Vec::new();
    let mut handle = stored.unwrap();
    handle.seek(SeekFrom::Start(0)).unwrap();
    handle.read_to_end(&mut on_disk).unwrap();
    let index = Index::load(&index_path.to_string_lossy(), Some(&on_disk)).unwrap();
    assert!(index.exists_on_disk());
    assert_eq!(rows(&index.files), rows(&scanned));

    // the next synchronisation of the unchanged source has nothing to do
    let next = sync_folder(&task(&index_path.to_string_lossy()), Some(&on_disk), &scanned)
        .unwrap();
    assert!(!next.first_run);
    assert!(next.steps.is_empty());
}
