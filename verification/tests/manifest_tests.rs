//! Tests of the manifest's byte layout and of the figures worked out on loading.

use sonik::domain::index::{
    decode_manifest, encode_manifest, total_size, Index, IndexError, IndexedFile, INDEX_VERSION,
};

fn file(path: &str, size: u64, mtime: i64) -> IndexedFile {
    IndexedFile { path: path.to_string(), size, mtime }
}

fn rows(files: &[IndexedFile]) -> Vec<(String, u64, i64)> {
    files.iter().map(|f| (f.path.clone(), f.size, f.mtime)).collect()
}

fn sample() -> Vec<IndexedFile> {
    vec![
        file("a.txt", 100, 1000),
        file("dir/with space/b.bin", 0, -5),
        file("musique/été/Ça.flac", u64::MAX, i64::MIN),
        file("", 7, i64::MAX),
    ]
}

#[test]
fn layout_is_that_of_bincode() {
    let files = sample();
    let bytes = encode_manifest(INDEX_VERSION, 1_700_000_000, &files);
    let expected = bincode::serialize(&(1u32, 1_700_000_000i64, rows(&files))).unwrap();
    assert_eq!(bytes, expected);
}

#[test]
fn empty_manifest_is_twenty_bytes() {
    let bytes = encode_manifest(1, 2, &vec![]);
    assert_eq!(
        bytes,
        vec![1, 0, 0, 0, 2, 0, 0, 0, 0, 0, 0, 0, 0, 0, 0, 0, 0, 0, 0, 0]
    );
}

#[test]
fn one_file_layout_is_exact() {
    let bytes = encode_manifest(1, -1, &vec![file("ab", 258, 3)]);
    let mut expected: Vec<u8> = vec![1, 0, 0, 0];
    expected.extend([0xff; 8]); // generated_at = -1
    expected.extend([1, 0, 0, 0, 0, 0, 0, 0]); // one file
    expected.extend([2, 0, 0, 0, 0, 0, 0, 0]); // path length
    expected.extend(*b"ab");
    expected.extend([2, 1, 0, 0, 0, 0, 0, 0]); // size 258
    expected.extend([3, 0, 0, 0, 0, 0, 0, 0]); // mtime 3
    assert_eq!(bytes, expected);
}

#[test]
fn bincode_reads_what_is_written() {
    let files = sample();
    let bytes = encode_manifest(7, -42, &files);
    let back: (u32, i64, Vec<(String, u64, i64)>) = bincode::deserialize(&bytes).unwrap();
    assert_eq!(back, (7, -42, rows(&files)));
}

#[test]
fn round_trip_of_zero_one_and_many_files() {
    for files in [vec![], vec![file("only.txt", 1, 1)], sample()] {
        let bytes = encode_manifest(INDEX_VERSION, 99, &files);
        let (version, generated_at, back) = decode_manifest(&bytes).unwrap();
        assert_eq!(version, INDEX_VERSION);
        assert_eq!(generated_at, 99);
        assert_eq!(rows(&back), rows(&files));
    }
}

#[test]
fn round_trip_through_load_and_save() {
    let mut index = Index::load_at("/data/dev/music.bin", None, 5).unwrap();
    assert!(!index.exists_on_disk());
    index.files = sample();
    let bytes = index.save();
    let loaded = Index::load_at("/data/dev/music.bin", Some(&bytes), 77).unwrap();
    assert!(loaded.exists_on_disk());
    assert_eq!(loaded.version, INDEX_VERSION);
    assert_eq!(loaded.generated_at, 5);
    assert_eq!(loaded.path, "/data/dev/music.bin");
    assert_eq!(rows(&loaded.files), rows(&sample()));
}

#[test]
fn bytes_behind_the_manifest_are_ignored() {
    let files = sample();
    let mut bytes = encode_manifest(1, 2, &files);
    bytes.extend([0xde, 0xad, 0xbe, 0xef]);
    let (_, _, back) = decode_manifest(&bytes).unwrap();
    assert_eq!(rows(&back), rows(&files));
}

#[test]
fn manifest_with_stored_figures_is_read() {
    // a manifest followed by figures that an older writer stored with it
    let files = vec![file("a", 10, 1), file("b", 30, 2)];
    let biggest: Option<(String, u64, i64)> = Some(("b".to_string(), 30, 2));
    let bytes = bincode::serialize(&(
        1u32,
        123i64,
        rows(&files),
        2u64,
        40u64,
        20u64,
        biggest.clone(),
        biggest,
        Some(("a".to_string(), 10u64, 1i64)),
    ))
    .unwrap();
    let loaded = Index::load_at("x.bin", Some(&bytes), 0).unwrap();
    assert_eq!(loaded.generated_at, 123);
    assert_eq!(rows(&loaded.files), rows(&files));
}

#[test]
fn truncated_manifest_is_refused() {
    let bytes = encode_manifest(1, 2, &sample());
    for cut in [0, 3, 4, 11, 12, 19, 20, 27, 30, bytes.len() - 1] {
        assert_eq!(
            decode_manifest(&bytes[..cut]).err(),
            Some(IndexError::UnexpectedEnd),
            "cut at {}",
            cut
        );
    }
    assert_eq!(IndexError::UnexpectedEnd.message(), "manifest is truncated");
}

#[test]
fn count_beyond_the_bytes_is_refused() {
    let mut bytes = encode_manifest(1, 2, &vec![]);
    bytes[12] = 3; // three files announced, none there
    assert_eq!(decode_manifest(&bytes).err(), Some(IndexError::UnexpectedEnd));
    let mut huge = encode_manifest(1, 2, &vec![]);
    for b in &mut huge[12..20] {
        *b = 0xff;
    }
    assert_eq!(decode_manifest(&huge).err(), Some(IndexError::UnexpectedEnd));
}

#[test]
fn path_that_is_not_utf8_is_refused() {
    let mut bytes = encode_manifest(1, 2, &vec![file("ab", 1, 1)]);
    bytes[28] = 0xff; // first byte of the path
    assert_eq!(decode_manifest(&bytes).err(), Some(IndexError::InvalidUtf8));
    assert_eq!(
        IndexError::InvalidUtf8.message(),
        "manifest holds a path that is not valid UTF-8"
    );
    // bincode refuses the same bytes
    assert!(bincode::deserialize::<(u32, i64, Vec<(String, u64, i64)>)>(&bytes).is_err());
}

#[test]
fn corrupt_manifest_fails_the_load() {
    let result = Index::load_at("x.bin", Some(&[1, 2, 3]), 0);
    assert_eq!(result.err(), Some(IndexError::UnexpectedEnd));
}

#[test]
fn missing_manifest_loads_empty() {
    let index = Index::load_at("some/where.bin", None, 1234).unwrap();
    assert_eq!(index.version, 1);
    assert_eq!(index.generated_at, 1234);
    assert!(index.files.is_empty());
    assert_eq!(index.path, "some/where.bin");
    assert_eq!((index.total_files, index.total_size, index.avg_size), (0, 0, 0));
    assert!(index.biggest.is_none() && index.newest.is_none() && index.oldest.is_none());
    assert!(!index.exists_on_disk());
}

#[test]
fn load_reads_the_clock_only_without_stored_bytes() {
    let fresh = Index::load("p.bin", None).unwrap();
    assert!(fresh.generated_at > 1_600_000_000);
    let bytes = encode_manifest(1, 42, &vec![]);
    let stored = Index::load("p.bin", Some(&bytes)).unwrap();
    assert_eq!(stored.generated_at, 42);
}

#[test]
fn figures_are_worked_out_on_loading() {
    let files = vec![
        file("first-small", 10, 500),
        file("first-big", 90, 100),
        file("second-big", 90, 900),
        file("old-twin", 20, 100),
        file("new-twin", 5, 900),
    ];
    let bytes = encode_manifest(1, 2, &files);
    let index = Index::load_at("x.bin", Some(&bytes), 0).unwrap();
    assert_eq!(index.total_files, 5);
    assert_eq!(index.total_size, 215);
    assert_eq!(index.avg_size, 43);
    // among equals the last is the biggest and the newest, the first the oldest
    assert_eq!(index.biggest.unwrap().path, "second-big");
    assert_eq!(index.newest.unwrap().path, "new-twin");
    assert_eq!(index.oldest.unwrap().path, "first-big");
}

#[test]
fn total_keeps_its_low_bits() {
    assert_eq!(total_size(&vec![]), 0);
    assert_eq!(total_size(&vec![file("a", 1, 0), file("b", 2, 0)]), 3);
    let files = vec![file("a", u64::MAX, 0), file("b", 5, 0), file("c", u64::MAX, 0)];
    assert_eq!(total_size(&files), 3);
}

#[test]
fn update_replaces_files_and_stamps() {
    let bytes = encode_manifest(1, 2, &vec![file("old", 1, 1)]);
    let mut index = Index::load_at("x.bin", Some(&bytes), 0).unwrap();
    let stored = index.update_at(vec![file("new", 2, 2)], 555);
    assert_eq!(index.generated_at, 555);
    assert_eq!(rows(&index.files), vec![("new".to_string(), 2, 2)]);
    assert_eq!(stored, encode_manifest(1, 555, &vec![file("new", 2, 2)]));
    // the figures are those of the load
    assert_eq!(index.total_files, 1);
    assert_eq!(index.biggest.as_ref().unwrap().path, "old");

    let again = index.update(vec![]);
    assert!(index.files.is_empty());
    assert!(index.generated_at > 1_600_000_000);
    assert_eq!(again, encode_manifest(1, index.generated_at, &vec![]));
}
