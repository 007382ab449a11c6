//! Tests of sizes in decimal against floating-point formatting.

use sonik::utils::human::{human_size, SyncStats};

/// The size as floating-point arithmetic shows it.
fn by_floats(bytes: u64) -> String {
    let units = ["B", "KB", "MB", "GB", "TB"];
    let mut size = bytes as f64;
    let mut unit = 0usize;
    while size >= 1024.0 && unit < units.len() - 1 {
        size /= 1024.0;
        unit += 1;
    }
    if unit == 0 {
        format!("{} B", bytes)
    } else {
        format!("{:.1} {}", size, units[unit])
    }
}

#[test]
fn sizes_agree_with_floating_point() {
    let mut samples: Vec<u64> = vec![
        0, 1, 9, 10, 999, 1023, 1024, 1025, 1075, 1076, 1126, 1127, 1280, 1536, 1792, 2047, 2048,
        5_000_000, 1_000_000, 1_048_575, 1_048_576, 1_073_741_823, 1_073_741_824,
        1_099_511_627_775, 1_099_511_627_776, 123_456_789_012_345, 9_007_199_254_740_991,
        u64::MAX,
    ];
    let mut x: u64 = 1;
    for _ in 0..2000 {
        x = x.wrapping_mul(6364136223846793005).wrapping_add(1442695040888963407);
        for shift in [0, 1, 2, 3, 5, 8, 10, 11, 12, 24, 40, 52] {
            samples.push(x >> shift);
        }
    }
    // sizes half-way between two that floats can tell apart
    for bits in 53..64u32 {
        let top = 1u64 << bits;
        let step = 1u64 << (bits - 52);
        for k in [0u64, 1, 2, 3, 4, 5, 1000, 1001] {
            let base = top + k * step;
            samples.extend([base - 1, base, base + 1, base + step / 2, base + step / 2 + 1]);
            samples.push(base + step - 1);
        }
    }
    samples.extend([u64::MAX - 1, u64::MAX - 1023, u64::MAX - 1024, u64::MAX - 1025, u64::MAX - 2048]);
    for bytes in samples {
        assert_eq!(human_size(bytes), by_floats(bytes), "for {} bytes", bytes);
    }
}

#[test]
fn halves_go_to_the_even_tenth() {
    assert_eq!(human_size(1280), "1.2 KB"); // 1.25
    assert_eq!(human_size(1382), "1.3 KB"); // 1.3496...
    assert_eq!(human_size(1383), "1.4 KB"); // 1.3505...
    assert_eq!(human_size(1075), "1.0 KB"); // 1.0498...
    assert_eq!(human_size(1024 + 154), "1.2 KB"); // 1.150390625 is above the half
    assert_eq!(human_size(3 * 1024 * 1024 / 4 + 1024 * 1024), "1.8 KB".replace("KB", "MB")); // 1.75
}

#[test]
fn rounding_may_reach_the_next_thousand() {
    assert_eq!(human_size(1024 * 1024 - 1), "1024.0 KB");
    assert_eq!(human_size(1024 * 1024 * 1024 - 1), "1024.0 MB");
}

#[test]
fn terabytes_are_the_largest_unit() {
    assert_eq!(human_size(1 << 40), "1.0 TB");
    assert_eq!(human_size(1 << 50), "1024.0 TB");
    assert_eq!(human_size(u64::MAX), "16777216.0 TB");
}

#[test]
fn summary_is_exact() {
    let stats = SyncStats::new(12, 0, 1536, 1023);
    assert_eq!(stats.format_summary(), "12 upload(s), 0 delete(s) (+1.5 KB, -1023 B)");
    let big = SyncStats::new(usize::MAX, 1, 0, u64::MAX);
    assert_eq!(
        big.format_summary(),
        format!("{} upload(s), 1 delete(s) (+0 B, -16777216.0 TB)", usize::MAX)
    );
}
