use ira::disk_space::{available_bytes, format_size, nearest_existing, statvfs_available, FsStats};

#[test]
fn test_format_size_bytes() {
    assert_eq!(format_size(0), "0 B");
    assert_eq!(format_size(7), "7 B");
    assert_eq!(format_size(999), "999 B");
}

#[test]
fn test_format_size_larger_units() {
    assert_eq!(format_size(1000), "1.0 kB");
    assert_eq!(format_size(4_200_000), "4.2 MB");
    assert_eq!(format_size(82_400_000_000), "82.4 GB");
}

#[test]
fn test_format_size_saturates_at_last_unit() {
    assert_eq!(format_size(9_000_000_000_000_000_000), "9000.0 PB");
}

#[test]
fn format_size_rounds_to_the_nearest_tenth() {
    assert_eq!(format_size(1_049), "1.0 kB");
    assert_eq!(format_size(1_050), "1.1 kB");
    assert_eq!(format_size(999_949), "999.9 kB");
    assert_eq!(format_size(999_999), "1000.0 kB");
    assert_eq!(format_size(1_000_000), "1.0 MB");
    assert_eq!(format_size(12_500_000_000), "12.5 GB");
    assert_eq!(format_size(3_000_000_000_000), "3.0 TB");
    assert_eq!(format_size(u64::MAX), "18446.7 PB");
}

/// The size as double arithmetic gives it, to hold the library to.
fn size_in_doubles(bytes: u64) -> String {
    let units = ["B", "kB", "MB", "GB", "TB", "PB"];
    let mut value = bytes as f64;
    let mut unit = 0;
    while value >= 1000.0 && unit < units.len() - 1 {
        value /= 1000.0;
        unit += 1;
    }
    if unit == 0 {
        return format!("{} {}", bytes, units[0]);
    }
    format!("{:.1} {}", value, units[unit])
}

#[test]
fn format_size_follows_double_rounding_on_ties() {
    assert_eq!(format_size(1_150), "1.1 kB");
    assert_eq!(format_size(1_250), "1.2 kB");
    assert_eq!(format_size(1_350), "1.4 kB");
    assert_eq!(format_size(1_750), "1.8 kB");
    assert_eq!(format_size(999_999_999_999_999_999), "1000.0 PB");
}

#[test]
fn format_size_agrees_with_double_arithmetic() {
    let mut cases: Vec<u64> = vec![0, 1, 999, 1_000, u64::MAX, (1u64 << 53) + 1, 999_999_999_999_999_999];
    let mut scale: u64 = 1;
    for _ in 0..6 {
        for m in 1..3000u64 {
            let tie = m * 50 * scale;
            cases.push(tie);
            cases.push(tie + 1);
            cases.push(tie - 1);
        }
        scale = scale.saturating_mul(1000);
    }
    let mut x: u64 = 0x9e37_79b9_7f4a_7c15;
    for _ in 0..100_000 {
        x ^= x << 13;
        x ^= x >> 7;
        x ^= x << 17;
        cases.push(x);
        cases.push(x >> (x % 60));
    }
    for bytes in cases {
        assert_eq!(format_size(bytes), size_in_doubles(bytes), "{}", bytes);
    }
}

#[test]
fn statvfs_available_multiplies_blocks_by_fragment_size() {
    let ok = FsStats { status: 0, fragment_size: 4096, blocks_available: 10 };
    assert_eq!(statvfs_available(ok), Some(40960));
    let failed = FsStats { status: -1, fragment_size: 4096, blocks_available: 10 };
    assert_eq!(statvfs_available(failed), None);
    let no_fragments = FsStats { status: 0, fragment_size: 0, blocks_available: 10 };
    assert_eq!(statvfs_available(no_fragments), None);
}

#[test]
fn available_bytes_needs_an_existing_ancestor() {
    let ok = FsStats { status: 0, fragment_size: 512, blocks_available: 3 };
    let other = FsStats { status: 0, fragment_size: 4096, blocks_available: 1 };
    // No ancestor exists.
    assert_eq!(available_bytes(&vec![false, false], &vec![None, None]), None);
    assert_eq!(available_bytes(&vec![], &vec![]), None);
    // The path itself exists.
    assert_eq!(available_bytes(&vec![true, true], &vec![Some(ok), Some(other)]), Some(1536));
    // A missing child answers with its nearest existing ancestor.
    assert_eq!(available_bytes(&vec![false, false, true, true], &vec![None, None, Some(ok), Some(other)]), Some(1536));
    // The nearest existing ancestor could not be stat'ed.
    assert_eq!(available_bytes(&vec![false, true, true], &vec![None, None, Some(other)]), None);
    let failed = FsStats { status: -1, fragment_size: 512, blocks_available: 3 };
    assert_eq!(available_bytes(&vec![true], &vec![Some(failed)]), None);
    assert_eq!(nearest_existing(&vec![false, true, true]), Some(1));
    assert_eq!(nearest_existing(&vec![false]), None);
}

#[test]
fn test_available_bytes_on_existing_dir() {
    // The directory itself exists and its filesystem reports free space.
    let stats = FsStats { status: 0, fragment_size: 4096, blocks_available: 1000 };
    let bytes = available_bytes(&vec![true], &vec![Some(stats)]);
    assert!(bytes.is_some());
}

#[test]
fn test_available_bytes_on_missing_child() {
    // `<dir>/no/such/dir`: the three missing components, then the existing directory.
    let stats = FsStats { status: 0, fragment_size: 4096, blocks_available: 1000 };
    let bytes = available_bytes(&vec![false, false, false, true], &vec![None, None, None, Some(stats)]);
    assert!(bytes.is_some());
}
