use hugdocker::resources::{format_bytes, format_compact_bytes};

/// The rendering the byte counts are held to: the count as an `f64`,
/// divided by 1024 while it is at least 1024 (up to TiB), one decimal.
fn expected(bytes: u64) -> String {
    const UNITS: [&str; 5] = ["B", "KiB", "MiB", "GiB", "TiB"];
    if bytes < 1024 {
        return format!("{bytes} B");
    }
    let mut value = bytes as f64;
    let mut unit = 0;
    while value >= 1024.0 && unit < UNITS.len() - 1 {
        value /= 1024.0;
        unit += 1;
    }
    format!("{value:.1} {}", UNITS[unit])
}

#[test]
fn format_bytes_matches_documented_examples() {
    assert_eq!(format_bytes(0), "0 B");
    assert_eq!(format_bytes(1_536), "1.5 KiB");
    assert_eq!(format_bytes(5 * 1024 * 1024), "5.0 MiB");
    assert_eq!(format_bytes(1023), "1023 B");
    assert_eq!(format_bytes(1024), "1.0 KiB");
}

#[test]
fn format_bytes_rounds_ties_to_even_tenth() {
    assert_eq!(format_bytes(1280), "1.2 KiB");
    assert_eq!(format_bytes(1280), expected(1280));
    assert_eq!(format_bytes(3840), "3.8 KiB");
    assert_eq!(format_bytes(3840), expected(3840));
    assert_eq!(format_bytes(1_048_575), "1024.0 KiB");
}

#[test]
fn format_bytes_agrees_with_float_rendering() {
    let mut samples: Vec<u64> = vec![
        1024,
        1025,
        1126,
        1127,
        10_240,
        999_999,
        1_048_576,
        1_073_741_823,
        1_073_741_824,
        1_099_511_627_775,
        1_099_511_627_776,
        1_125_899_906_842_624,
        9_007_199_254_740_991,
        9_007_199_254_740_993,
        u64::MAX,
        u64::MAX - 1,
        u64::MAX / 3,
    ];
    let mut x: u64 = 0x9e37_79b9_7f4a_7c15;
    for _ in 0..2000 {
        x ^= x << 13;
        x ^= x >> 7;
        x ^= x << 17;
        samples.push(x >> (x % 60));
    }
    for b in samples {
        assert_eq!(format_bytes(b), expected(b), "bytes {b}");
    }
}

#[test]
fn compact_bytes_drop_the_space() {
    assert_eq!(format_compact_bytes(1_536), "1.5KiB");
    assert_eq!(format_compact_bytes(12), "12B");
}
