use paletteer::human_size;

#[test]
fn formats_file_sizes() {
    assert_eq!(human_size(999), "999 B");
    assert_eq!(human_size(1024), "1.0 KiB");
    assert_eq!(human_size(1_572_864), "1.5 MiB");
}

fn float_reference(bytes: u64) -> String {
    const UNITS: [&str; 4] = ["B", "KiB", "MiB", "GiB"];
    let mut value = bytes as f64;
    let mut unit = 0;
    while value >= 1024.0 && unit < UNITS.len() - 1 {
        value /= 1024.0;
        unit += 1;
    }
    if unit == 0 {
        format!("{bytes} B")
    } else {
        format!("{value:.1} {}", UNITS[unit])
    }
}

#[test]
fn sizes_match_float_formatting() {
    let samples = [
        0,
        1,
        1023,
        1025,
        1075,
        1076,
        1_048_575,
        1_048_576,
        5_000_000,
        1_073_741_823,
        1_073_741_824,
        123_456_789_012,
        (1 << 53) + 1,
        (1 << 53) + 3,
        u64::MAX,
        u64::MAX - 1,
    ];
    for bytes in samples {
        assert_eq!(human_size(bytes), float_reference(bytes), "{bytes}");
    }
    let mut x: u64 = 1;
    for _ in 0..2000 {
        x = x.wrapping_mul(6364136223846793005).wrapping_add(1442695040888963407);
        for bytes in [x, x >> 20, x >> 35, x >> 45] {
            assert_eq!(human_size(bytes), float_reference(bytes), "{bytes}");
        }
    }
}

#[test]
fn ties_round_to_even() {
    // 1126.4 / 1024 = 1.1 exactly would not tie; 1.25 KiB and 1.75 KiB do.
    assert_eq!(human_size(1280), "1.2 KiB");
    assert_eq!(human_size(1792), "1.8 KiB");
    assert_eq!(human_size(3 * 1024 * 1024 * 1024 / 4 * 5), "3.8 GiB");
}
