use pesto::ui::format_bytes;

fn float_reference(b: u64) -> String {
    if b >= 1_073_741_824 {
        format!("{:.1}GB", b as f64 / 1_073_741_824.0)
    } else if b >= 1_048_576 {
        format!("{:.0}MB", b as f64 / 1_048_576.0)
    } else if b >= 1024 {
        format!("{:.0}KB", b as f64 / 1024.0)
    } else {
        format!("{}B", b)
    }
}

#[test]
fn format_bytes_small_values() {
    assert_eq!(format_bytes(0), "0B");
    assert_eq!(format_bytes(1023), "1023B");
    assert_eq!(format_bytes(1024), "1KB");
    assert_eq!(format_bytes(1_048_576), "1MB");
    assert_eq!(format_bytes(1_073_741_824), "1.0GB");
}

#[test]
fn format_bytes_ties_round_to_even() {
    // 2.5 KiB, 3.5 KiB, 2.5 MiB, 1.25 GiB and 1.35 GiB sit exactly halfway.
    assert_eq!(format_bytes(2560), float_reference(2560));
    assert_eq!(format_bytes(3584), float_reference(3584));
    assert_eq!(format_bytes(2_621_440), float_reference(2_621_440));
    assert_eq!(format_bytes(1_342_177_280), float_reference(1_342_177_280));
    assert_eq!(format_bytes(1_449_551_462), float_reference(1_449_551_462));
}

#[test]
fn format_bytes_matches_float_formatting() {
    let mut samples: Vec<u64> = Vec::new();
    for k in 0..64u32 {
        let p = 1u64 << k;
        for d in [0u64, 1, 2, 3, 511, 512, 513, 1023, 1024, 1025] {
            samples.push(p.wrapping_add(d));
            samples.push(p.wrapping_sub(d));
            samples.push(p.wrapping_mul(3).wrapping_add(d));
            samples.push(p.wrapping_mul(5).wrapping_sub(d));
        }
    }
    samples.push(u64::MAX);
    samples.push(u64::MAX - 1);
    samples.push(u64::MAX - 1024);
    let mut x: u64 = 0x9e37_79b9_7f4a_7c15;
    for _ in 0..20000 {
        x ^= x << 13;
        x ^= x >> 7;
        x ^= x << 17;
        samples.push(x);
        samples.push(x >> (x % 64));
    }
    for b in samples {
        assert_eq!(format_bytes(b), float_reference(b), "value {}", b);
    }
}
