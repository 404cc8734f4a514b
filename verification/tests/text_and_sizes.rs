use linuxscp::sizes::{exact_size, format_eta, format_size, group_digits};
use linuxscp::text::{
    contains, ends_with, is_whitespace, lines, pad_zeros, parse_i32, parse_number, split_on,
    split_once, split_whitespace, starts_with, strip_prefix, to_ascii_lower, to_decimal,
    to_digits, trim,
};

/// The same size by floating-point arithmetic.
fn float_size(size: u64) -> String {
    let units = ["B", "KB", "MB", "GB", "TB", "PB"];
    if size < 1024 {
        return format!("{size} B");
    }
    let mut value = size as f64;
    let mut unit = 0;
    while value >= 1024.0 && unit < units.len() - 1 {
        value /= 1024.0;
        unit += 1;
    }
    if value >= 100.0 {
        format!("{value:.0} {}", units[unit])
    } else {
        format!("{value:.1} {}", units[unit])
    }
}

#[test]
fn sizes_in_their_largest_unit() {
    assert_eq!(format_size(0), "0 B");
    assert_eq!(format_size(1023), "1023 B");
    assert_eq!(format_size(1024), "1.0 KB");
    assert_eq!(format_size(1536), "1.5 KB");
    assert_eq!(format_size(100 * 1024), "100 KB");
    assert_eq!(format_size(10 * 1024 * 1024), "10.0 MB");
    assert_eq!(format_size(u64::MAX), "16384 PB");
}

#[test]
fn sizes_agree_with_floating_point() {
    let mut tried = 0;
    for shift in 0..64 {
        for near in 0..40u64 {
            let base = 1u64 << shift;
            for size in [base.wrapping_add(near), base.wrapping_sub(near), base.wrapping_mul(near)] {
                assert_eq!(format_size(size), float_size(size), "{size}");
                tried += 1;
            }
        }
    }
    // Ties of the last digit, and numbers with more bits than a double holds.
    for unit in [1u64 << 10, 1 << 20, 1 << 30, 1 << 40, 1 << 50] {
        for tenth in 0..2000u64 {
            let size = (unit / 20).wrapping_mul(tenth).wrapping_add(unit);
            for size in [size - 1, size, size + 1] {
                assert_eq!(format_size(size), float_size(size), "{size}");
                tried += 1;
            }
        }
    }
    let mut seed: u64 = 0x9E37_79B9_7F4A_7C15;
    for _ in 0..50_000 {
        seed = seed.wrapping_mul(6364136223846793005).wrapping_add(1442695040888963407);
        let size = seed >> (seed % 61);
        assert_eq!(format_size(size), float_size(size), "{size}");
        tried += 1;
    }
    assert!(tried > 80_000);
}

#[test]
fn durations_in_two_units() {
    assert_eq!(format_eta(0), "0s");
    assert_eq!(format_eta(59), "59s");
    assert_eq!(format_eta(61), "1m 1s");
    assert_eq!(format_eta(3725), "1h 2m");
    assert_eq!(format_eta(48 * 3600 - 1), "47h 59m");
    assert_eq!(format_eta(48 * 3600), "2d 0h");
    assert_eq!(format_eta(u64::MAX), format!("{}d {}h", u64::MAX / 86400, u64::MAX % 86400 / 3600));
}

#[test]
fn exact_sizes_group_their_digits() {
    assert_eq!(group_digits(0), "0");
    assert_eq!(group_digits(999), "999");
    assert_eq!(group_digits(1000), "1,000");
    assert_eq!(group_digits(1234567), "1,234,567");
    assert_eq!(exact_size(12), "12 bytes");
    assert_eq!(exact_size(2048), "2.0 KB (2,048 bytes)");
}

#[test]
fn white_space_is_that_of_unicode() {
    for code in 0..=0x10FFFFu32 {
        if let Some(c) = char::from_u32(code) {
            assert_eq!(is_whitespace(c), c.is_whitespace(), "{code:x}");
        }
    }
}

#[test]
fn texts_come_apart_as_the_standard_library_has_them() {
    let samples = [
        "", " ", "a", " a b\tc ", "a/b//c/", "x\ny\r\nz\n", "\n\n", "a\rb", "=k=v=", "\u{a0}w\u{2003}",
        "no newline\n\nend", "\u{e4}\u{f6}\u{fc} \u{1f600}", "Host  web", "abcabc",
    ];
    for s in samples {
        assert_eq!(trim(s), s.trim());
        assert_eq!(split_whitespace(s), s.split_whitespace().collect::<Vec<_>>());
        assert_eq!(lines(s), s.lines().collect::<Vec<_>>());
        assert_eq!(to_ascii_lower(s), s.to_ascii_lowercase());
        for c in ['/', '=', ' ', '\n'] {
            assert_eq!(split_on(s, c), s.split(c).collect::<Vec<_>>());
            let parts = s.split_once(c).map(|(a, b)| (a.to_string(), b.to_string()));
            assert_eq!(split_once(s, c), parts);
        }
        for t in samples {
            assert_eq!(contains(s, t), s.contains(t), "{s:?} {t:?}");
            assert_eq!(starts_with(s, t), s.starts_with(t));
            assert_eq!(ends_with(s, t), s.ends_with(t));
            assert_eq!(strip_prefix(s, t), s.strip_prefix(t).map(String::from));
        }
    }
}

#[test]
fn numbers_are_read_and_written_as_the_standard_library_does() {
    for n in [0u64, 1, 9, 10, 255, 4096, u32::MAX as u64, u64::MAX] {
        assert_eq!(to_decimal(n), n.to_string());
        assert_eq!(to_digits(n, 8), format!("{n:o}"));
        assert_eq!(to_digits(n, 16), format!("{n:x}"));
        assert_eq!(pad_zeros(&to_digits(n, 16), 16), format!("{n:016x}"));
    }
    let texts = [
        "", "+", "-", "0", "007", "+5", "-5", "65535", "65536", " 5", "5 ", "1_0", "4294967295",
        "4294967296", "-2147483648", "-2147483649", "2147483647", "2147483648", "99999999999999999999",
    ];
    for s in texts {
        assert_eq!(parse_number(s, 10, u16::MAX as u64), s.parse::<u16>().ok().map(u64::from), "{s}");
        assert_eq!(parse_number(s, 10, u64::MAX), s.parse::<u64>().ok(), "{s}");
        assert_eq!(
            parse_number(s, 8, u32::MAX as u64),
            u32::from_str_radix(s, 8).ok().map(u64::from),
            "{s}"
        );
        assert_eq!(parse_i32(s), s.parse::<i32>().ok(), "{s}");
    }
}
