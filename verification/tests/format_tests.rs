use file_explorer::format::{format_size, format_time};
use std::time::{Duration, SystemTime, UNIX_EPOCH};

/// The size formatting of the file explorer, written with floating point.
fn float_format_size(size: u64) -> String {
    if size < 1024 {
        format!("{}B", size)
    } else if size < 1024 * 1024 {
        format!("{:.1}KB", size as f64 / 1024.0)
    } else if size < 1024 * 1024 * 1024 {
        format!("{:.1}MB", size as f64 / (1024.0 * 1024.0))
    } else {
        format!("{:.1}GB", size as f64 / (1024.0 * 1024.0 * 1024.0))
    }
}

/// The time formatting of the file explorer, written with `SystemTime`.
fn system_format_time(time: SystemTime) -> String {
    if let Ok(duration) = time.duration_since(UNIX_EPOCH) {
        let secs = duration.as_secs();
        let years = 1970 + (secs / 31_536_000);
        let months = ((secs % 31_536_000) / 2_592_000) + 1;
        let days = ((secs % 2_592_000) / 86_400) + 1;
        let hours = (secs % 86_400) / 3_600;
        let minutes = (secs % 3_600) / 60;
        format!("{:04}-{:02}-{:02} {:02}:{:02}", years, months, days, hours, minutes)
    } else {
        String::from("Unknown")
    }
}

fn since_epoch(time: SystemTime) -> Option<u64> {
    time.duration_since(UNIX_EPOCH).ok().map(|d| d.as_secs())
}

#[test]
fn size_in_bytes() {
    assert_eq!(format_size(0), "0B");
    assert_eq!(format_size(7), "7B");
    assert_eq!(format_size(512), "512B");
    assert_eq!(format_size(1023), "1023B");
}

#[test]
fn size_in_kilobytes() {
    assert_eq!(format_size(1024), "1.0KB");
    assert_eq!(format_size(1536), "1.5KB");
    assert_eq!(format_size(10 * 1024), "10.0KB");
    assert_eq!(format_size(1024 * 1024 - 1), "1024.0KB");
}

#[test]
fn size_in_megabytes_and_gigabytes() {
    assert_eq!(format_size(1024 * 1024), "1.0MB");
    assert_eq!(format_size(5 * 1024 * 1024 + 512 * 1024), "5.5MB");
    assert_eq!(format_size(1024 * 1024 * 1024), "1.0GB");
    assert_eq!(format_size(3 * 1024 * 1024 * 1024), "3.0GB");
}

#[test]
fn size_ties_round_to_even() {
    // 1280 / 1024 = 1.25 and 1792 / 1024 = 1.75 lie exactly between two tenths.
    assert_eq!(format_size(1280), "1.2KB");
    assert_eq!(format_size(1792), "1.8KB");
    assert_eq!(format_size(1280), float_format_size(1280));
    assert_eq!(format_size(1792), float_format_size(1792));
}

#[test]
fn size_of_huge_files_goes_through_f64() {
    assert_eq!(format_size(u64::MAX), float_format_size(u64::MAX));
    assert_eq!(format_size(u64::MAX), "17179869184.0GB");
    let big = 1u64 << 53;
    for d in 0..64u64 {
        assert_eq!(format_size(big + d), float_format_size(big + d));
        assert_eq!(format_size((big << 5) + d * 7), float_format_size((big << 5) + d * 7));
    }
}

#[test]
fn size_agrees_with_floating_point_everywhere_sampled() {
    for size in 0..70_000u64 {
        assert_eq!(format_size(size), float_format_size(size), "size {}", size);
    }
    let mut x: u64 = 0x9E37_79B9_7F4A_7C15;
    for _ in 0..200_000 {
        x ^= x << 13;
        x ^= x >> 7;
        x ^= x << 17;
        let shift = (x % 64) as u32;
        let size = x >> shift;
        assert_eq!(format_size(size), float_format_size(size), "size {}", size);
    }
    for k in 10..64u32 {
        for d in [-3i64, -1, 0, 1, 3] {
            let size = ((1u64 << k) as i64 + d) as u64;
            assert_eq!(format_size(size), float_format_size(size), "size {}", size);
        }
    }
}

#[test]
fn time_at_the_epoch() {
    assert_eq!(format_time(Some(0)), "1970-01-01 00:00");
}

#[test]
fn time_known_values() {
    assert_eq!(format_time(Some(59)), "1970-01-01 00:00");
    assert_eq!(format_time(Some(3_661)), "1970-01-01 01:01");
    assert_eq!(format_time(Some(31_536_000)), "1971-01-06 00:00");
    assert_eq!(format_time(Some(1_700_000_000)), "2023-12-26 22:13");
    // Month 13 appears in the last days of a 365-day year.
    assert_eq!(format_time(Some(31_535_999)), "1970-13-05 23:59");
}

#[test]
fn time_before_the_epoch_is_unknown() {
    assert_eq!(format_time(None), "Unknown");
    let before = UNIX_EPOCH - Duration::from_secs(1);
    assert_eq!(format_time(since_epoch(before)), system_format_time(before));
}

#[test]
fn time_agrees_with_system_time() {
    let mut x: u64 = 12345;
    for _ in 0..20_000 {
        x = x.wrapping_mul(6364136223846793005).wrapping_add(1442695040888963407);
        let secs = x % 20_000_000_000;
        let t = UNIX_EPOCH + Duration::from_secs(secs);
        assert_eq!(format_time(since_epoch(t)), system_format_time(t));
    }
}

#[test]
fn time_with_five_digit_years() {
    let secs = u64::MAX;
    let expected = format!(
        "{:04}-{:02}-{:02} {:02}:{:02}",
        1970 + secs / 31_536_000,
        (secs % 31_536_000) / 2_592_000 + 1,
        (secs % 2_592_000) / 86_400 + 1,
        (secs % 86_400) / 3_600,
        (secs % 3_600) / 60
    );
    assert_eq!(format_time(Some(secs)), expected);
}
