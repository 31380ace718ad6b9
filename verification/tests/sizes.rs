use youtubeopen::sizes::{format_duration, format_size};

fn size_in_floating_point(bytes: u64) -> String {
    const UNITS: &[&str] = &["B", "KB", "MB", "GB"];
    let mut size = bytes as f64;
    let mut i = 0;
    while size >= 1024.0 && i < UNITS.len() - 1 {
        size /= 1024.0;
        i += 1;
    }
    if i > 0 {
        format!("{:.1} {}", size, UNITS[i])
    } else {
        format!("{} {}", size as u64, UNITS[i])
    }
}

#[test]
fn sizes_have_suitable_units() {
    for (bytes, text) in [
        (0, "0 B"),
        (1023, "1023 B"),
        (1024, "1.0 KB"),
        (1536, "1.5 KB"),
        (1280, "1.2 KB"),
        (1792, "1.8 KB"),
        (1048575, "1024.0 KB"),
        (1048576, "1.0 MB"),
        (123456789, "117.7 MB"),
        (1073741824, "1.0 GB"),
        (1099511627776, "1024.0 GB"),
        (u64::MAX, "17179869184.0 GB"),
    ] {
        assert_eq!(format_size(bytes), text);
    }
}

#[test]
fn sizes_agree_with_floating_point() {
    let mut n: u64 = 1;
    let mut bytes: u64 = 0x9e37_79b9_7f4a_7c15;
    while n < 20000 {
        bytes = bytes.wrapping_mul(6364136223846793005).wrapping_add(1442695040888963407);
        for shift in [0, 5, 11, 12, 20, 30, 34, 44, 52, 56] {
            let size = bytes >> shift;
            assert_eq!(format_size(size), size_in_floating_point(size), "{}", size);
        }
        n += 1;
    }
    for exponent in 0..64 {
        let power: u64 = 1 << exponent;
        for size in [power - 1, power, power + 1, power + power / 2, power | (power >> 5)] {
            assert_eq!(format_size(size), size_in_floating_point(size), "{}", size);
        }
    }
    for size in 0..70000u64 {
        assert_eq!(format_size(size), size_in_floating_point(size), "{}", size);
    }
}

#[test]
fn neighbours_of_large_sizes_agree_with_floating_point() {
    for base in [1u64 << 53, 1 << 54, 1 << 60, 1 << 63, u64::MAX - 4096] {
        for step in 0..4096 {
            let size = base + step;
            assert_eq!(format_size(size), size_in_floating_point(size), "{}", size);
        }
    }
}

#[test]
fn durations_have_two_digits() {
    for (seconds, text) in [
        (0, "0:00"),
        (5, "0:05"),
        (65, "1:05"),
        (600, "10:00"),
        (3599, "59:59"),
        (3600, "1:00:00"),
        (3661, "1:01:01"),
        (360000, "100:00:00"),
        (u64::MAX, "5124095576030431:00:15"),
    ] {
        assert_eq!(format_duration(seconds), text);
    }
}

#[test]
fn the_parts_of_a_duration_add_up() {
    for seconds in [59u64, 60, 3599, 3600, 86399, 90061] {
        let text = format_duration(seconds);
        let parts: Vec<u64> = text.split(':').map(|p| p.parse().unwrap()).collect();
        let total = parts.iter().fold(0, |sum, part| sum * 60 + part);
        assert_eq!(total, seconds);
    }
}
