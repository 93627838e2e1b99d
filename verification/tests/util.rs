use gallerypi::util::base64::to_base64;
use gallerypi::util::hash::thumb_cache_key;
use gallerypi::util::log_throttle::LogThrottle;
use gallerypi::util::pixels::rgb565_to_rgb8;
use gallerypi::util::time::{format_month_label, timestamp_to_year_month};
use std::time::Duration;

#[test]
fn month_labels() {
    assert_eq!(format_month_label(2024, 1), "Jan 2024");
    assert_eq!(format_month_label(2025, 12), "Dec 2025");
    assert_eq!(format_month_label(1999, 5), "May 1999");
    assert_eq!(format_month_label(-44, 3), "Mar -44");
}

#[test]
fn month_label_out_of_range() {
    assert_eq!(format_month_label(2024, 0), "Unk 2024");
    assert_eq!(format_month_label(2024, 13), "Unk 2024");
    // The month is narrowed to a byte first: 257 reads as 1.
    assert_eq!(format_month_label(2024, 257), "Jan 2024");
    assert_eq!(format_month_label(2024, -1), "Unk 2024");
}

#[test]
fn timestamps_to_year_month() {
    assert_eq!(timestamp_to_year_month(0), (1970, 1));
    assert_eq!(timestamp_to_year_month(1_700_000_000), (2023, 11));
    assert_eq!(timestamp_to_year_month(1_705_314_600), (2024, 1));
    assert_eq!(timestamp_to_year_month(-1), (1969, 12));
    // Outside chrono's range the epoch is used.
    assert_eq!(timestamp_to_year_month(i64::MAX), (1970, 1));
}

#[test]
fn thumb_keys() {
    assert_eq!(thumb_cache_key("/photos/a.jpg", 1_700_000_000), "6434332f58aa3dfc6401d46e39c2d0b8");
    assert_eq!(thumb_cache_key("", 0), "af5570f5a1810b7af78caf4bc70a660f");
    let k = thumb_cache_key("/photos/a.jpg", 1);
    assert_eq!(k.len(), 32);
    assert!(k.chars().all(|c| c.is_ascii_hexdigit() && !c.is_ascii_uppercase()));
    assert_ne!(k, thumb_cache_key("/photos/a.jpg", 2));
    assert_eq!(k, thumb_cache_key("/photos/a.jpg", 1));
}

#[test]
fn base64_encoding() {
    assert_eq!(to_base64(b""), "");
    assert_eq!(to_base64(b"f"), "Zg==");
    assert_eq!(to_base64(b"fo"), "Zm8=");
    assert_eq!(to_base64(b"foo"), "Zm9v");
    assert_eq!(to_base64(b"foobar"), "Zm9vYmFy");
    assert_eq!(to_base64(&[0, 255, 16, 1]), "AP8QAQ==");
    assert_eq!(to_base64(&[0xfb, 0xff]), "+/8=");
}

#[test]
fn throttle_first_call_fires_then_waits() {
    let mut t = LogThrottle::with_interval_nanos(1_000);
    assert!(t.should_log_at(5));
    assert!(!t.should_log_at(500));
    assert!(!t.should_log_at(1_004));
    assert!(t.should_log_at(1_005));
    assert!(!t.should_log_at(1_006));
    assert!(t.should_log_at(5_000));
}

#[test]
fn throttle_per_second_with_the_clock() {
    let mut t = LogThrottle::per_second();
    assert!(t.should_log());
    assert!(!t.should_log());
    let mut z = LogThrottle::new(Duration::from_secs(0));
    assert!(z.should_log());
    assert!(z.should_log());
}

#[test]
fn rgb565_pixels_widen_to_bytes() {
    assert_eq!(rgb565_to_rgb8(&[0xFFFF, 0x0000]), vec![255, 255, 255, 0, 0, 0]);
    assert_eq!(rgb565_to_rgb8(&[0xF800, 0x07E0, 0x001F]), vec![255, 0, 0, 0, 255, 0, 0, 0, 255]);
    assert_eq!(rgb565_to_rgb8(&[0x8410]), vec![132, 130, 132]);
    assert!(rgb565_to_rgb8(&[]).is_empty());
}

#[test]
fn throttle_messages_fire_an_interval_apart() {
    let mut t = LogThrottle::with_interval_nanos(100);
    let readings: Vec<u128> = vec![0, 10, 99, 100, 150, 199, 200, 201, 350, 351, 449, 450];
    let fired: Vec<u128> = readings.iter().copied().filter(|&now| t.should_log_at(now)).collect();
    assert_eq!(fired, vec![0, 100, 200, 350, 450]);
    for pair in fired.windows(2) {
        assert!(pair[1] - pair[0] >= 100);
    }
}

/// Decodes padded base64 text, for checking the encoder.
fn from_base64(text: &str) -> Vec<u8> {
    let value = |c: u8| -> u32 {
        match c {
            b'A'..=b'Z' => (c - b'A') as u32,
            b'a'..=b'z' => (c - b'a') as u32 + 26,
            b'0'..=b'9' => (c - b'0') as u32 + 52,
            b'+' => 62,
            _ => 63,
        }
    };
    let mut out = Vec::new();
    for g in text.as_bytes().chunks(4) {
        let n = (value(g[0]) << 18) | (value(g[1]) << 12) | (value(g[2]) << 6) | value(g[3]);
        out.push((n >> 16) as u8);
        if g[2] != b'=' {
            out.push((n >> 8) as u8);
        }
        if g[3] != b'=' {
            out.push(n as u8);
        }
    }
    out
}

#[test]
fn base64_decodes_back_to_the_bytes() {
    let samples: Vec<Vec<u8>> = vec![vec![], vec![0], vec![255, 254], b"foobar".to_vec(), (0..=255).collect()];
    for data in samples {
        assert_eq!(from_base64(&to_base64(&data)), data);
    }
}
