use gallerypi::scanner::exif::{exif_datetime_slices_cleanly, extract_date, extract_date_from_bytes, parse_exif_datetime};
use gallerypi::scanner::plan::{
    needs_indexing, new_media_item, plan_dir_scan, progress_event, select_all_records, select_orphans, ScanEvent,
};
use gallerypi::scanner::walker::{enters_dir, media_type_for_path, walk_media};
use gallerypi::util::time::timestamp_to_year_month;

#[test]
fn media_types_by_extension() {
    assert_eq!(media_type_for_path("/a/b/photo.jpg"), Some("image"));
    assert_eq!(media_type_for_path("/a/b/PHOTO.JPEG"), Some("image"));
    assert_eq!(media_type_for_path("x.png"), Some("image"));
    assert_eq!(media_type_for_path("x.WebP"), Some("image"));
    assert_eq!(media_type_for_path("/v/clip.MP4"), Some("video"));
    assert_eq!(media_type_for_path("/v/clip.mov"), None);
    assert_eq!(media_type_for_path("/v/notes.txt"), None);
    assert_eq!(media_type_for_path("/v/noext"), None);
    assert_eq!(media_type_for_path("/v/.jpg"), None);
    assert_eq!(media_type_for_path("/v/.hidden.png"), Some("image"));
    assert_eq!(media_type_for_path("/v/archive.tar.jpg"), Some("image"));
    assert_eq!(media_type_for_path("/v/dir.jpg/file"), None);
    assert_eq!(media_type_for_path("/v/trailingdot."), None);
}

#[test]
fn walk_keeps_media_in_order() {
    let paths = vec![
        "/m/a.jpg".to_string(),
        "/m/readme.md".to_string(),
        "/m/b.mp4".to_string(),
        "/m/c.png".to_string(),
    ];
    let files = walk_media(paths);
    let got: Vec<(String, &str)> = files.iter().map(|f| (f.path.clone(), f.media_type)).collect();
    assert_eq!(
        got,
        vec![
            ("/m/a.jpg".to_string(), "image"),
            ("/m/b.mp4".to_string(), "video"),
            ("/m/c.png".to_string(), "image"),
        ]
    );
}

#[test]
fn skipped_directories_are_not_entered() {
    let skip = vec!["/m/2023".to_string(), "/m/old".to_string()];
    assert!(!enters_dir("/m/old", &skip));
    assert!(enters_dir("/m/new", &skip));
    assert!(enters_dir("/m", &Vec::new()));
}

#[test]
fn skipped_directories_compare_by_components() {
    let skip = vec!["/m/old".to_string(), "./rel".to_string()];
    assert!(!enters_dir("/m/old/", &skip));
    assert!(!enters_dir("/m//old", &skip));
    assert!(!enters_dir("/m/./old", &skip));
    assert!(enters_dir("/m/older", &skip));
    assert!(enters_dir("m/old", &skip));
    assert!(enters_dir("/m/old/..", &skip));
    assert!(!enters_dir("./rel/", &skip));
    assert!(enters_dir("rel", &skip));
}

#[test]
fn exif_dates() {
    assert_eq!(parse_exif_datetime("2024:01:15 10:30:00"), Some(1_705_314_600));
    assert_eq!(parse_exif_datetime("2023:04:15 14:22:01\0"), Some(1_681_568_521));
    assert_eq!(parse_exif_datetime("  2024:01:15 10:30:00  "), Some(1_705_314_600));
    assert_eq!(parse_exif_datetime("2024:02:30 10:00:00"), None);
    assert_eq!(parse_exif_datetime("2024:01:15 25:00:00"), None);
    assert_eq!(parse_exif_datetime("abcd:01:15 10:30:00"), None);
    assert_eq!(parse_exif_datetime("2024:01:15"), None);
    assert_eq!(parse_exif_datetime(""), None);
    assert_eq!(parse_exif_datetime("2024-01-15T10:30:00"), Some(1_705_314_600));
}

#[test]
fn exif_text_that_would_split_a_character() {
    assert!(exif_datetime_slices_cleanly("2024:01:15 10:30:00"));
    assert!(!exif_datetime_slices_cleanly("202é:01:15 10:30:00"));
}

#[test]
fn media_date_falls_back_to_mtime() {
    assert_eq!(extract_date(Some("2024:01:15 10:30:00"), 7), 1_705_314_600);
    assert_eq!(extract_date(Some("garbage"), 7), 7);
    assert_eq!(extract_date(None, 42), 42);
}

#[test]
fn directory_scan_plan() {
    let cache = vec![
        ("/m".to_string(), 100),
        ("/m/a".to_string(), 200),
        ("/m/gone".to_string(), 300),
    ];
    let walked = vec![
        ("/m".to_string(), 100),
        ("/m/a".to_string(), 201),
        ("/m/new".to_string(), 50),
    ];
    let plan = plan_dir_scan(&cache, &walked);
    assert_eq!(plan.unchanged, vec!["/m".to_string()]);
    assert_eq!(plan.changed, vec![("/m/a".to_string(), 201), ("/m/new".to_string(), 50)]);
    assert_eq!(plan.removed, vec!["/m/gone".to_string()]);
}

#[test]
fn indexing_decisions() {
    assert!(!needs_indexing(Some(5), 5));
    assert!(needs_indexing(Some(4), 5));
    assert!(needs_indexing(None, 5));
    let item = new_media_item("/m/a.jpg".to_string(), 10, 1_700_000_000, "image");
    assert_eq!(item.id, 0);
    assert_eq!((item.year, item.month), (2023, 11));
    assert_eq!(item.media_type, "image");
    assert!(item.thumb_path.is_none());
    assert!(!item.thumb_ready);
}

#[test]
fn progress_every_hundred_files() {
    match progress_event(200) {
        Some(ScanEvent::Progress { scanned, total_estimate }) => {
            assert_eq!((scanned, total_estimate), (200, 300));
        }
        _ => panic!("expected progress"),
    }
    assert!(progress_event(201).is_none());
    assert!(matches!(progress_event(0), Some(ScanEvent::Progress { scanned: 0, total_estimate: 100 })));
}

#[test]
fn orphans_are_records_without_files() {
    let records = vec![
        (1, "/m/a.jpg".to_string(), Some("/t/1.jpg".to_string())),
        (2, "/m/b.jpg".to_string(), None),
        (3, "/m/c.jpg".to_string(), Some("/t/3.jpg".to_string())),
    ];
    let files = vec!["/m/a.jpg".to_string()];
    let (ids, thumbs) = select_orphans(&records, &files);
    assert_eq!(ids, vec![2, 3]);
    assert_eq!(thumbs, vec!["/t/3.jpg".to_string()]);
    let (all, all_thumbs) = select_all_records(&records);
    assert_eq!(all, vec![1, 2, 3]);
    assert_eq!(all_thumbs, vec!["/t/1.jpg".to_string(), "/t/3.jpg".to_string()]);
}

#[test]
fn exif_dates_file_under_their_month() {
    for (text, ym) in [
        ("2024:01:15 10:30:00", (2024, 1)),
        ("2024:02:29 23:59:59", (2024, 2)),
        ("2023:12:31 23:59:59", (2023, 12)),
        ("2000:03:01 00:00:00", (2000, 3)),
        ("1969:12:31 23:59:59", (1969, 12)),
        ("0001:01:01 00:00:00", (1, 1)),
    ] {
        let ts = parse_exif_datetime(text).expect("a valid date");
        assert_eq!(timestamp_to_year_month(ts), ym, "{}", text);
    }
}

#[test]
fn rescan_of_unchanged_tree_skips_everything() {
    let cache = vec![("/m".to_string(), 1), ("/m/a".to_string(), 2)];
    let walked = vec![("/m".to_string(), 1), ("/m/a".to_string(), 3), ("/m/b".to_string(), 4)];
    let first = plan_dir_scan(&cache, &walked);
    assert_eq!(first.changed.len(), 2);
    let mut next = first.changed.clone();
    next.extend(cache.iter().cloned());
    let second = plan_dir_scan(&next, &walked);
    assert!(second.changed.is_empty());
    assert_eq!(second.unchanged, vec!["/m".to_string(), "/m/a".to_string(), "/m/b".to_string()]);
    assert!(second.removed.is_empty());
}

/// A little-endian TIFF whose primary image has an Exif IFD holding one
/// DateTimeOriginal field with the given text (NUL-terminated).
fn tiff_with_date_original(text: &[u8]) -> Vec<u8> {
    let count = (text.len() + 1) as u32;
    let mut b: Vec<u8> = vec![b'I', b'I', 42, 0, 8, 0, 0, 0];
    // IFD0: one entry, the Exif IFD pointer (LONG) to offset 26.
    b.extend_from_slice(&1u16.to_le_bytes());
    b.extend_from_slice(&0x8769u16.to_le_bytes());
    b.extend_from_slice(&4u16.to_le_bytes());
    b.extend_from_slice(&1u32.to_le_bytes());
    b.extend_from_slice(&26u32.to_le_bytes());
    b.extend_from_slice(&0u32.to_le_bytes());
    // Exif IFD: one entry, DateTimeOriginal (ASCII) at offset 44.
    b.extend_from_slice(&1u16.to_le_bytes());
    b.extend_from_slice(&0x9003u16.to_le_bytes());
    b.extend_from_slice(&2u16.to_le_bytes());
    b.extend_from_slice(&count.to_le_bytes());
    b.extend_from_slice(&44u32.to_le_bytes());
    b.extend_from_slice(&0u32.to_le_bytes());
    assert_eq!(b.len(), 44);
    b.extend_from_slice(text);
    b.push(0);
    b
}

#[test]
fn exif_date_read_from_file_bytes() {
    let bytes = tiff_with_date_original(b"2023:04:15 14:22:01");
    assert_eq!(extract_date_from_bytes(&bytes, 7), Some(1681568521));
}

#[test]
fn file_bytes_without_exif_date_give_mtime() {
    assert_eq!(extract_date_from_bytes(&[], 42), Some(42));
    assert_eq!(extract_date_from_bytes(b"not an image at all", 42), Some(42));
    let bytes = tiff_with_date_original(b"2023:02:30 10:00:00");
    assert_eq!(extract_date_from_bytes(&bytes, 42), Some(42));
}

#[test]
fn exif_date_in_file_bytes_that_would_split_a_character() {
    let bytes = tiff_with_date_original("2023:04:1\u{e9}14:22:01".as_bytes());
    assert_eq!(extract_date_from_bytes(&bytes, 42), None);
}
