use gallerypi::db::queries::MediaItem;
use gallerypi::viewer::cache::PreloadCache;
use gallerypi::viewer::ViewerController;

fn item(id: i64) -> MediaItem {
    MediaItem {
        id,
        path: format!("/m/{}.jpg", id),
        mtime: 0,
        media_date: 0,
        year: 2024,
        month: 6,
        media_type: "image".to_string(),
        width: None,
        height: None,
        thumb_path: None,
        thumb_ready: false,
    }
}

fn items(n: i64) -> Vec<MediaItem> {
    (1..=n).map(item).collect()
}

#[test]
fn open_at_item_or_first() {
    let mut v = ViewerController::new();
    assert!(v.current_item().is_none());
    v.open(3, items(5));
    assert_eq!(v.current_index, 2);
    assert_eq!(v.current_item().map(|i| i.id), Some(3));
    v.open(99, items(5));
    assert_eq!(v.current_index, 0);
}

#[test]
fn next_and_prev_stop_at_the_ends() {
    let mut v = ViewerController::new();
    v.open(4, items(5));
    assert_eq!(v.go_next().map(|i| i.id), Some(5));
    assert!(v.go_next().is_none());
    assert_eq!(v.current_index, 4);
    assert_eq!(v.go_prev().map(|i| i.id), Some(4));
    v.open(1, items(5));
    assert!(v.go_prev().is_none());
    assert_eq!(v.current_index, 0);
}

#[test]
fn next_then_prev_returns() {
    let mut v = ViewerController::new();
    v.open(2, items(5));
    let start = v.current_index;
    assert!(v.go_next().is_some());
    assert!(v.go_prev().is_some());
    assert_eq!(v.current_index, start);
}

#[test]
fn preload_neighbours_not_cached() {
    let mut v = ViewerController::new();
    v.open(3, items(5));
    assert_eq!(v.preload_paths(1), vec!["/m/2.jpg".to_string(), "/m/4.jpg".to_string()]);
    assert_eq!(
        v.preload_paths(5),
        vec!["/m/1.jpg", "/m/2.jpg", "/m/4.jpg", "/m/5.jpg"].into_iter().map(String::from).collect::<Vec<_>>()
    );
    assert!(v.preload_paths(0).is_empty());
    v.store_preloaded("/m/4.jpg".to_string(), (vec![1, 2, 3, 4], 1, 1));
    assert_eq!(v.preload_paths(1), vec!["/m/2.jpg".to_string()]);
    assert_eq!(v.take_from_cache("/m/4.jpg"), Some((vec![1, 2, 3, 4], 1, 1)));
    assert_eq!(v.take_from_cache("/m/4.jpg"), None);
    assert_eq!(v.preload_paths(1), vec!["/m/2.jpg".to_string(), "/m/4.jpg".to_string()]);
}

#[test]
fn opening_clears_the_cache() {
    let mut v = ViewerController::new();
    v.open(1, items(2));
    v.store_preloaded("/m/2.jpg".to_string(), (vec![0; 4], 1, 1));
    v.open(1, items(2));
    assert_eq!(v.take_from_cache("/m/2.jpg"), None);
}

#[test]
fn preload_cache_map_operations() {
    let mut c = PreloadCache::new();
    assert!(!c.contains_key("/a"));
    c.insert("/a".to_string(), (vec![1], 1, 1));
    c.insert("/a".to_string(), (vec![2], 2, 2));
    assert!(c.contains_key("/a"));
    assert_eq!(c.remove("/a"), Some((vec![2], 2, 2)));
    assert!(!c.contains_key("/a"));
    c.insert("/b".to_string(), (vec![], 0, 0));
    c.clear();
    assert!(!c.contains_key("/b"));
}
