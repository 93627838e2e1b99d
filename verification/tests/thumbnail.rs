use gallerypi::db::queries::MediaItem;
use gallerypi::gallery::row_types::GalleryThumb;
use gallerypi::thumbnail::cache::ThumbnailCache;
use gallerypi::thumbnail::generator::{
    center_crop_rgba, center_square, decode_rgba, encode_thumbnail, render_thumbnail, rgba_to_rgb, thumb_path_for,
    thumbnail_from_bytes, SquareCrop, ThumbnailError,
};
use gallerypi::thumbnail::loader::LoadResult;
use gallerypi::thumbnail::scheduler::{ThumbAction, ThumbScheduler, MAX_LOADED_ITEMS};
use gallerypi::util::hash::thumb_cache_key;

fn result(id: i64, fill: u8) -> LoadResult {
    LoadResult { item_id: id, pixels: vec![fill; 4], width: 1, height: 1 }
}

fn thumb(id: i64, ready: bool, thumb_path: Option<&str>) -> GalleryThumb {
    let item = MediaItem {
        id,
        path: format!("/m/{}.jpg", id),
        mtime: 100 + id,
        media_date: 0,
        year: 2024,
        month: 1,
        media_type: "image".to_string(),
        width: None,
        height: None,
        thumb_path: thumb_path.map(String::from),
        thumb_ready: ready,
    };
    GalleryThumb::from(&item)
}

#[test]
fn thumbnail_file_path() {
    let p = thumb_path_for("/photos/a.jpg", 1_700_000_000, "/cache/thumbs");
    assert_eq!(p, "/cache/thumbs/6434332f58aa3dfc6401d46e39c2d0b8.jpg");
    let q = thumb_path_for("/photos/a.jpg", 5, "/cache/thumbs/");
    assert_eq!(q, format!("/cache/thumbs/{}.jpg", thumb_cache_key("/photos/a.jpg", 5)));
}

#[test]
fn centred_square_crop() {
    assert_eq!(center_square(400, 300), SquareCrop { x: 50, y: 0, side: 300 });
    assert_eq!(center_square(300, 401), SquareCrop { x: 0, y: 50, side: 300 });
    assert_eq!(center_square(7, 7), SquareCrop { x: 0, y: 0, side: 7 });
    assert_eq!(center_square(0, 5), SquareCrop { x: 0, y: 2, side: 0 });
}

#[test]
fn alpha_is_dropped() {
    assert_eq!(rgba_to_rgb(&[1, 2, 3, 4, 5, 6, 7, 8]), vec![1, 2, 3, 5, 6, 7]);
    assert_eq!(rgba_to_rgb(&[]), Vec::<u8>::new());
    assert_eq!(rgba_to_rgb(&[9, 8, 7]), vec![9, 8, 7]);
}

#[test]
fn rendered_thumbnail_is_a_square_jpeg() {
    // A 6x4 image: the centred 4x4 square, shrunk to 2x2.
    let pixels: Vec<u8> = (0..6 * 4).flat_map(|i| [(i * 10) as u8, 100, 200, 255]).collect();
    let jpeg = render_thumbnail(pixels, 6, 4, 2).expect("thumbnail");
    assert_eq!(&jpeg[..2], &[0xFF, 0xD8]);
    assert_eq!(&jpeg[jpeg.len() - 2..], &[0xFF, 0xD9]);
    let decoded = image::load_from_memory(&jpeg).expect("decodes");
    assert_eq!((decoded.width(), decoded.height()), (2, 2));
}

#[test]
fn thumbnail_of_the_square_size_keeps_it() {
    let pixels = vec![128u8; 3 * 3 * 4];
    let jpeg = render_thumbnail(pixels, 3, 3, 3).expect("thumbnail");
    let decoded = image::load_from_memory(&jpeg).expect("decodes").to_rgb8();
    assert_eq!(decoded.dimensions(), (3, 3));
    for p in decoded.pixels() {
        for c in p.0 {
            assert!((c as i32 - 128).abs() <= 2);
        }
    }
}

#[test]
fn zero_sized_thumbnail_is_refused() {
    assert_eq!(render_thumbnail(vec![0; 16], 2, 2, 0), Err(ThumbnailError::Encode));
}

#[test]
fn lru_cache_evicts_least_recently_used() {
    let mut c = ThumbnailCache::new(2);
    assert!(c.request(1).is_none());
    let shown = c.poll_results(vec![result(1, 10), result(2, 20)]);
    assert_eq!(shown.iter().map(|s| s.0).collect::<Vec<_>>(), vec![1, 2]);
    assert_eq!(shown[1].1, (vec![20; 4], 1, 1));
    // Touch 1 so that 2 is the least recently used.
    assert_eq!(c.request(1), Some((vec![10; 4], 1, 1)));
    c.poll_results(vec![result(3, 30)]);
    assert!(c.request(2).is_none());
    assert_eq!(c.request(1), Some((vec![10; 4], 1, 1)));
    assert_eq!(c.request(3), Some((vec![30; 4], 1, 1)));
    // Storing an existing id replaces its image.
    c.poll_results(vec![result(3, 33)]);
    assert_eq!(c.request(3), Some((vec![33; 4], 1, 1)));
}

#[test]
fn scheduler_generates_then_loads_then_shows() {
    let mut cache = ThumbnailCache::new(10);
    let mut s = ThumbScheduler::new();
    s.begin_rows();
    let not_ready = thumb(1, false, None);
    let ready = thumb(2, true, Some("/t/2.jpg"));
    let actions = s.visit_row(&mut cache, &[not_ready.clone(), ready.clone()]);
    assert_eq!(actions.len(), 2);
    match &actions[0] {
        ThumbAction::Generate(job) => {
            assert_eq!((job.item_id, job.path.as_str(), job.mtime), (1, "/m/1.jpg", 101));
        }
        _ => panic!("expected a generation job"),
    }
    match &actions[1] {
        ThumbAction::Load { item_id, thumb_path } => assert_eq!((*item_id, thumb_path.as_str()), (2, "/t/2.jpg")),
        _ => panic!("expected a load"),
    }
    // Seeing the same row again asks for nothing new.
    assert!(s.visit_row(&mut cache, &[not_ready.clone(), ready.clone()]).is_empty());
    // The generated thumbnail is not cached yet: it is loaded.
    match s.on_generated(&mut cache, 1, "/t/1.jpg".to_string()) {
        ThumbAction::Load { item_id, .. } => assert_eq!(item_id, 1),
        _ => panic!("expected a load"),
    }
    let shown = s.on_loaded(&mut cache, vec![result(1, 7), result(2, 8)]);
    assert_eq!(shown.len(), 2);
    // Shown thumbnails are not asked for again.
    assert!(s.visit_row(&mut cache, &[not_ready, ready]).is_empty());
}

#[test]
fn scheduler_shows_cached_thumbnails() {
    let mut cache = ThumbnailCache::new(10);
    cache.poll_results(vec![result(5, 9)]);
    let mut s = ThumbScheduler::new();
    let actions = s.visit_row(&mut cache, &[thumb(5, true, Some("/t/5.jpg"))]);
    match &actions[..] {
        [ThumbAction::Show { item_id, thumb }] => {
            assert_eq!(*item_id, 5);
            assert_eq!(thumb, &(vec![9; 4], 1, 1));
        }
        _ => panic!("expected one cached thumbnail"),
    }
    match s.on_generated(&mut cache, 5, "/t/5.jpg".to_string()) {
        ThumbAction::Show { item_id, .. } => assert_eq!(item_id, 5),
        _ => panic!("expected the cached thumbnail"),
    }
}

#[test]
fn ready_thumbnail_without_path_is_left_alone() {
    let mut cache = ThumbnailCache::new(4);
    let mut s = ThumbScheduler::new();
    assert!(s.visit_row(&mut cache, &[thumb(9, true, None)]).is_empty());
}

#[test]
fn hidden_thumbnails_are_evicted_past_the_limit() {
    let mut cache = ThumbnailCache::new(1000);
    let mut s = ThumbScheduler::new();
    let n = MAX_LOADED_ITEMS as i64 + 5;
    let results: Vec<LoadResult> = (0..n).map(|id| result(id, 1)).collect();
    s.on_loaded(&mut cache, results);
    s.begin_rows();
    let visible: Vec<GalleryThumb> = (0..3).map(|id| thumb(id, true, Some("/t/x.jpg"))).collect();
    assert!(s.visit_row(&mut cache, &visible).is_empty());
    let mut evicted = s.evict_hidden();
    evicted.sort();
    assert_eq!(evicted, (3..n).collect::<Vec<_>>());
    // Below the limit nothing more is evicted.
    assert!(s.evict_hidden().is_empty());
    // Evicted thumbnails are asked for again when they come back into view.
    let again = s.visit_row(&mut cache, &[thumb(10, true, Some("/t/10.jpg"))]);
    assert_eq!(again.len(), 1);
}

/// PNG bytes of a width x height RGBA image.
fn png_bytes(pixels: Vec<u8>, width: u32, height: u32) -> Vec<u8> {
    let img = image::RgbaImage::from_raw(width, height, pixels).expect("buffer fits");
    let mut out = std::io::Cursor::new(Vec::new());
    img.write_to(&mut out, image::ImageFormat::Png).expect("png encodes");
    out.into_inner()
}

/// A width x height RGBA image whose pixel k is [k, k, k, 255].
fn numbered_pixels(width: u32, height: u32) -> Vec<u8> {
    (0..width * height).flat_map(|k| [k as u8, k as u8, k as u8, 255]).collect()
}

#[test]
fn centre_crop_takes_the_middle_square() {
    // 4x2: the square of side 2 starting at column 1.
    let crop = center_crop_rgba(numbered_pixels(4, 2), 4, 2);
    let ids: Vec<u8> = crop.chunks(4).map(|p| p[0]).collect();
    assert_eq!(ids, vec![1, 2, 5, 6]);
    // 2x5: the square of side 2 starting at row 1.
    let crop = center_crop_rgba(numbered_pixels(2, 5), 2, 5);
    let ids: Vec<u8> = crop.chunks(4).map(|p| p[0]).collect();
    assert_eq!(ids, vec![2, 3, 4, 5]);
}

#[test]
fn thumbnail_is_made_from_the_centre() {
    // 6x2: black, white, black column pairs; only the white middle survives.
    let mut pixels = Vec::new();
    for _row in 0..2 {
        for col in 0..6 {
            let v = if (2..4).contains(&col) { 255 } else { 0 };
            pixels.extend_from_slice(&[v, v, v, 255]);
        }
    }
    let jpeg = render_thumbnail(pixels, 6, 2, 1).expect("thumbnail");
    let decoded = image::load_from_memory(&jpeg).expect("decodes").to_rgb8();
    assert_eq!(decoded.dimensions(), (1, 1));
    assert!(decoded.get_pixel(0, 0).0.iter().all(|&c| c >= 250));
}

#[test]
fn encoded_thumbnail_is_a_jpeg_of_that_size() {
    let jpeg = encode_thumbnail(&vec![200u8; 2 * 2 * 4], 2).expect("encodes");
    assert_eq!(&jpeg[..2], &[0xFF, 0xD8]);
    let decoded = image::load_from_memory(&jpeg).expect("decodes");
    assert_eq!((decoded.width(), decoded.height()), (2, 2));
    assert_eq!(encode_thumbnail(&[], 0), Err(ThumbnailError::Encode));
}

#[test]
fn png_bytes_decode_to_their_pixels() {
    let pixels = numbered_pixels(3, 2);
    let bytes = png_bytes(pixels.clone(), 3, 2);
    assert_eq!(decode_rgba(&bytes, "png"), Ok((pixels.clone(), 3, 2)));
    assert_eq!(decode_rgba(&bytes, "PNG"), Ok((pixels, 3, 2)));
}

#[test]
fn undecodable_images_are_refused() {
    let bytes = png_bytes(numbered_pixels(2, 2), 2, 2);
    assert_eq!(decode_rgba(&bytes, "txt"), Err(ThumbnailError::Decode));
    assert_eq!(decode_rgba(&bytes, ""), Err(ThumbnailError::Decode));
    assert_eq!(decode_rgba(b"garbage", "png"), Err(ThumbnailError::Decode));
    assert_eq!(thumbnail_from_bytes(b"garbage", "jpg", 4), Err(ThumbnailError::Decode));
}

#[test]
fn thumbnail_from_image_file_bytes() {
    let bytes = png_bytes(numbered_pixels(6, 4), 6, 4);
    let jpeg = thumbnail_from_bytes(&bytes, "png", 3).expect("thumbnail");
    let decoded = image::load_from_memory(&jpeg).expect("decodes");
    assert_eq!((decoded.width(), decoded.height()), (3, 3));
    assert_eq!(thumbnail_from_bytes(&bytes, "png", 0), Err(ThumbnailError::Encode));
}
