use gallerypi::db::queries::MediaItem;
use gallerypi::gallery::model::{build_rows, row_to_slint};
use gallerypi::gallery::month_model::{to_slint, MonthEntry};
use gallerypi::gallery::row_types::{GalleryRow, GalleryThumb, MAX_COLS};
use gallerypi::gallery::GalleryController;

fn item(id: i64, year: i32, month: i32, media_type: &str) -> MediaItem {
    MediaItem {
        id,
        path: format!("/media/{}-{:02}/img{}.jpg", year, month, id),
        mtime: 1_700_000_000 + id,
        media_date: 1_700_000_000 + id,
        year,
        month,
        media_type: media_type.to_string(),
        width: None,
        height: None,
        thumb_path: None,
        thumb_ready: false,
    }
}

fn month_items(year: i32, month: i32, first_id: i64, count: i64) -> Vec<MediaItem> {
    (0..count).map(|k| item(first_id + k, year, month, "image")).collect()
}

fn row_ids(row: &GalleryRow) -> Option<Vec<i64>> {
    match row {
        GalleryRow::ImageRow { items } => Some(items.iter().map(|t| t.item_id).collect()),
        GalleryRow::MonthHeader { .. } => None,
    }
}

fn header_label(row: &GalleryRow) -> Option<String> {
    match row {
        GalleryRow::MonthHeader { label, .. } => Some(label.clone()),
        GalleryRow::ImageRow { .. } => None,
    }
}

#[test]
fn empty_gallery_has_no_rows() {
    let (rows, months, positions) = build_rows(&[], 4);
    assert!(rows.is_empty());
    assert!(months.is_empty());
    assert!(positions.is_empty());
}

#[test]
fn single_month_partial_row() {
    let items = month_items(2025, 4, 1, 3);
    let (rows, months, positions) = build_rows(&items, 4);
    assert_eq!(rows.len(), 2);
    assert_eq!(header_label(&rows[0]), Some("Apr 2025".to_string()));
    assert!(rows[0].is_header());
    assert!(!rows[1].is_header());
    assert_eq!(row_ids(&rows[1]), Some(vec![1, 2, 3]));
    assert_eq!(months, vec![(2025, 4, "Apr 2025".to_string(), 0)]);
    assert_eq!(positions.get(&3), Some(&(1, 2)));
}

#[test]
fn single_month_full_rows() {
    let items = month_items(2025, 3, 1, 12);
    let (rows, months, _) = build_rows(&items, 4);
    assert_eq!(rows.len(), 4);
    assert_eq!(row_ids(&rows[1]), Some(vec![1, 2, 3, 4]));
    assert_eq!(row_ids(&rows[2]), Some(vec![5, 6, 7, 8]));
    assert_eq!(row_ids(&rows[3]), Some(vec![9, 10, 11, 12]));
    assert_eq!(months.len(), 1);
    assert_eq!(months[0].2, "Mar 2025");
}

#[test]
fn multi_month_headers_and_row_indices() {
    let mut items = month_items(2025, 4, 1, 6);
    items.extend(month_items(2025, 3, 7, 4));
    items.extend(month_items(2025, 2, 11, 8));
    let (rows, months, positions) = build_rows(&items, 4);
    // Apr: header + 4 + 2; Mar: header + 4; Feb: header + 4 + 4.
    assert_eq!(rows.len(), 8);
    let headers: Vec<usize> = (0..rows.len()).filter(|&r| rows[r].is_header()).collect();
    assert_eq!(headers, vec![0, 3, 5]);
    assert_eq!(row_ids(&rows[2]), Some(vec![5, 6]));
    assert_eq!(
        months.iter().map(|m| (m.0, m.1, m.2.clone(), m.3)).collect::<Vec<_>>(),
        vec![
            (2025, 4, "Apr 2025".to_string(), 0),
            (2025, 3, "Mar 2025".to_string(), 3),
            (2025, 2, "Feb 2025".to_string(), 5),
        ]
    );
    assert_eq!(positions.get(&6), Some(&(2, 1)));
    assert_eq!(positions.get(&11), Some(&(6, 0)));
    assert_eq!(positions.len(), 18);
}

#[test]
fn mixed_media_rows_keep_media_types() {
    let mut items = vec![
        item(1, 2025, 5, "image"),
        item(2, 2025, 5, "video"),
        item(3, 2025, 5, "image"),
        item(4, 2025, 5, "video"),
        item(5, 2025, 5, "video"),
    ];
    items.push(item(8, 2025, 4, "video"));
    let (rows, months, _) = build_rows(&items, 4);
    assert_eq!(rows.len(), 5);
    match &rows[2] {
        GalleryRow::ImageRow { items } => {
            assert_eq!(items.len(), 1);
            assert_eq!(items[0].media_type, "video");
        }
        _ => panic!("expected an image row"),
    }
    assert_eq!(months[1].3, 3);
}

#[test]
fn large_gallery_every_item_once_in_order() {
    let mut items = Vec::new();
    let mut id = 1;
    for month in (1..=10).rev() {
        items.extend(month_items(2024, month, id, 8));
        id += 8;
    }
    let (rows, months, positions) = build_rows(&items, MAX_COLS);
    let shown: Vec<i64> = rows.iter().filter_map(row_ids).flatten().collect();
    let expected: Vec<i64> = items.iter().map(|i| i.id).collect();
    assert_eq!(shown, expected);
    assert_eq!(months.len(), 10);
    assert_eq!(months[0].2, "Oct 2024");
    assert_eq!(months[9].2, "Jan 2024");
    for (k, it) in items.iter().enumerate() {
        let (r, c) = positions[&it.id];
        assert_eq!(row_ids(&rows[r]).unwrap()[c], it.id, "item {}", k);
    }
}

#[test]
fn one_column_layout() {
    let items = month_items(2023, 7, 1, 3);
    let (rows, _, _) = build_rows(&items, 1);
    assert_eq!(rows.len(), 4);
    assert_eq!(row_ids(&rows[3]), Some(vec![3]));
}

#[test]
fn month_entry_label_and_slint_conversion() {
    let e = MonthEntry::new(2024, 1, 7);
    assert_eq!(e.label, "Jan 2024");
    let d = to_slint(&e);
    assert_eq!(d.label, "Jan 2024");
    assert_eq!((d.year, d.month, d.row_index), (2024, 1, 7));
}

#[test]
fn row_data_for_header_and_image_rows() {
    let header = GalleryRow::MonthHeader { label: "Mar 2025".to_string(), year: 2025, month: 3 };
    let d = row_to_slint(&header);
    assert!(d.is_header);
    assert_eq!(d.header_label, "Mar 2025");
    assert_eq!(d.item_count, 0);
    assert!(d.items.is_empty());

    let it = item(42, 2025, 3, "video");
    let row = GalleryRow::ImageRow { items: vec![GalleryThumb::from(&it)] };
    let d = row_to_slint(&row);
    assert!(!d.is_header);
    assert_eq!(d.header_label, "");
    assert_eq!(d.item_count, 1);
    assert_eq!(d.items[0].item_id, 42);
    assert!(!d.items[0].thumb_ready);
    assert_eq!(d.items[0].media_type, "video");
}

#[test]
fn controller_lookups() {
    let mut items = month_items(2025, 4, 1, 6);
    items.extend(month_items(2025, 3, 7, 4));
    let mut g = GalleryController::new(4);
    assert!(g.random_month().is_none());
    g.reload(items);
    assert_eq!(g.n_cols(), 4);
    assert_eq!(g.rows().len(), 5);
    assert_eq!(g.month_entries().len(), 2);
    assert_eq!(g.row_index_for_month(2025, 3), Some(3));
    assert_eq!(g.row_index_for_month(2024, 3), None);
    let march: Vec<i64> = g.items_in_month(2025, 3).iter().map(|i| i.id).collect();
    assert_eq!(march, vec![7, 8, 9, 10]);
    assert_eq!(g.item_by_id(9).map(|i| i.month), Some(3));
    assert!(g.item_by_id(99).is_none());
    assert_eq!(g.items_in_row(2).iter().map(|t| t.item_id).collect::<Vec<_>>(), vec![5, 6]);
    assert!(g.items_in_row(0).is_empty());
    assert!(g.items_in_row(50).is_empty());
    assert_eq!(g.cell_of(8), Some((4, 1)));
    assert_eq!(g.cell_of(100), None);
    let m = g.random_month().expect("a month");
    assert!(m.row_index == 0 || m.row_index == 3);
    assert_eq!(g.month_at_seed(3).map(|m| m.month), Some(3));
}

#[test]
fn thumbnail_cells_shown_and_cleared() {
    let mut g = GalleryController::new(4);
    g.reload(month_items(2025, 4, 1, 6));
    assert_eq!(g.clear_thumbnail(5), None);
    assert_eq!(g.update_thumbnail(5), Some((2, 0)));
    assert_eq!(g.update_thumbnail(99), None);
    assert_eq!(g.clear_thumbnail(5), Some((2, 0)));
    assert_eq!(g.clear_thumbnail(5), None);
    g.update_thumbnail(1);
    g.reload(month_items(2025, 4, 1, 6));
    assert_eq!(g.clear_thumbnail(1), None);
}

#[test]
fn month_model_for_the_scroller() {
    let mut items = month_items(2025, 4, 1, 6);
    items.extend(month_items(2025, 3, 7, 4));
    let mut g = GalleryController::new(4);
    g.reload(items);
    let m = g.build_month_model();
    assert_eq!(m.len(), 2);
    assert_eq!((m[0].label.as_str(), m[0].year, m[0].month, m[0].row_index), ("Apr 2025", 2025, 4, 0));
    assert_eq!((m[1].label.as_str(), m[1].year, m[1].month, m[1].row_index), ("Mar 2025", 2025, 3, 3));
}

#[test]
fn row_model_marks_shown_cells() {
    let mut g = GalleryController::new(4);
    g.reload(month_items(2025, 4, 1, 6));
    g.update_thumbnail(2);
    let rows = g.row_model();
    assert_eq!(rows.len(), 3);
    assert!(rows[0].is_header);
    assert_eq!(rows[0].header_label, "Apr 2025");
    assert_eq!(rows[1].item_count, 4);
    let ready: Vec<bool> = rows[1].items.iter().map(|c| c.thumb_ready).collect();
    assert_eq!(ready, vec![false, true, false, false]);
    assert_eq!(rows[2].items.iter().map(|c| c.item_id).collect::<Vec<_>>(), vec![5, 6]);
}
