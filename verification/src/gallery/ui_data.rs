use vstd::prelude::*;

verus! {

/// A grid cell as the user interface receives it (its image is filled in
/// once the thumbnail has loaded).
pub struct ThumbnailData {
    pub item_id: i32,
    pub thumb_ready: bool,
    pub media_type: String,
}

/// A gallery row as the user interface receives it.
pub struct GalleryRowData {
    pub is_header: bool,
    pub header_label: String,
    pub item_count: i32,
    pub items: Vec<ThumbnailData>,
}

/// A month-scroller entry as the user interface receives it.
pub struct MonthEntryData {
    pub label: String,
    pub year: i32,
    pub month: i32,
    pub row_index: i32,
}

} // verus!
