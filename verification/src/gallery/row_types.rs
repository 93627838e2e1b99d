use vstd::prelude::*;
use crate::db::queries::{MediaItem, opt_str_view, clone_opt_string};

verus! {

/// Maximum columns a gallery row can show.
pub const MAX_COLS: usize = 6;

/// One cell of the gallery grid.
#[derive(Debug, Clone)]
pub struct GalleryThumb {
    pub item_id: i64,
    pub path: String,
    pub thumb_path: Option<String>,
    pub thumb_ready: bool,
    pub media_type: String,
    pub mtime: i64,
}

impl GalleryThumb {
    /// The cell shows `item`: it carries the item's id, path, thumbnail state,
    /// media type and modification time.
    pub open spec fn depicts(self, item: MediaItem) -> bool {
        &&& self.item_id == item.id
        &&& self.path@ == item.path@
        &&& opt_str_view(self.thumb_path) == opt_str_view(item.thumb_path)
        &&& self.thumb_ready == item.thumb_ready
        &&& self.media_type@ == item.media_type@
        &&& self.mtime == item.mtime
    }

    /// A field-by-field copy of the cell.
    pub fn duplicate(&self) -> (t: GalleryThumb)
        ensures
            t.item_id == self.item_id,
            t.path@ == self.path@,
            opt_str_view(t.thumb_path) == opt_str_view(self.thumb_path),
            t.thumb_ready == self.thumb_ready,
            t.media_type@ == self.media_type@,
            t.mtime == self.mtime,
    {
        GalleryThumb {
            item_id: self.item_id,
            path: self.path.clone(),
            thumb_path: clone_opt_string(&self.thumb_path),
            thumb_ready: self.thumb_ready,
            media_type: self.media_type.clone(),
            mtime: self.mtime,
        }
    }
}

impl<'a> From<&'a MediaItem> for GalleryThumb {
    /// The grid cell for a media item.
    fn from(item: &'a MediaItem) -> (t: GalleryThumb) {
        GalleryThumb {
            item_id: item.id,
            path: item.path.clone(),
            thumb_path: clone_opt_string(&item.thumb_path),
            thumb_ready: item.thumb_ready,
            media_type: item.media_type.clone(),
            mtime: item.mtime,
        }
    }
}

impl<'a> vstd::std_specs::convert::FromSpecImpl<&'a MediaItem> for GalleryThumb {
    open spec fn obeys_from_spec() -> bool {
        true
    }

    /// The cell carries the item's id, path, thumbnail state, media type and
    /// modification time.
    open spec fn from_spec(item: &'a MediaItem) -> GalleryThumb {
        GalleryThumb {
            item_id: item.id,
            path: item.path,
            thumb_path: item.thumb_path,
            thumb_ready: item.thumb_ready,
            media_type: item.media_type,
            mtime: item.mtime,
        }
    }
}

/// One row of the gallery: a month header or a row of thumbnails.
#[derive(Debug, Clone)]
pub enum GalleryRow {
    MonthHeader { label: String, year: i32, month: i32 },
    ImageRow { items: Vec<GalleryThumb> },
}

impl GalleryRow {
    /// Whether the row is a month header.
    pub fn is_header(&self) -> (r: bool)
        ensures
            r <==> self is MonthHeader,
    {
        match self {
            GalleryRow::MonthHeader { .. } => true,
            GalleryRow::ImageRow { .. } => false,
        }
    }
}

} // verus!
