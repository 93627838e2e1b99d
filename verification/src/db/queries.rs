use vstd::prelude::*;

verus! {

/// One indexed media file, as stored in the `media_items` table.
#[derive(Debug, Clone)]
pub struct MediaItem {
    pub id: i64,
    pub path: String,
    pub mtime: i64,
    pub media_date: i64,
    pub year: i32,
    pub month: i32,
    pub media_type: String,
    pub width: Option<i32>,
    pub height: Option<i32>,
    pub thumb_path: Option<String>,
    pub thumb_ready: bool,
}

/// Number of items indexed for one calendar month.
#[derive(Debug, Clone)]
pub struct MonthGroup {
    pub year: i32,
    pub month: i32,
    pub count: i64,
}

/// The content of an optional string.
pub open spec fn opt_str_view(o: Option<String>) -> Option<Seq<char>> {
    match o {
        Some(s) => Some(s@),
        None => None,
    }
}

/// The calendar month an item is filed under.
pub open spec fn month_key(item: MediaItem) -> (i32, i32) {
    (item.year, item.month)
}

/// Copies an optional string.
pub fn clone_opt_string(o: &Option<String>) -> (r: Option<String>)
    ensures
        r == *o,
{
    match o {
        Some(s) => Some(s.clone()),
        None => None,
    }
}

impl MediaItem {
    /// A field-by-field copy of the item.
    pub fn duplicate(&self) -> (r: MediaItem)
        ensures
            r == *self,
    {
        MediaItem {
            id: self.id,
            path: self.path.clone(),
            mtime: self.mtime,
            media_date: self.media_date,
            year: self.year,
            month: self.month,
            media_type: self.media_type.clone(),
            width: self.width,
            height: self.height,
            thumb_path: clone_opt_string(&self.thumb_path),
            thumb_ready: self.thumb_ready,
        }
    }
}

} // verus!
