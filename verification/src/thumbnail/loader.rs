use vstd::prelude::*;

verus! {

/// A decoded thumbnail handed back by the loader: RGBA pixels, row by row.
pub struct LoadResult {
    pub item_id: i64,
    pub pixels: Vec<u8>,
    pub width: u32,
    pub height: u32,
}

} // verus!
