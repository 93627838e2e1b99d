pub mod walker;
pub mod exif;
pub mod plan;
