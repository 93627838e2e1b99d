pub mod row_types;
pub mod month_model;
pub mod model;
pub mod laws;
pub mod controller;
pub mod ui_data;

pub use controller::GalleryController;
