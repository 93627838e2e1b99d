//! Verified core of a photo and video gallery for small Linux devices: the
//! month-grouped gallery layout, the media scanner's bookkeeping, the viewer's
//! navigation and preload planning, configuration defaults, thumbnail naming,
//! rendering, caching and scheduling, and the decisions of the video playback
//! loop.
pub mod util;
pub mod db;
pub mod gallery;
pub mod viewer;
pub mod scanner;
pub mod config;
pub mod video;
pub mod thumbnail;
