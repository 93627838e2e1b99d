pub mod time;
pub mod hash;
pub mod log_throttle;
pub mod base64;
pub mod pixels;
pub mod calendar;
