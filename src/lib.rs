pub mod marker;
pub mod mjpeg_marker;
pub mod hub;
pub mod session;

pub use session::HttpBounderError;
