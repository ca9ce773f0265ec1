//! What the capture loop decides: which interface, what to count, when to
//! stop.

pub mod device;
pub mod session;

pub use device::{device_label, find_device, list_devices, Device};
pub use session::{CaptureError, CaptureStats};
