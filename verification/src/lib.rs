//! The logic of a USB mouse jiggler: the device's lifecycle chart, what it
//! shows on its LED, what it sends to the host, and the workday model that its
//! timing is tuned on.
pub mod config;
pub mod rng;
pub mod tuning;
pub mod rank;
pub mod text;
pub mod chart;
pub mod lifecycle;
pub mod led;
pub mod mouse;
pub mod kbd;
pub mod usb;
