//! Tools for writing raw OS images to SD cards and USB sticks.
//!
//! The crate has three parts: a device catalog that enumerates candidate
//! target devices and resolves a user-supplied name or path to a canonical
//! device path; a burn engine that streams the bytes of an image to a device
//! while keeping a running SHA-256 digest for optional verification; and the
//! progress-event protocol through which one burn operation reports its
//! lifecycle (`Start`, repeated `Progress`, then `End` or `Error`) to a
//! consumer.

pub mod catalog;
pub mod engine;
pub mod progress;

pub use catalog::{device_path, get_device_size, Device, DeviceView, LinkEntry, ResolveError};
pub use engine::{burn_buffer, BurnConfig, BurnEngine, BurnSetting};
pub use progress::Event;
pub use progress::Progress;
