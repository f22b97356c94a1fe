//! A two-layered map: every key owns a current value, the foreground, and
//! may keep the value that the current one replaced, the background.
//!
//! Values are moved in and out, never cloned. Replacing a key's value keeps
//! exactly one step of history.

pub mod layers;
pub mod overlay;
pub mod table;
pub mod laws;

pub use layers::Layers;
pub use overlay::Overlay;
pub use table::OverlayMap;
