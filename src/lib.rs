//! Clipboard history: text normalization, a clip store with per-day
//! deduplication and retention, the clipboard monitor's decisions, and the
//! query façade used by the presentation layer.
pub mod clip;
pub mod monitor;
pub mod normalize;
pub mod query;
pub mod store;
