//! Profile manager core: layered config merging, profile lifecycle with an
//! applied-state machine, cross-platform path handling for a shared artifact
//! repository, and tray-menu rendering, all with verified contracts.

pub mod errors;
pub mod strutil;
pub mod paths;
pub mod json;
pub mod toml_merge;
pub mod store;
pub mod apply;
pub mod tray;
pub mod adapter;
