//! A small directory-listing library: entries are classified by filesystem
//! type, optionally sorted by name, creation time, modification time or size,
//! optionally grouped directories-first, and rendered with terminal styling.
pub mod casefold;
pub mod entry;
pub mod input;
pub mod listing;
pub mod order;
pub mod perms;
pub mod render;
pub mod text_effects;
