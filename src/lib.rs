pub mod address;
pub mod diff;
pub mod key_path;
pub mod listing;
pub mod sync;
