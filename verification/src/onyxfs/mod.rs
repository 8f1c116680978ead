//! OnyxFS: a small journaled filesystem with snapshots.
pub mod bitmap;
pub mod dir;
pub mod disk;
pub mod file;
pub mod format;
pub mod fs;
pub mod readback;
pub mod redo;
pub mod snapshot;
