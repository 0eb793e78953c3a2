//! Elden Ring save files: the BND4 section table, the characters found by
//! their stat anchor, in-memory edits that keep section checksums, the
//! goods inventory, and the small text helpers of the front-ends.
use vstd::prelude::*;

pub mod bnd4;
pub mod bytes;
pub mod cli;
pub mod frame_laws;
pub mod item_db;
pub mod keep_laws;
pub mod laws;
pub mod save;
pub mod screen;
pub mod screen_text;
pub mod snapshots;
pub mod steam_laws;
pub mod success_laws;
pub mod text;
pub mod utf16;

pub use bnd4::{parse_characters, read_steam_id, section_body, Character, Section};
pub use item_db::{common_items, item_db, item_name, item_search, ItemDef};
pub use save::SaveFile;
pub use snapshots::{backups_to_prune, newest_first, SnapshotInfo, StableWait, MAX_BACKUPS};
pub use text::{display_slot, fmt_relative, validate_slot, QUICK_SLOT};

verus! {

} // verus!
