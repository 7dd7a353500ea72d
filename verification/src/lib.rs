//! Verified core of a shop-floor inventory tool: catalog loading from
//! delimiter-separated text, a unified inventory view, single-level BOM
//! explosion with clamped stock consumption, and an append-only build ledger.

pub mod explode;
pub mod inventory;
pub mod laws;
pub mod ledger;
pub mod model;
pub mod parse;
pub mod qty;
pub mod render;
pub mod snapshot;
pub mod text;

pub use explode::update_stock_after_build;
pub use inventory::create_unified_inventory;
pub use ledger::{history_append_lines, make_build_record, new_build_record};
pub use model::{
    Assembly, BomItem, BuildHistoryRecord, DataError, DataSnapshot, InventoryItem, Part, StockRow,
};
pub use qty::Qty;
pub use render::render_stock_csv;
pub use snapshot::{build_snapshot, main_inventory_from_source, panel_history_from_source};
