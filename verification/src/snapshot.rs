//! Building one consistent snapshot from the catalog sources.
//!
//! Each source arrives as the file's text, or as nothing when the file
//! could not be read. The four catalog sources are required: a missing or
//! unparsable one aborts the whole load with an error naming it. The build
//! history is optional — absent or unreadable means an absent history, not
//! a failure — and the unified inventory is derived fresh on every load.

use vstd::prelude::*;
use vstd::string::StringExecFns;
use crate::model::{
    DataSnapshot, DataError, DataErrorV, SnapshotV, BuildHistoryRecord, BuildHistoryRecordV,
    InventoryItem, InventoryItemV, inventory_views, history_views,
};
use crate::parse::{
    parse_assemblies_text, parse_parts_text, parse_bom_text, parse_stock_text,
    parse_history_text, parse_inventory_text, parse_assemblies_csv, parse_parts_csv,
    parse_bom_csv, parse_stock_csv, parse_history_csv, parse_inventory_csv,
};
use crate::inventory::{create_unified_inventory, unified_inventory};
use crate::qty::Qty;

verus! {

pub open spec fn opt_src_view(src: Option<&str>) -> Option<Seq<char>> {
    match src {
        Option::Some(t) => Option::Some(t@),
        Option::None => Option::None,
    }
}

/// What loading a directory's sources must come to: the typed snapshot, or
/// the first error in source order — a required source that could not be
/// read, or the row at which one failed to parse.
pub open spec fn snapshot_outcome(
    assemblies_src: Option<Seq<char>>,
    parts_src: Option<Seq<char>>,
    bom_src: Option<Seq<char>>,
    stock_src: Option<Seq<char>>,
    history_src: Option<Seq<char>>,
) -> Result<SnapshotV, DataErrorV> {
    match assemblies_src {
        Option::None => Result::Err(DataErrorV::Missing { source: "assemblies.csv"@ }),
        Option::Some(at) => match parse_assemblies_text(at) {
            Result::Err(row) => Result::Err(
                DataErrorV::Parse { source: "assemblies.csv"@, row },
            ),
            Result::Ok(avs) => match parts_src {
                Option::None => Result::Err(DataErrorV::Missing { source: "parts.csv"@ }),
                Option::Some(pt) => match parse_parts_text(pt) {
                    Result::Err(row) => Result::Err(
                        DataErrorV::Parse { source: "parts.csv"@, row },
                    ),
                    Result::Ok(pvs) => match bom_src {
                        Option::None => Result::Err(
                            DataErrorV::Missing { source: "bom_items.csv"@ },
                        ),
                        Option::Some(bt) => match parse_bom_text(bt) {
                            Result::Err(row) => Result::Err(
                                DataErrorV::Parse { source: "bom_items.csv"@, row },
                            ),
                            Result::Ok(bvs) => match stock_src {
                                Option::None => Result::Err(
                                    DataErrorV::Missing { source: "stock.csv"@ },
                                ),
                                Option::Some(st) => match parse_stock_text(st) {
                                    Result::Err(row) => Result::Err(
                                        DataErrorV::Parse { source: "stock.csv"@, row },
                                    ),
                                    Result::Ok(svs) => Result::Ok(
                                        SnapshotV {
                                            assemblies: avs,
                                            parts: pvs,
                                            bom_items: bvs,
                                            stock: svs,
                                            build_history: match history_src {
                                                Option::None => Option::None,
                                                Option::Some(ht) => match parse_history_text(ht) {
                                                    Result::Ok(hv) => Option::Some(hv),
                                                    Result::Err(_) => Option::None,
                                                },
                                            },
                                            inventory: Option::Some(unified_inventory(pvs, svs)),
                                        },
                                    ),
                                },
                            },
                        },
                    },
                },
            },
        },
    }
}

/// Builds the snapshot from the sources' text: all four catalog sources
/// required and strictly parsed, history tolerated missing or bad, the
/// unified inventory derived from parts and stock.
pub fn build_snapshot(
    assemblies_src: Option<&str>,
    parts_src: Option<&str>,
    bom_src: Option<&str>,
    stock_src: Option<&str>,
    history_src: Option<&str>,
) -> (r: Result<DataSnapshot, DataError>)
    ensures
        match r {
            Result::Ok(snap) => snapshot_outcome(
                opt_src_view(assemblies_src),
                opt_src_view(parts_src),
                opt_src_view(bom_src),
                opt_src_view(stock_src),
                opt_src_view(history_src),
            ) == Result::<SnapshotV, DataErrorV>::Ok(snap@),
            Result::Err(e) => snapshot_outcome(
                opt_src_view(assemblies_src),
                opt_src_view(parts_src),
                opt_src_view(bom_src),
                opt_src_view(stock_src),
                opt_src_view(history_src),
            ) == Result::<SnapshotV, DataErrorV>::Err(e@),
        },
{
    let assemblies = match assemblies_src {
        Option::None => {
            return Err(
                DataError::MissingRequiredSource { source: String::from_str("assemblies.csv") },
            );
        },
        Option::Some(t) => match parse_assemblies_csv(t) {
            Result::Ok(rows) => rows,
            Result::Err(row) => {
                return Err(
                    DataError::ParseError { source: String::from_str("assemblies.csv"), row },
                );
            },
        },
    };
    let parts = match parts_src {
        Option::None => {
            return Err(DataError::MissingRequiredSource { source: String::from_str("parts.csv") });
        },
        Option::Some(t) => match parse_parts_csv(t) {
            Result::Ok(rows) => rows,
            Result::Err(row) => {
                return Err(DataError::ParseError { source: String::from_str("parts.csv"), row });
            },
        },
    };
    let bom_items = match bom_src {
        Option::None => {
            return Err(
                DataError::MissingRequiredSource { source: String::from_str("bom_items.csv") },
            );
        },
        Option::Some(t) => match parse_bom_csv(t) {
            Result::Ok(rows) => rows,
            Result::Err(row) => {
                return Err(
                    DataError::ParseError { source: String::from_str("bom_items.csv"), row },
                );
            },
        },
    };
    let stock = match stock_src {
        Option::None => {
            return Err(DataError::MissingRequiredSource { source: String::from_str("stock.csv") });
        },
        Option::Some(t) => match parse_stock_csv(t) {
            Result::Ok(rows) => rows,
            Result::Err(row) => {
                return Err(DataError::ParseError { source: String::from_str("stock.csv"), row });
            },
        },
    };
    let build_history: Option<Vec<BuildHistoryRecord>> = match history_src {
        Option::None => None,
        Option::Some(t) => match parse_history_csv(t) {
            Result::Ok(rows) => Some(rows),
            Result::Err(_) => None,
        },
    };
    let inventory = create_unified_inventory(&parts, &stock);
    let snap = DataSnapshot {
        assemblies,
        parts,
        bom_items,
        stock,
        build_history,
        inventory: Some(inventory),
    };
    Ok(snap)
}

/// The recomputation the inventory load applies to every stored row:
/// availability is always on-hand minus reserved, never trusted from the
/// file.
pub open spec fn freshened_item(it: InventoryItemV) -> InventoryItemV {
    InventoryItemV {
        sku: it.sku,
        name: it.name,
        uom: it.uom,
        on_hand: it.on_hand,
        reserved: it.reserved,
        available: it.on_hand - it.reserved,
        reorder_point: it.reorder_point,
        supplier: it.supplier,
    }
}

/// What the dedicated inventory load must come to. Unlike the build
/// history, this source is required: it alone carries the richer fields.
pub open spec fn main_inventory_outcome(src: Option<Seq<char>>) -> Result<
    Seq<InventoryItemV>,
    DataErrorV,
> {
    match src {
        Option::None => Result::Err(DataErrorV::Missing { source: "main_inventory.csv"@ }),
        Option::Some(t) => match parse_inventory_text(t) {
            Result::Err(row) => Result::Err(
                DataErrorV::Parse { source: "main_inventory.csv"@, row },
            ),
            Result::Ok(rows) => Result::Ok(
                rows.map_values(|it: InventoryItemV| freshened_item(it)),
            ),
        },
    }
}

/// Loads the stored inventory view, recomputing every row's availability.
pub fn main_inventory_from_source(src: Option<&str>) -> (r: Result<Vec<InventoryItem>, DataError>)
    ensures
        match r {
            Result::Ok(items) => main_inventory_outcome(opt_src_view(src)) == Result::<
                Seq<InventoryItemV>,
                DataErrorV,
            >::Ok(inventory_views(items@)),
            Result::Err(e) => main_inventory_outcome(opt_src_view(src)) == Result::<
                Seq<InventoryItemV>,
                DataErrorV,
            >::Err(e@),
        },
{
    let text = match src {
        Option::None => {
            return Err(
                DataError::MissingRequiredSource { source: String::from_str("main_inventory.csv") },
            );
        },
        Option::Some(t) => t,
    };
    let rows = match parse_inventory_csv(text) {
        Result::Ok(rows) => rows,
        Result::Err(row) => {
            return Err(
                DataError::ParseError { source: String::from_str("main_inventory.csv"), row },
            );
        },
    };
    let ghost parsed = inventory_views(rows@);
    let ghost goal = parsed.map_values(|it: InventoryItemV| freshened_item(it));
    let mut out: Vec<InventoryItem> = Vec::new();
    let mut k: usize = 0;
    while k < rows.len()
        invariant
            0 <= k <= rows@.len(),
            parsed == inventory_views(rows@),
            goal == parsed.map_values(|it: InventoryItemV| freshened_item(it)),
            parsed.len() == rows@.len(),
            forall|i: int|
                0 <= i < rows@.len() ==> crate::qty::qty_bounded(#[trigger] rows@[i]@.on_hand)
                    && crate::qty::qty_bounded(rows@[i]@.reserved),
            inventory_views(out@) =~= goal.take(k as int),
        decreases rows@.len() - k,
    {
        let it = &rows[k];
        proof {
            assert(parsed[k as int] == rows@[k as int]@);
            assert(goal[k as int] == freshened_item(parsed[k as int]));
        }
        let fresh = InventoryItem {
            sku: it.sku.clone(),
            name: it.name.clone(),
            uom: it.uom.clone(),
            on_hand_qty: it.on_hand_qty,
            reserved_qty: it.reserved_qty,
            available_qty: Qty { milli: it.on_hand_qty.milli - it.reserved_qty.milli },
            reorder_point: it.reorder_point,
            supplier: match &it.supplier {
                Option::Some(s) => Some(s.clone()),
                Option::None => None,
            },
        };
        let ghost old_views = inventory_views(out@);
        proof {
            assert(fresh@ == goal[k as int]);
        }
        out.push(fresh);
        proof {
            assert(inventory_views(out@) =~= old_views.push(fresh@));
            assert(inventory_views(out@) =~= goal.take(k as int + 1));
        }
        k += 1;
    }
    proof {
        assert(goal.take(k as int) =~= goal);
    }
    Ok(out)
}

/// What reading the panel history must come to: its rows when the file is
/// there and parses, an empty list otherwise — never an error.
pub open spec fn panel_history_outcome(src: Option<Seq<char>>) -> Seq<BuildHistoryRecordV> {
    match src {
        Option::None => Seq::empty(),
        Option::Some(t) => match parse_history_text(t) {
            Result::Ok(rows) => rows,
            Result::Err(_) => Seq::empty(),
        },
    }
}

/// Reads the panel history log; a missing or unreadable log is an empty
/// history, not an error.
pub fn panel_history_from_source(src: Option<&str>) -> (r: Vec<BuildHistoryRecord>)
    ensures
        history_views(r@) == panel_history_outcome(opt_src_view(src)),
{
    let rows = match src {
        Option::None => Vec::new(),
        Option::Some(t) => match parse_history_csv(t) {
            Result::Ok(rows) => rows,
            Result::Err(_) => Vec::new(),
        },
    };
    proof {
        if rows@.len() == 0 {
            assert(history_views(rows@) =~= Seq::<BuildHistoryRecordV>::empty());
        }
    }
    rows
}

} // verus!
