//! The unified inventory view: one row per part, joined with its stock
//! state, available quantity computed fresh.

use vstd::prelude::*;
use crate::model::{
    Part, PartV, part_views, StockRow, StockRowV, stock_views, InventoryItem, InventoryItemV,
    inventory_views,
};
use crate::qty::{Qty, qty_bounded};

verus! {

/// The stock row a lookup by SKU lands on: the latest row with that SKU,
/// matching a map built by inserting rows in order, where later rows win.
pub open spec fn last_stock_for(stock: Seq<StockRowV>, sku: Seq<char>) -> Option<StockRowV>
    decreases stock.len(),
{
    if stock.len() == 0 {
        Option::None
    } else if stock.last().sku == sku {
        Option::Some(stock.last())
    } else {
        last_stock_for(stock.drop_last(), sku)
    }
}

/// The inventory row derived for one part: its stock quantities when a
/// stock row exists, zeroes otherwise, and always a freshly computed
/// available quantity.
pub open spec fn unified_item(p: PartV, stock: Seq<StockRowV>) -> InventoryItemV {
    match last_stock_for(stock, p.part_sku) {
        Option::Some(s) => InventoryItemV {
            sku: p.part_sku,
            name: p.name,
            uom: p.uom,
            on_hand: s.on_hand,
            reserved: s.reserved,
            available: s.on_hand - s.reserved,
            reorder_point: Option::None,
            supplier: Option::None,
        },
        Option::None => InventoryItemV {
            sku: p.part_sku,
            name: p.name,
            uom: p.uom,
            on_hand: 0,
            reserved: 0,
            available: 0,
            reorder_point: Option::None,
            supplier: Option::None,
        },
    }
}

/// The whole derived view: one row per part, in part order.
pub open spec fn unified_inventory(parts: Seq<PartV>, stock: Seq<StockRowV>) -> Seq<
    InventoryItemV,
> {
    parts.map_values(|p: PartV| unified_item(p, stock))
}

/// The derivation is a function of its inputs alone: equal part and stock
/// lists always yield the same view, so running it twice changes nothing.
pub proof fn lemma_unified_inventory_deterministic(
    parts_a: Seq<PartV>,
    stock_a: Seq<StockRowV>,
    parts_b: Seq<PartV>,
    stock_b: Seq<StockRowV>,
)
    requires
        parts_a == parts_b,
        stock_a == stock_b,
    ensures
        unified_inventory(parts_a, stock_a) == unified_inventory(parts_b, stock_b),
{
}

/// Looks up the latest stock row for one SKU.
fn find_stock<'a>(stock: &'a Vec<StockRow>, sku: &str) -> (r: Option<&'a StockRow>)
    ensures
        match r {
            Option::Some(row) => last_stock_for(stock_views(stock@), sku@) == Option::Some(row@),
            Option::None => last_stock_for(stock_views(stock@), sku@) is None,
        },
{
    let ghost sv = stock_views(stock@);
    let mut k: usize = stock.len();
    proof {
        assert(sv.take(k as int) =~= sv);
    }
    while k > 0
        invariant
            0 <= k <= stock@.len(),
            sv == stock_views(stock@),
            sv.len() == stock@.len(),
            last_stock_for(sv, sku@) == last_stock_for(sv.take(k as int), sku@),
        decreases k,
    {
        let ghost pre = sv.take(k as int);
        proof {
            assert(pre.last() == sv[k as int - 1]);
            assert(sv[k as int - 1] == stock@[k as int - 1]@);
            assert(pre.drop_last() =~= sv.take(k as int - 1));
        }
        if crate::text::str_eq(stock[k - 1].sku.as_str(), sku) {
            proof {
                assert(last_stock_for(sv.take(k as int), sku@) == Option::Some(
                    sv[k as int - 1],
                ));
            }
            return Some(&stock[k - 1]);
        }
        k -= 1;
    }
    proof {
        assert(sv.take(0) =~= Seq::<StockRowV>::empty());
    }
    None
}

/// Derives the unified inventory: one item per part, in the parts' order,
/// quantities from the latest stock row of that SKU or zero when none
/// exists, and `available = on_hand - reserved` computed here, never trusted
/// from input.
pub fn create_unified_inventory(parts: &Vec<Part>, stock: &Vec<StockRow>) -> (r: Vec<
    InventoryItem,
>)
    requires
        forall|i: int|
            0 <= i < stock@.len() ==> qty_bounded(#[trigger] stock@[i]@.on_hand) && qty_bounded(
                stock@[i]@.reserved,
            ),
    ensures
        inventory_views(r@) == unified_inventory(part_views(parts@), stock_views(stock@)),
{
    let ghost pv = part_views(parts@);
    let ghost sv = stock_views(stock@);
    let mut out: Vec<InventoryItem> = Vec::new();
    let mut k: usize = 0;
    while k < parts.len()
        invariant
            0 <= k <= parts@.len(),
            pv == part_views(parts@),
            sv == stock_views(stock@),
            pv.len() == parts@.len(),
            forall|i: int|
                0 <= i < stock@.len() ==> qty_bounded(#[trigger] stock@[i]@.on_hand) && qty_bounded(
                    stock@[i]@.reserved,
                ),
            inventory_views(out@) =~= unified_inventory(pv, sv).take(k as int),
        decreases parts@.len() - k,
    {
        let ghost old_views = inventory_views(out@);
        proof {
            assert(pv[k as int] == parts@[k as int]@);
            assert(unified_inventory(pv, sv)[k as int] == unified_item(pv[k as int], sv));
        }
        let p = &parts[k];
        let found = find_stock(stock, p.part_sku.as_str());
        let item = match found {
            Option::Some(s) => {
                let ghost srow = s@;
                proof {
                    assert(last_stock_for(sv, p.part_sku@) == Option::Some(srow));
                    lemma_last_stock_member(sv, p.part_sku@);
                    let idx = choose|i: int| 0 <= i < sv.len() && sv[i] == srow;
                    assert(sv[idx] == stock@[idx]@);
                    assert(qty_bounded(srow.on_hand) && qty_bounded(srow.reserved));
                }
                InventoryItem {
                    sku: p.part_sku.clone(),
                    name: p.name.clone(),
                    uom: p.uom.clone(),
                    on_hand_qty: s.on_hand_qty,
                    reserved_qty: s.reserved_qty,
                    available_qty: Qty { milli: s.on_hand_qty.milli - s.reserved_qty.milli },
                    reorder_point: None,
                    supplier: None,
                }
            },
            Option::None => InventoryItem {
                sku: p.part_sku.clone(),
                name: p.name.clone(),
                uom: p.uom.clone(),
                on_hand_qty: Qty { milli: 0 },
                reserved_qty: Qty { milli: 0 },
                available_qty: Qty { milli: 0 },
                reorder_point: None,
                supplier: None,
            },
        };
        proof {
            assert(item@ == unified_item(pv[k as int], sv));
        }
        out.push(item);
        proof {
            assert(inventory_views(out@) =~= old_views.push(item@));
            assert(inventory_views(out@) =~= unified_inventory(pv, sv).take(k as int + 1));
        }
        k += 1;
    }
    proof {
        assert(unified_inventory(pv, sv).take(k as int) =~= unified_inventory(pv, sv));
    }
    out
}

/// A found stock row is one of the rows, so its quantities obey the rows'
/// bounds.
proof fn lemma_last_stock_member(stock: Seq<StockRowV>, sku: Seq<char>)
    ensures
        match last_stock_for(stock, sku) {
            Option::Some(s) => exists|i: int| 0 <= i < stock.len() && stock[i] == s,
            Option::None => true,
        },
    decreases stock.len(),
{
    if stock.len() > 0 {
        if stock.last().sku == sku {
            assert(stock[stock.len() - 1] == stock.last());
        } else {
            lemma_last_stock_member(stock.drop_last(), sku);
            match last_stock_for(stock.drop_last(), sku) {
                Option::Some(s) => {
                    let i = choose|i: int|
                        0 <= i < stock.drop_last().len() && stock.drop_last()[i] == s;
                    assert(stock[i] == s);
                },
                Option::None => {},
            }
        }
    }
}

} // verus!
