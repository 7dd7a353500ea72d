//! Single-level BOM explosion: the total consumption a build takes from
//! each component, and its application to the stock ledger.
//!
//! Consumption is computed exactly in millionths of a unit (the product of
//! two thousandths-scaled quantities), applied to each stock row whose SKU
//! the built assembly's bill names, clamped at zero — a build is accepted
//! even when stock is short — and floored back to thousandths. A result
//! beyond the representable ceiling saturates there, which only a negative
//! build or negative consumption factors can reach.

use vstd::prelude::*;
use crate::model::{BomItem, BomItemV, bom_views, StockRow, StockRowV, stock_views};
use crate::qty::{Qty, qty_bounded, QTY_MAX_MILLI};

verus! {

/// The exact consumption, in millionths of a unit, that building
/// `qb` thousandths of `parent` takes from `comp`: rows for the same
/// component sum together, single level only.
pub open spec fn micro_needed(bom: Seq<BomItemV>, parent: Seq<char>, comp: Seq<char>, qb: int) -> int
    decreases bom.len(),
{
    if bom.len() == 0 {
        0
    } else {
        micro_needed(bom.drop_last(), parent, comp, qb) + if bom.last().parent_assembly_sku
            == parent && bom.last().component_sku == comp {
            bom.last().qty_per * qb
        } else {
            0
        }
    }
}

/// Whether the bill of `parent` names `comp` at all; only named components
/// are touched, and a component without a stock row is left alone.
pub open spec fn has_component(bom: Seq<BomItemV>, parent: Seq<char>, comp: Seq<char>) -> bool {
    exists|i: int|
        0 <= i < bom.len() && bom[i].parent_assembly_sku == parent && bom[i].component_sku == comp
}

/// The stored on-hand value, in thousandths, after taking `t` millionths
/// from `h` thousandths: clamped at zero, floored to thousandths, and
/// saturated at the representable ceiling.
pub open spec fn updated_on_hand(h: int, t: int) -> int {
    let left = if h * 1000 - t < 0 {
        0
    } else {
        h * 1000 - t
    };
    let m = left / 1000;
    if m > QTY_MAX_MILLI as int {
        QTY_MAX_MILLI as int
    } else {
        m
    }
}

/// What one stock row becomes when `qb` thousandths of `parent` are built.
pub open spec fn post_stock_row(r: StockRowV, bom: Seq<BomItemV>, parent: Seq<char>, qb: int) -> StockRowV {
    if has_component(bom, parent, r.sku) {
        StockRowV {
            sku: r.sku,
            on_hand: updated_on_hand(r.on_hand, micro_needed(bom, parent, r.sku, qb)),
            reserved: r.reserved,
        }
    } else {
        r
    }
}

/// Consumption can never leave a negative on-hand value, and consumption at
/// or beyond the whole holding empties the row exactly.
pub proof fn lemma_consumption_clamped(h: int, t: int)
    ensures
        updated_on_hand(h, t) >= 0,
        t >= h * 1000 ==> updated_on_hand(h, t) == 0,
{
    let left = if h * 1000 - t < 0 {
        0
    } else {
        h * 1000 - t
    };
    vstd::arithmetic::div_mod::lemma_div_is_ordered(0, left, 1000);
    if t >= h * 1000 {
        assert(left == 0);
    }
}

/// Consumption adds up over the bill: the total of two bills joined is the
/// sum of their totals, so two rows naming the same component deduct the
/// sum of their factors.
pub proof fn lemma_consumption_additive(
    bom_a: Seq<BomItemV>,
    bom_b: Seq<BomItemV>,
    parent: Seq<char>,
    comp: Seq<char>,
    qb: int,
)
    ensures
        micro_needed(bom_a + bom_b, parent, comp, qb) == micro_needed(bom_a, parent, comp, qb)
            + micro_needed(bom_b, parent, comp, qb),
    decreases bom_b.len(),
{
    if bom_b.len() == 0 {
        assert(bom_a + bom_b =~= bom_a);
    } else {
        let all = bom_a + bom_b;
        assert(all.last() == bom_b.last());
        assert(all.drop_last() =~= bom_a + bom_b.drop_last());
        lemma_consumption_additive(bom_a, bom_b.drop_last(), parent, comp, qb);
    }
}

/// The total a build takes from one component, in millionths.
fn component_micro_needed(
    bom_items: &Vec<BomItem>,
    assembly_sku: &str,
    component_sku: &str,
    quantity_built: Qty,
) -> (r: (i128, bool))
    requires
        quantity_built.bounded(),
        forall|i: int| 0 <= i < bom_items@.len() ==> qty_bounded(#[trigger] bom_items@[i]@.qty_per),
    ensures
        r.0 == micro_needed(bom_views(bom_items@), assembly_sku@, component_sku@, quantity_built.milli as int),
        r.1 == has_component(bom_views(bom_items@), assembly_sku@, component_sku@),
        -(bom_items@.len() as int) * 1_000_000_000_000_000_000 <= r.0 <= (bom_items@.len() as int)
            * 1_000_000_000_000_000_000,
{
    let ghost bv = bom_views(bom_items@);
    let ghost parent = assembly_sku@;
    let ghost comp = component_sku@;
    let ghost qb = quantity_built.milli as int;
    let mut t: i128 = 0;
    let mut found = false;
    let mut k: usize = 0;
    proof {
        assert(bv.take(0) =~= Seq::<BomItemV>::empty());
    }
    while k < bom_items.len()
        invariant
            0 <= k <= bom_items@.len(),
            bv == bom_views(bom_items@),
            bv.len() == bom_items@.len(),
            parent == assembly_sku@,
            comp == component_sku@,
            qb == quantity_built.milli as int,
            quantity_built.bounded(),
            forall|i: int|
                0 <= i < bom_items@.len() ==> qty_bounded(#[trigger] bom_items@[i]@.qty_per),
            t == micro_needed(bv.take(k as int), parent, comp, qb),
            -(k as int) * 1_000_000_000_000_000_000 <= t <= (k as int) * 1_000_000_000_000_000_000,
            found == has_component(bv.take(k as int), parent, comp),
        decreases bom_items@.len() - k,
    {
        let ghost pre = bv.take(k as int);
        let ghost post = bv.take(k as int + 1);
        proof {
            assert(post.drop_last() =~= pre);
            assert(post.last() == bv[k as int]);
            assert(bv[k as int] == bom_items@[k as int]@);
        }
        let item = &bom_items[k];
        let is_row = crate::text::str_eq(item.parent_assembly_sku.as_str(), assembly_sku)
            && crate::text::str_eq(item.component_sku.as_str(), component_sku);
        if is_row {
            let qp: i128 = item.qty_per.milli as i128;
            let qbm: i128 = quantity_built.milli as i128;
            proof {
                assert(qty_bounded(bom_items@[k as int]@.qty_per));
                assert(-999_999_999 <= qp as int <= 999_999_999);
                assert(-1_000_000_000_000_000_000 <= (qp as int) * (qbm as int)
                    <= 1_000_000_000_000_000_000) by (nonlinear_arith)
                    requires
                        -999_999_999 <= qp as int <= 999_999_999,
                        -999_999_999 <= qbm as int <= 999_999_999,
                ;
            }
            let prod: i128 = qp * qbm;
            proof {
                assert(k as int + 1 <= usize::MAX as int);
                assert((k as int + 1) * 1_000_000_000_000_000_000 <= (usize::MAX as int)
                    * 1_000_000_000_000_000_000);
                assert((usize::MAX as int) * 1_000_000_000_000_000_000 < 0x4000_0000_0000_0000_0000_0000_0000_0000);
            }
            t = t + prod;
            proof {
                assert(qp as int == bv[k as int].qty_per);
                assert(qbm as int == qb);
                assert(bv[k as int].parent_assembly_sku == parent);
                assert(bv[k as int].component_sku == comp);
                assert(micro_needed(post, parent, comp, qb) == micro_needed(pre, parent, comp, qb)
                    + (qp as int) * (qbm as int));
                assert(has_component(post, parent, comp)) by {
                    assert(post[k as int] == bv[k as int]);
                    assert(post[k as int].parent_assembly_sku == parent && post[
                        k as int
                    ].component_sku == comp);
                }
            }
            found = true;
        } else {
            proof {
                assert(micro_needed(post, parent, comp, qb) == micro_needed(pre, parent, comp, qb));
                assert(has_component(post, parent, comp) == has_component(pre, parent, comp)) by {
                    if has_component(post, parent, comp) {
                        let i = choose|i: int|
                            0 <= i < post.len() && post[i].parent_assembly_sku == parent && post[
                                i
                            ].component_sku == comp;
                        assert(i < pre.len());
                        assert(pre[i] == post[i]);
                    } else {
                        if has_component(pre, parent, comp) {
                            let i = choose|i: int|
                                0 <= i < pre.len() && pre[i].parent_assembly_sku == parent && pre[
                                    i
                                ].component_sku == comp;
                            assert(post[i] == pre[i]);
                        }
                    }
                }
            }
        }
        k += 1;
    }
    proof {
        assert(bv.take(k as int) =~= bv);
    }
    (t, found)
}

/// Applies one recorded build to the stock ledger: every stock row whose
/// SKU the built assembly's bill names has its on-hand quantity reduced by
/// the bill's total consumption, clamped at zero; reserved quantities and
/// rows the bill does not name are untouched, and no stock row is created
/// for a component that has none. The build quantity is taken as given,
/// zero or negative included.
pub fn update_stock_after_build(
    assembly_sku: &str,
    quantity_built: Qty,
    bom_items: &Vec<BomItem>,
    current_stock: &mut Vec<StockRow>,
)
    requires
        quantity_built.bounded(),
        forall|i: int| 0 <= i < bom_items@.len() ==> qty_bounded(#[trigger] bom_items@[i]@.qty_per),
    ensures
        final(current_stock)@.len() == old(current_stock)@.len(),
        forall|i: int|
            0 <= i < old(current_stock)@.len() ==> #[trigger] final(current_stock)@[i]@
                == post_stock_row(
                old(current_stock)@[i]@,
                bom_views(bom_items@),
                assembly_sku@,
                quantity_built.milli as int,
            ),
{
    let ghost bv = bom_views(bom_items@);
    let ghost parent = assembly_sku@;
    let ghost qb = quantity_built.milli as int;
    let bom_len: usize = bom_items.len();
    proof {
        assert(bom_items@.len() == bom_len as int);
    }
    let mut updated: Vec<StockRow> = Vec::new();
    let mut k: usize = 0;
    while k < current_stock.len()
        invariant
            0 <= k <= current_stock@.len(),
            current_stock@ == old(current_stock)@,
            bv == bom_views(bom_items@),
            bom_items@.len() == bom_len as int,
            quantity_built.bounded(),
            qb == quantity_built.milli as int,
            parent == assembly_sku@,
            forall|i: int|
                0 <= i < bom_items@.len() ==> qty_bounded(#[trigger] bom_items@[i]@.qty_per),
            updated@.len() == k,
            forall|i: int|
                0 <= i < k ==> #[trigger] updated@[i]@ == post_stock_row(
                    current_stock@[i]@,
                    bv,
                    parent,
                    qb,
                ),
        decreases current_stock@.len() - k,
    {
        let row = &current_stock[k];
        let (t, named) = component_micro_needed(bom_items, assembly_sku, row.sku.as_str(), quantity_built);
        let new_row: StockRow;
        if named {
            let hm: i128 = (row.on_hand_qty.milli as i128) * 1000;
            proof {
                assert(bom_items@.len() == bom_len as int);
                assert(bom_items@.len() as int <= usize::MAX as int);
                assert((bom_items@.len() as int) * 1_000_000_000_000_000_000 <= (usize::MAX as int)
                    * 1_000_000_000_000_000_000);
                assert((usize::MAX as int) * 1_000_000_000_000_000_000 < 0x4000_0000_0000_0000_0000_0000_0000_0000);
            }
            let d: i128 = hm - t;
            let left: i128 = if d < 0 {
                0
            } else {
                d
            };
            let m: i128 = left / 1000;
            let capped: i64 = if m > QTY_MAX_MILLI as i128 {
                QTY_MAX_MILLI
            } else {
                m as i64
            };
            proof {
                assert(updated_on_hand(row@.on_hand, micro_needed(bv, parent, row@.sku, qb))
                    == capped as int);
            }
            new_row = StockRow {
                sku: row.sku.clone(),
                on_hand_qty: Qty { milli: capped },
                reserved_qty: row.reserved_qty,
            };
        } else {
            new_row = StockRow {
                sku: row.sku.clone(),
                on_hand_qty: row.on_hand_qty,
                reserved_qty: row.reserved_qty,
            };
        }
        proof {
            assert(new_row@ == post_stock_row(current_stock@[k as int]@, bv, parent, qb));
        }
        updated.push(new_row);
        k += 1;
    }
    *current_stock = updated;
}

} // verus!
