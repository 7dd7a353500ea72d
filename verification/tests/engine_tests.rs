use shopfloor::parse::parse_stock_csv;
use shopfloor::render::render_stock_csv;
use shopfloor::{create_unified_inventory, update_stock_after_build, BomItem, Part, Qty, StockRow};

fn qty(milli: i64) -> Qty {
    Qty { milli }
}

fn part(sku: &str, name: &str) -> Part {
    Part { part_sku: sku.into(), name: name.into(), uom: "EA".into() }
}

fn stock_row(sku: &str, on_hand: i64, reserved: i64) -> StockRow {
    StockRow { sku: sku.into(), on_hand_qty: qty(on_hand), reserved_qty: qty(reserved) }
}

fn bom_row(parent: &str, component: &str, qty_per: i64) -> BomItem {
    BomItem {
        parent_assembly_sku: parent.into(),
        component_sku: component.into(),
        qty_per: qty(qty_per),
        scrap_rate: qty(0),
        yield_pct: qty(1_000),
        is_phantom: false,
    }
}

#[test]
fn unifies_parts_with_stock() {
    let parts = vec![part("P-1", "Bolt"), part("P-2", "Panel")];
    let stock = vec![stock_row("P-1", 10_000, 2_000)];
    let inv = create_unified_inventory(&parts, &stock);
    assert_eq!(inv.len(), 2);
    assert_eq!(inv[0].sku, "P-1");
    assert_eq!(inv[0].on_hand_qty.milli, 10_000);
    assert_eq!(inv[0].reserved_qty.milli, 2_000);
    assert_eq!(inv[0].available_qty.milli, 8_000);
    assert_eq!(inv[0].reorder_point, None);
    assert_eq!(inv[0].supplier, None);
    // a part with no stock row is not an error: it simply has no quantity yet
    assert_eq!(inv[1].sku, "P-2");
    assert_eq!(inv[1].on_hand_qty.milli, 0);
    assert_eq!(inv[1].available_qty.milli, 0);
}

#[test]
fn unify_keeps_part_order_and_latest_stock_row() {
    let parts = vec![part("P-2", "Panel"), part("P-1", "Bolt")];
    let stock = vec![stock_row("P-1", 1_000, 0), stock_row("P-1", 7_000, 500)];
    let inv = create_unified_inventory(&parts, &stock);
    assert_eq!(inv[0].sku, "P-2");
    assert_eq!(inv[1].sku, "P-1");
    // of two rows with the same SKU, the later one wins the lookup
    assert_eq!(inv[1].on_hand_qty.milli, 7_000);
    assert_eq!(inv[1].available_qty.milli, 6_500);
}

#[test]
fn unify_is_idempotent() {
    let parts = vec![part("P-1", "Bolt"), part("P-2", "Panel")];
    let stock = vec![stock_row("P-1", 10_000, 2_000), stock_row("P-3", 4_000, 0)];
    let once = create_unified_inventory(&parts, &stock);
    let twice = create_unified_inventory(&parts, &stock);
    assert_eq!(once, twice);
}

#[test]
fn consumption_is_additive_across_rows() {
    // two rows for the same component: (2.0 + 3.0) * 4 = 20 deducted
    let bom = vec![bom_row("ASM-1", "P-1", 2_000), bom_row("ASM-1", "P-1", 3_000)];
    let mut stock = vec![stock_row("P-1", 30_000, 1_000)];
    update_stock_after_build("ASM-1", qty(4_000), &bom, &mut stock);
    assert_eq!(stock[0].on_hand_qty.milli, 10_000);
    assert_eq!(stock[0].reserved_qty.milli, 1_000);
}

#[test]
fn consumption_clamps_at_zero() {
    // consuming more than is on hand empties the row, never negative
    let bom = vec![bom_row("ASM-1", "P-1", 12_500)];
    let mut stock = vec![stock_row("P-1", 10_000, 0)];
    update_stock_after_build("ASM-1", qty(2_000), &bom, &mut stock);
    assert_eq!(stock[0].on_hand_qty.milli, 0);
}

#[test]
fn unrelated_rows_are_untouched() {
    let bom = vec![bom_row("ASM-1", "P-1", 1_000)];
    let mut stock = vec![stock_row("P-1", 5_000, 0), stock_row("P-9", 7_000, 3_000)];
    update_stock_after_build("ASM-1", qty(1_000), &bom, &mut stock);
    assert_eq!(stock[0].on_hand_qty.milli, 4_000);
    assert_eq!(stock[1].on_hand_qty.milli, 7_000);
    assert_eq!(stock[1].reserved_qty.milli, 3_000);
}

#[test]
fn missing_stock_row_is_skipped() {
    // the bill names P-2 but no stock row exists: nothing is created
    let bom = vec![bom_row("ASM-1", "P-2", 1_000)];
    let mut stock = vec![stock_row("P-1", 5_000, 0)];
    update_stock_after_build("ASM-1", qty(1_000), &bom, &mut stock);
    assert_eq!(stock.len(), 1);
    assert_eq!(stock[0].sku, "P-1");
    assert_eq!(stock[0].on_hand_qty.milli, 5_000);
}

#[test]
fn zero_and_negative_builds_are_accepted() {
    let bom = vec![bom_row("ASM-1", "P-1", 2_000)];
    let mut stock = vec![stock_row("P-1", 5_000, 0)];
    update_stock_after_build("ASM-1", qty(0), &bom, &mut stock);
    assert_eq!(stock[0].on_hand_qty.milli, 5_000);
    // a negative build returns stock: no validation is performed here
    update_stock_after_build("ASM-1", qty(-1_000), &bom, &mut stock);
    assert_eq!(stock[0].on_hand_qty.milli, 7_000);
}

#[test]
fn fractional_consumption_floors_the_remainder() {
    // 0.0005 units consumed from 1.000 leaves 0.9995, stored floored to 0.999
    let bom = vec![bom_row("ASM-1", "P-1", 1)];
    let mut stock = vec![stock_row("P-1", 1_000, 0)];
    update_stock_after_build("ASM-1", qty(500), &bom, &mut stock);
    assert_eq!(stock[0].on_hand_qty.milli, 999);
}

#[test]
fn stock_file_round_trips() {
    let rows = vec![
        stock_row("P-1", 10_000, 2_000),
        stock_row("P-2", 3_500, 0),
        stock_row("ASM-1", 0, 0),
        stock_row("P-3", -1_500, 250),
    ];
    let text = render_stock_csv(&rows);
    assert_eq!(
        text,
        "sku,on_hand_qty,reserved_qty\nP-1,10,2\nP-2,3.5,0\nASM-1,0,0\nP-3,-1.5,0.25\n"
    );
    let back = parse_stock_csv(&text).unwrap();
    assert_eq!(back, rows);
}

#[test]
fn empty_stock_set_round_trips() {
    let rows: Vec<StockRow> = vec![];
    let text = render_stock_csv(&rows);
    assert_eq!(text, "sku,on_hand_qty,reserved_qty\n");
    let back = parse_stock_csv(&text).unwrap();
    assert!(back.is_empty());
}
