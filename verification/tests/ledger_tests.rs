use shopfloor::parse::{parse_history_csv, parse_stock_csv};
use shopfloor::{
    build_snapshot, history_append_lines, make_build_record, new_build_record, render_stock_csv,
    update_stock_after_build, Qty,
};

fn qty(milli: i64) -> Qty {
    Qty { milli }
}

fn sample_record() -> shopfloor::BuildHistoryRecord {
    make_build_record(
        "ID-1".into(),
        "2024-01-01T00:00:00+00:00".into(),
        "WO-1".into(),
        "SO-1".into(),
        "ACME".into(),
        "ASM-1".into(),
        qty(2_000),
        None,
        None,
    )
}

#[test]
fn history_line_has_the_fixed_layout() {
    let lines = history_append_lines(&sample_record(), false);
    assert_eq!(lines.len(), 2);
    assert_eq!(
        lines[0],
        "id,timestamp,work_order,sales_order,customer,assembly_sku,quantity_built,operator,notes"
    );
    assert_eq!(lines[1], "ID-1,2024-01-01T00:00:00+00:00,WO-1,SO-1,ACME,ASM-1,2,,");
}

#[test]
fn existing_log_gets_no_second_header() {
    let lines = history_append_lines(&sample_record(), true);
    assert_eq!(lines.len(), 1);
    assert_eq!(lines[0], "ID-1,2024-01-01T00:00:00+00:00,WO-1,SO-1,ACME,ASM-1,2,,");
}

#[test]
fn optional_fields_are_written_when_present() {
    let mut rec = sample_record();
    rec.operator = Some("casey".into());
    rec.notes = Some("urgent".into());
    let lines = history_append_lines(&rec, true);
    assert_eq!(lines[0], "ID-1,2024-01-01T00:00:00+00:00,WO-1,SO-1,ACME,ASM-1,2,casey,urgent");
}

#[test]
fn both_logs_get_the_same_latest_entry() {
    // one log exists already, the other does not: the appended event line
    // is identical in both
    let rec = sample_record();
    let primary = history_append_lines(&rec, true);
    let panel = history_append_lines(&rec, false);
    assert_eq!(primary.last(), panel.last());
}

#[test]
fn fresh_records_carry_usable_ids_and_timestamps() {
    let a = new_build_record(
        "WO-1".into(),
        "SO-1".into(),
        "ACME".into(),
        "ASM-1".into(),
        qty(1_000),
        None,
        Some("first".into()),
    );
    assert_eq!(a.work_order, "WO-1");
    assert_eq!(a.assembly_sku, "ASM-1");
    assert_eq!(a.notes.as_deref(), Some("first"));
    assert_eq!(a.id.chars().count(), 36);
    assert!(!a.id.contains(',') && !a.id.contains('\n'));
    assert!(!a.timestamp.is_empty());
    assert!(!a.timestamp.contains(',') && !a.timestamp.contains('\n'));
    let b = new_build_record(
        "WO-1".into(),
        "SO-1".into(),
        "ACME".into(),
        "ASM-1".into(),
        qty(1_000),
        None,
        None,
    );
    assert_ne!(a.id, b.id, "each build event gets a fresh identifier");
}

#[test]
fn recorded_build_flows_end_to_end() {
    // assembly ASM-1 takes 2 of P-1 and 1 of P-2 per unit; building 2 units
    // from stock P-1: 10, P-2: 3 leaves P-1: 6 and P-2: 1, and both history
    // logs carry the event
    let assemblies = "assembly_sku,name,uom\nASM-1,Widget,EA\n";
    let parts = "part_sku,name,uom\nP-1,Bolt,EA\nP-2,Panel,EA\n";
    let bom = "parent_assembly_sku,component_sku,qty_per,scrap_rate,yield_pct,is_phantom\n\
               ASM-1,P-1,2,0,1,false\nASM-1,P-2,1,0,1,false\n";
    let stock = "sku,on_hand_qty,reserved_qty\nP-1,10,0\nP-2,3,0\n";
    let mut snap = build_snapshot(Some(assemblies), Some(parts), Some(bom), Some(stock), None)
        .unwrap();

    let rec = new_build_record(
        "WO-7".into(),
        "SO-7".into(),
        "ACME".into(),
        "ASM-1".into(),
        qty(2_000),
        None,
        None,
    );
    let mut primary_log = String::new();
    for line in history_append_lines(&rec, false) {
        primary_log.push_str(&line);
        primary_log.push('\n');
    }
    let mut panel_log = String::new();
    for line in history_append_lines(&rec, false) {
        panel_log.push_str(&line);
        panel_log.push('\n');
    }

    update_stock_after_build("ASM-1", qty(2_000), &snap.bom_items, &mut snap.stock);
    assert_eq!(snap.stock[0].sku, "P-1");
    assert_eq!(snap.stock[0].on_hand_qty.milli, 6_000);
    assert_eq!(snap.stock[1].sku, "P-2");
    assert_eq!(snap.stock[1].on_hand_qty.milli, 1_000);

    // the rewritten stock table reads back as the post-build state
    let written = render_stock_csv(&snap.stock);
    let reread = parse_stock_csv(&written).unwrap();
    assert_eq!(reread, snap.stock);

    // both logs hold one identical record of the event
    let primary_rows = parse_history_csv(&primary_log).unwrap();
    let panel_rows = parse_history_csv(&panel_log).unwrap();
    assert_eq!(primary_rows.len(), 1);
    assert_eq!(primary_rows, panel_rows);
    assert_eq!(primary_rows[0].assembly_sku, "ASM-1");
    assert_eq!(primary_rows[0].quantity_built.milli, 2_000);
    assert_eq!(primary_rows[0].work_order, "WO-7");
}
