use shopfloor::{build_snapshot, main_inventory_from_source, panel_history_from_source, DataError};

const ASSEMBLIES: &str = "assembly_sku,name,uom\nASM-1,Widget,EA\n";
const PARTS: &str = "part_sku,name,uom\nP-1,Bolt,EA\nP-2,Panel,EA\n";
const BOM: &str = "parent_assembly_sku,component_sku,qty_per,scrap_rate,yield_pct,is_phantom\n\
                   ASM-1,P-1,2,0,1,false\nASM-1,P-2,1,0,1,false\n";
const STOCK: &str = "sku,on_hand_qty,reserved_qty\nP-1,10,0\nP-2,3,1\n";
const HISTORY: &str = "id,timestamp,work_order,sales_order,customer,assembly_sku,quantity_built,operator,notes\n\
                       ID-1,2024-01-01T00:00:00+00:00,WO-1,SO-1,ACME,ASM-1,2,,\n";

#[test]
fn loads_a_full_snapshot() {
    let snap =
        build_snapshot(Some(ASSEMBLIES), Some(PARTS), Some(BOM), Some(STOCK), Some(HISTORY))
            .unwrap();
    assert_eq!(snap.assemblies.len(), 1);
    assert_eq!(snap.parts.len(), 2);
    assert_eq!(snap.bom_items.len(), 2);
    assert_eq!(snap.stock.len(), 2);
    let history = snap.build_history.unwrap();
    assert_eq!(history.len(), 1);
    assert_eq!(history[0].id, "ID-1");
    let inventory = snap.inventory.unwrap();
    assert_eq!(inventory.len(), 2);
    assert_eq!(inventory[0].sku, "P-1");
    assert_eq!(inventory[1].available_qty.milli, 2_000);
}

#[test]
fn missing_history_is_not_an_error() {
    let snap = build_snapshot(Some(ASSEMBLIES), Some(PARTS), Some(BOM), Some(STOCK), None)
        .expect("a missing build history must not fail the load");
    assert!(snap.build_history.is_none());
    assert!(snap.inventory.is_some());
}

#[test]
fn unreadable_history_is_tolerated() {
    let bad = "id,timestamp\ngarbage\n";
    let snap = build_snapshot(Some(ASSEMBLIES), Some(PARTS), Some(BOM), Some(STOCK), Some(bad))
        .unwrap();
    assert!(snap.build_history.is_none());
}

#[test]
fn missing_stock_fails_naming_the_file() {
    let err =
        build_snapshot(Some(ASSEMBLIES), Some(PARTS), Some(BOM), None, None).unwrap_err();
    match &err {
        DataError::MissingRequiredSource { source } => assert_eq!(source, "stock.csv"),
        other => panic!("expected a missing-source error, got {other:?}"),
    }
    assert_eq!(err.message(), "missing required source: stock.csv");
}

#[test]
fn each_required_source_is_checked_in_order() {
    match build_snapshot(None, Some(PARTS), Some(BOM), Some(STOCK), None).unwrap_err() {
        DataError::MissingRequiredSource { source } => assert_eq!(source, "assemblies.csv"),
        other => panic!("unexpected error {other:?}"),
    }
    match build_snapshot(Some(ASSEMBLIES), None, Some(BOM), Some(STOCK), None).unwrap_err() {
        DataError::MissingRequiredSource { source } => assert_eq!(source, "parts.csv"),
        other => panic!("unexpected error {other:?}"),
    }
    match build_snapshot(Some(ASSEMBLIES), Some(PARTS), None, Some(STOCK), None).unwrap_err() {
        DataError::MissingRequiredSource { source } => assert_eq!(source, "bom_items.csv"),
        other => panic!("unexpected error {other:?}"),
    }
}

#[test]
fn a_bad_row_aborts_the_whole_load() {
    let bad_parts = "part_sku,name,uom\nP-1,Bolt,EA\nP-2,Panel\n";
    let err = build_snapshot(Some(ASSEMBLIES), Some(bad_parts), Some(BOM), Some(STOCK), None)
        .unwrap_err();
    match &err {
        DataError::ParseError { source, row } => {
            assert_eq!(source, "parts.csv");
            assert_eq!(*row, 2);
        },
        other => panic!("expected a parse error, got {other:?}"),
    }
    assert_eq!(err.message(), "failed to parse parts.csv at row 2");
}

#[test]
fn main_inventory_requires_its_source() {
    match main_inventory_from_source(None).unwrap_err() {
        DataError::MissingRequiredSource { source } => assert_eq!(source, "main_inventory.csv"),
        other => panic!("unexpected error {other:?}"),
    }
}

#[test]
fn main_inventory_recomputes_availability() {
    // the stored available column is never trusted: 99 is replaced by 10 - 2
    let text = "sku,name,uom,on_hand_qty,reserved_qty,available_qty,reorder_point,supplier\n\
                P-1,Bolt,EA,10,2,99,5,Acme Supply\n";
    let items = main_inventory_from_source(Some(text)).unwrap();
    assert_eq!(items.len(), 1);
    assert_eq!(items[0].available_qty.milli, 8_000);
    assert_eq!(items[0].reorder_point.map(|q| q.milli), Some(5_000));
    assert_eq!(items[0].supplier.as_deref(), Some("Acme Supply"));
}

#[test]
fn panel_history_never_fails() {
    assert!(panel_history_from_source(None).is_empty());
    assert!(panel_history_from_source(Some("not,a,history\nfile")).is_empty());
    let rows = panel_history_from_source(Some(HISTORY));
    assert_eq!(rows.len(), 1);
    assert_eq!(rows[0].assembly_sku, "ASM-1");
}

#[test]
fn io_errors_surface_their_message_verbatim() {
    let err = DataError::IoError { message: "data directory does not exist: /tmp/nowhere".into() };
    assert_eq!(err.message(), "data directory does not exist: /tmp/nowhere");
}
