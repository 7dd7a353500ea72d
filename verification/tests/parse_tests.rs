use shopfloor::parse::{
    parse_assemblies_csv, parse_bom_csv, parse_history_csv, parse_inventory_csv, parse_parts_csv,
    parse_stock_csv,
};

#[test]
fn reads_stock_rows() {
    let text = "sku,on_hand_qty,reserved_qty\nP-1,10,2\nP-2, 3.5 ,0\n";
    let rows = parse_stock_csv(text).unwrap();
    assert_eq!(rows.len(), 2);
    assert_eq!(rows[0].sku, "P-1");
    assert_eq!(rows[0].on_hand_qty.milli, 10_000);
    assert_eq!(rows[0].reserved_qty.milli, 2_000);
    assert_eq!(rows[1].sku, "P-2");
    assert_eq!(rows[1].on_hand_qty.milli, 3_500);
    assert_eq!(rows[1].reserved_qty.milli, 0);
}

#[test]
fn trims_fields_and_headers() {
    let text = " sku , on_hand_qty , reserved_qty \n  P-1  ,  1  ,  0  \n";
    let rows = parse_stock_csv(text).unwrap();
    assert_eq!(rows[0].sku, "P-1");
    assert_eq!(rows[0].on_hand_qty.milli, 1_000);
}

#[test]
fn accepts_crlf_lines() {
    let text = "sku,on_hand_qty,reserved_qty\r\nP-1,1,0\r\n";
    let rows = parse_stock_csv(text).unwrap();
    assert_eq!(rows.len(), 1);
    assert_eq!(rows[0].sku, "P-1");
}

#[test]
fn skips_blank_lines() {
    let text = "sku,on_hand_qty,reserved_qty\n\nP-1,1,0\n\n\nP-2,2,0\n";
    let rows = parse_stock_csv(text).unwrap();
    assert_eq!(rows.len(), 2);
}

#[test]
fn empty_text_is_a_header_error() {
    assert_eq!(parse_stock_csv(""), Err(0));
    assert_eq!(parse_stock_csv("\n\n"), Err(0));
}

#[test]
fn wrong_header_is_rejected() {
    assert_eq!(parse_stock_csv("sku,on_hand,reserved\nP-1,1,0\n"), Err(0));
    assert_eq!(parse_stock_csv("on_hand_qty,sku,reserved_qty\nP-1,1,0\n"), Err(0));
}

#[test]
fn first_bad_row_is_reported() {
    let text = "sku,on_hand_qty,reserved_qty\nP-1,1,0\nP-2,oops,0\nP-3,3,0\n";
    assert_eq!(parse_stock_csv(text), Err(2));
    let short = "sku,on_hand_qty,reserved_qty\nP-1,1\n";
    assert_eq!(parse_stock_csv(short), Err(1));
    let long = "sku,on_hand_qty,reserved_qty\nP-1,1,0,extra\n";
    assert_eq!(parse_stock_csv(long), Err(1));
}

#[test]
fn reads_assemblies_and_parts() {
    let a = parse_assemblies_csv("assembly_sku,name,uom\nASM-1,Widget,EA\n").unwrap();
    assert_eq!(a.len(), 1);
    assert_eq!(a[0].assembly_sku, "ASM-1");
    assert_eq!(a[0].name, "Widget");
    assert_eq!(a[0].uom, "EA");
    let p = parse_parts_csv("part_sku,name,uom\nP-1,Bolt M3,EA\nP-2,Panel,EA\n").unwrap();
    assert_eq!(p.len(), 2);
    assert_eq!(p[1].name, "Panel");
}

#[test]
fn reads_bom_rows() {
    let text = "parent_assembly_sku,component_sku,qty_per,scrap_rate,yield_pct,is_phantom\n\
                ASM-1,P-1,2,0,1,false\nASM-1,P-2,0.5,0.02,0.98,true\n";
    let rows = parse_bom_csv(text).unwrap();
    assert_eq!(rows.len(), 2);
    assert_eq!(rows[0].parent_assembly_sku, "ASM-1");
    assert_eq!(rows[0].component_sku, "P-1");
    assert_eq!(rows[0].qty_per.milli, 2_000);
    assert!(!rows[0].is_phantom);
    assert_eq!(rows[1].qty_per.milli, 500);
    assert_eq!(rows[1].scrap_rate.milli, 20);
    assert_eq!(rows[1].yield_pct.milli, 980);
    assert!(rows[1].is_phantom);
}

#[test]
fn bom_bool_field_is_strict() {
    let text = "parent_assembly_sku,component_sku,qty_per,scrap_rate,yield_pct,is_phantom\n\
                ASM-1,P-1,2,0,1,yes\n";
    assert_eq!(parse_bom_csv(text), Err(1));
}

#[test]
fn reads_history_rows() {
    let text = "id,timestamp,work_order,sales_order,customer,assembly_sku,quantity_built,operator,notes\n\
                ID-1,2024-01-01T00:00:00+00:00,WO-1,SO-1,ACME,ASM-1,2,,\n\
                ID-2,2024-01-02T00:00:00+00:00,WO-2,SO-2,ACME,ASM-1,1.5,casey,urgent\n";
    let rows = parse_history_csv(text).unwrap();
    assert_eq!(rows.len(), 2);
    assert_eq!(rows[0].id, "ID-1");
    assert_eq!(rows[0].quantity_built.milli, 2_000);
    assert_eq!(rows[0].operator, None);
    assert_eq!(rows[0].notes, None);
    assert_eq!(rows[1].operator.as_deref(), Some("casey"));
    assert_eq!(rows[1].notes.as_deref(), Some("urgent"));
}

#[test]
fn reads_inventory_rows() {
    let text = "sku,name,uom,on_hand_qty,reserved_qty,available_qty,reorder_point,supplier\n\
                P-1,Bolt,EA,10,2,8,5,Acme Supply\nP-2,Panel,EA,3,0,3,,\n";
    let rows = parse_inventory_csv(text).unwrap();
    assert_eq!(rows.len(), 2);
    assert_eq!(rows[0].sku, "P-1");
    assert_eq!(rows[0].reorder_point.map(|q| q.milli), Some(5_000));
    assert_eq!(rows[0].supplier.as_deref(), Some("Acme Supply"));
    assert_eq!(rows[1].reorder_point, None);
    assert_eq!(rows[1].supplier, None);
}

#[test]
fn inventory_bad_reorder_point_is_an_error() {
    let text = "sku,name,uom,on_hand_qty,reserved_qty,available_qty,reorder_point,supplier\n\
                P-1,Bolt,EA,10,2,8,soon,\n";
    assert_eq!(parse_inventory_csv(text), Err(1));
}

#[test]
fn header_only_files_hold_no_rows() {
    assert_eq!(parse_assemblies_csv("assembly_sku,name,uom\n").unwrap().len(), 0);
    assert_eq!(parse_parts_csv("part_sku,name,uom\n").unwrap().len(), 0);
    assert_eq!(
        parse_bom_csv("parent_assembly_sku,component_sku,qty_per,scrap_rate,yield_pct,is_phantom\n")
            .unwrap()
            .len(),
        0
    );
    assert_eq!(parse_stock_csv("sku,on_hand_qty,reserved_qty").unwrap().len(), 0);
    assert_eq!(
        parse_history_csv(
            "id,timestamp,work_order,sales_order,customer,assembly_sku,quantity_built,operator,notes\n"
        )
        .unwrap()
        .len(),
        0
    );
    assert_eq!(
        parse_inventory_csv(
            "sku,name,uom,on_hand_qty,reserved_qty,available_qty,reorder_point,supplier\n"
        )
        .unwrap()
        .len(),
        0
    );
}

#[test]
fn fields_keep_interior_spaces() {
    let rows = parse_parts_csv("part_sku,name,uom\nP-1,  Bolt M3 x 12  ,EA\n").unwrap();
    assert_eq!(rows[0].name, "Bolt M3 x 12");
}
