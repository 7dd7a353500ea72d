//! The catalog records, their ghost views, and the error kinds a load can
//! surface.

use vstd::prelude::*;
use crate::qty::Qty;

verus! {

/// A buildable finished item.
#[derive(Debug, Clone, PartialEq)]
pub struct Assembly {
    pub assembly_sku: String,
    pub name: String,
    pub uom: String,
}

/// A purchasable, stockable component.
#[derive(Debug, Clone, PartialEq)]
pub struct Part {
    pub part_sku: String,
    pub name: String,
    pub uom: String,
}

/// One bill-of-materials row: the components one unit of the parent
/// consumes. `scrap_rate`, `yield_pct` and `is_phantom` are carried but not
/// yet applied by the explosion step.
#[derive(Debug, Clone, PartialEq)]
pub struct BomItem {
    pub parent_assembly_sku: String,
    pub component_sku: String,
    pub qty_per: Qty,
    pub scrap_rate: Qty,
    pub yield_pct: Qty,
    pub is_phantom: bool,
}

/// The ledger state of one SKU.
#[derive(Debug, Clone, PartialEq)]
pub struct StockRow {
    pub sku: String,
    pub on_hand_qty: Qty,
    pub reserved_qty: Qty,
}

/// An immutable build event.
#[derive(Debug, Clone, PartialEq)]
pub struct BuildHistoryRecord {
    pub id: String,
    pub timestamp: String,
    pub work_order: String,
    pub sales_order: String,
    pub customer: String,
    pub assembly_sku: String,
    pub quantity_built: Qty,
    pub operator: Option<String>,
    pub notes: Option<String>,
}

/// A derived inventory view row: a part joined with its stock state.
#[derive(Debug, Clone, PartialEq)]
pub struct InventoryItem {
    pub sku: String,
    pub name: String,
    pub uom: String,
    pub on_hand_qty: Qty,
    pub reserved_qty: Qty,
    pub available_qty: Qty,
    pub reorder_point: Option<Qty>,
    pub supplier: Option<String>,
}

/// Everything one load materialises.
#[derive(Debug, PartialEq)]
pub struct DataSnapshot {
    pub assemblies: Vec<Assembly>,
    pub parts: Vec<Part>,
    pub bom_items: Vec<BomItem>,
    pub stock: Vec<StockRow>,
    pub build_history: Option<Vec<BuildHistoryRecord>>,
    pub inventory: Option<Vec<InventoryItem>>,
}

/// Why a load failed.
#[derive(Debug, Clone, PartialEq)]
pub enum DataError {
    /// A mandatory source could not be read at all.
    MissingRequiredSource { source: String },
    /// A source was read but a row (or its header) does not fit the schema;
    /// `row` is the failing data row, counted from one, with zero standing
    /// for the header.
    ParseError { source: String, row: usize },
    /// Anything else the surrounding host reports about the directory.
    IoError { message: String },
}

pub ghost struct AssemblyV {
    pub assembly_sku: Seq<char>,
    pub name: Seq<char>,
    pub uom: Seq<char>,
}

pub ghost struct PartV {
    pub part_sku: Seq<char>,
    pub name: Seq<char>,
    pub uom: Seq<char>,
}

pub ghost struct BomItemV {
    pub parent_assembly_sku: Seq<char>,
    pub component_sku: Seq<char>,
    pub qty_per: int,
    pub scrap_rate: int,
    pub yield_pct: int,
    pub is_phantom: bool,
}

pub ghost struct StockRowV {
    pub sku: Seq<char>,
    pub on_hand: int,
    pub reserved: int,
}

pub ghost struct BuildHistoryRecordV {
    pub id: Seq<char>,
    pub timestamp: Seq<char>,
    pub work_order: Seq<char>,
    pub sales_order: Seq<char>,
    pub customer: Seq<char>,
    pub assembly_sku: Seq<char>,
    pub quantity_built: int,
    pub operator: Option<Seq<char>>,
    pub notes: Option<Seq<char>>,
}

pub ghost struct InventoryItemV {
    pub sku: Seq<char>,
    pub name: Seq<char>,
    pub uom: Seq<char>,
    pub on_hand: int,
    pub reserved: int,
    pub available: int,
    pub reorder_point: Option<int>,
    pub supplier: Option<Seq<char>>,
}

pub open spec fn opt_str_view(o: Option<String>) -> Option<Seq<char>> {
    match o {
        Option::Some(s) => Option::Some(s@),
        Option::None => Option::None,
    }
}

impl View for Assembly {
    type V = AssemblyV;

    open spec fn view(&self) -> AssemblyV {
        AssemblyV { assembly_sku: self.assembly_sku@, name: self.name@, uom: self.uom@ }
    }
}

impl View for Part {
    type V = PartV;

    open spec fn view(&self) -> PartV {
        PartV { part_sku: self.part_sku@, name: self.name@, uom: self.uom@ }
    }
}

impl View for BomItem {
    type V = BomItemV;

    open spec fn view(&self) -> BomItemV {
        BomItemV {
            parent_assembly_sku: self.parent_assembly_sku@,
            component_sku: self.component_sku@,
            qty_per: self.qty_per.milli as int,
            scrap_rate: self.scrap_rate.milli as int,
            yield_pct: self.yield_pct.milli as int,
            is_phantom: self.is_phantom,
        }
    }
}

impl View for StockRow {
    type V = StockRowV;

    open spec fn view(&self) -> StockRowV {
        StockRowV {
            sku: self.sku@,
            on_hand: self.on_hand_qty.milli as int,
            reserved: self.reserved_qty.milli as int,
        }
    }
}

impl View for BuildHistoryRecord {
    type V = BuildHistoryRecordV;

    open spec fn view(&self) -> BuildHistoryRecordV {
        BuildHistoryRecordV {
            id: self.id@,
            timestamp: self.timestamp@,
            work_order: self.work_order@,
            sales_order: self.sales_order@,
            customer: self.customer@,
            assembly_sku: self.assembly_sku@,
            quantity_built: self.quantity_built.milli as int,
            operator: opt_str_view(self.operator),
            notes: opt_str_view(self.notes),
        }
    }
}

impl View for InventoryItem {
    type V = InventoryItemV;

    open spec fn view(&self) -> InventoryItemV {
        InventoryItemV {
            sku: self.sku@,
            name: self.name@,
            uom: self.uom@,
            on_hand: self.on_hand_qty.milli as int,
            reserved: self.reserved_qty.milli as int,
            available: self.available_qty.milli as int,
            reorder_point: match self.reorder_point {
                Option::Some(q) => Option::Some(q.milli as int),
                Option::None => Option::None,
            },
            supplier: opt_str_view(self.supplier),
        }
    }
}

pub ghost enum DataErrorV {
    Missing { source: Seq<char> },
    Parse { source: Seq<char>, row: int },
    Io { message: Seq<char> },
}

impl View for DataError {
    type V = DataErrorV;

    open spec fn view(&self) -> DataErrorV {
        match self {
            DataError::MissingRequiredSource { source } => DataErrorV::Missing { source: source@ },
            DataError::ParseError { source, row } => DataErrorV::Parse {
                source: source@,
                row: *row as int,
            },
            DataError::IoError { message } => DataErrorV::Io { message: message@ },
        }
    }
}

pub ghost struct SnapshotV {
    pub assemblies: Seq<AssemblyV>,
    pub parts: Seq<PartV>,
    pub bom_items: Seq<BomItemV>,
    pub stock: Seq<StockRowV>,
    pub build_history: Option<Seq<BuildHistoryRecordV>>,
    pub inventory: Option<Seq<InventoryItemV>>,
}

impl View for DataSnapshot {
    type V = SnapshotV;

    open spec fn view(&self) -> SnapshotV {
        SnapshotV {
            assemblies: assembly_views(self.assemblies@),
            parts: part_views(self.parts@),
            bom_items: bom_views(self.bom_items@),
            stock: stock_views(self.stock@),
            build_history: match &self.build_history {
                Option::Some(v) => Option::Some(history_views(v@)),
                Option::None => Option::None,
            },
            inventory: match &self.inventory {
                Option::Some(v) => Option::Some(inventory_views(v@)),
                Option::None => Option::None,
            },
        }
    }
}

pub open spec fn assembly_views(s: Seq<Assembly>) -> Seq<AssemblyV> {
    s.map_values(|r: Assembly| r@)
}

pub open spec fn part_views(s: Seq<Part>) -> Seq<PartV> {
    s.map_values(|r: Part| r@)
}

pub open spec fn bom_views(s: Seq<BomItem>) -> Seq<BomItemV> {
    s.map_values(|r: BomItem| r@)
}

pub open spec fn stock_views(s: Seq<StockRow>) -> Seq<StockRowV> {
    s.map_values(|r: StockRow| r@)
}

pub open spec fn history_views(s: Seq<BuildHistoryRecord>) -> Seq<BuildHistoryRecordV> {
    s.map_values(|r: BuildHistoryRecord| r@)
}

pub open spec fn inventory_views(s: Seq<InventoryItem>) -> Seq<InventoryItemV> {
    s.map_values(|r: InventoryItem| r@)
}

} // verus!
