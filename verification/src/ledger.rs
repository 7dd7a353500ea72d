//! The build ledger: immutable build events, the lines appended to the two
//! history logs, and the fresh identifier and timestamp a new event carries.

use vstd::prelude::*;
use crate::model::{BuildHistoryRecord, BuildHistoryRecordV};
use crate::qty::{Qty, render_qty, render_qty_chars, qty_bounded};
use crate::text::{csv_clean, str_chars, string_from_chars};
use crate::render::push_chars;
use crate::render::push_str_chars;

verus! {

pub open spec fn opt_text(o: Option<Seq<char>>) -> Seq<char> {
    match o {
        Option::Some(s) => s,
        Option::None => Seq::empty(),
    }
}

pub open spec fn history_header_line() -> Seq<char> {
    "id"@ + seq![','] + "timestamp"@ + seq![','] + "work_order"@ + seq![','] + "sales_order"@
        + seq![','] + "customer"@ + seq![','] + "assembly_sku"@ + seq![','] + "quantity_built"@
        + seq![','] + "operator"@ + seq![','] + "notes"@
}

/// The single line one build event appends to a history log; an absent
/// operator or note is written as an empty field.
pub open spec fn history_line(r: BuildHistoryRecordV) -> Seq<char> {
    r.id + seq![','] + r.timestamp + seq![','] + r.work_order + seq![','] + r.sales_order + seq![
        ',',
    ] + r.customer + seq![','] + r.assembly_sku + seq![','] + render_qty(r.quantity_built) + seq![
        ',',
    ] + opt_text(r.operator) + seq![','] + opt_text(r.notes)
}

/// The lines one append writes to a log: the header first when the log does
/// not exist yet, then the event's line.
pub open spec fn history_append_plan(r: BuildHistoryRecordV, log_exists: bool) -> Seq<Seq<char>> {
    if log_exists {
        seq![history_line(r)]
    } else {
        seq![history_header_line(), history_line(r)]
    }
}

/// Both history logs receive the same final line for one event, whether or
/// not either log already existed: the two logs stay in lock-step.
pub proof fn lemma_dual_log_consistency(r: BuildHistoryRecordV, first_exists: bool, second_exists: bool)
    ensures
        history_append_plan(r, first_exists).last() == history_append_plan(
            r,
            second_exists,
        ).last(),
        history_append_plan(r, first_exists).last() == history_line(r),
{
}

pub fn history_header_string() -> (r: String)
    ensures
        r@ == history_header_line(),
{
    let mut out: Vec<char> = Vec::new();
    push_str_chars(&mut out, "id");
    out.push(',');
    push_str_chars(&mut out, "timestamp");
    out.push(',');
    push_str_chars(&mut out, "work_order");
    out.push(',');
    push_str_chars(&mut out, "sales_order");
    out.push(',');
    push_str_chars(&mut out, "customer");
    out.push(',');
    push_str_chars(&mut out, "assembly_sku");
    out.push(',');
    push_str_chars(&mut out, "quantity_built");
    out.push(',');
    push_str_chars(&mut out, "operator");
    out.push(',');
    push_str_chars(&mut out, "notes");
    proof {
        assert(out@ =~= history_header_line());
    }
    string_from_chars(&out)
}

/// Writes one build event as its log line.
pub fn history_line_string(rec: &BuildHistoryRecord) -> (r: String)
    requires
        rec.quantity_built.bounded(),
    ensures
        r@ == history_line(rec@),
{
    let mut out: Vec<char> = Vec::new();
    let c0 = str_chars(rec.id.as_str());
    push_chars(&mut out, &c0);
    out.push(',');
    let c1 = str_chars(rec.timestamp.as_str());
    push_chars(&mut out, &c1);
    out.push(',');
    let c2 = str_chars(rec.work_order.as_str());
    push_chars(&mut out, &c2);
    out.push(',');
    let c3 = str_chars(rec.sales_order.as_str());
    push_chars(&mut out, &c3);
    out.push(',');
    let c4 = str_chars(rec.customer.as_str());
    push_chars(&mut out, &c4);
    out.push(',');
    let c5 = str_chars(rec.assembly_sku.as_str());
    push_chars(&mut out, &c5);
    out.push(',');
    let c6 = render_qty_chars(rec.quantity_built);
    push_chars(&mut out, &c6);
    out.push(',');
    match &rec.operator {
        Option::Some(s) => {
            let c7 = str_chars(s.as_str());
            push_chars(&mut out, &c7);
        },
        Option::None => {},
    }
    out.push(',');
    match &rec.notes {
        Option::Some(s) => {
            let c8 = str_chars(s.as_str());
            push_chars(&mut out, &c8);
        },
        Option::None => {},
    }
    proof {
        assert(out@ =~= history_line(rec@));
    }
    string_from_chars(&out)
}

/// The lines to append to one history log for this event; a log that does
/// not exist yet gets its header first.
pub fn history_append_lines(rec: &BuildHistoryRecord, log_exists: bool) -> (r: Vec<String>)
    requires
        rec.quantity_built.bounded(),
    ensures
        r.deep_view() == history_append_plan(rec@, log_exists),
{
    let mut r: Vec<String> = Vec::new();
    if !log_exists {
        r.push(history_header_string());
    }
    r.push(history_line_string(rec));
    proof {
        assert(r.deep_view() =~~= history_append_plan(rec@, log_exists));
    }
    r
}

/// Relies on `uuid::Uuid::new_v4` and the `Display` of `Uuid`: a fresh
/// random identifier printed in the hyphenated form, 36 characters of
/// lowercase hexadecimal digits and hyphens — no whitespace, comma or line
/// break.
#[verifier::external_body]
fn fresh_event_id() -> (r: String)
    ensures
        r@.len() == 36,
        csv_clean(r@),
{
    uuid::Uuid::new_v4().to_string()
}

/// Relies on `chrono::Utc::now` and `DateTime::to_rfc3339`: the current UTC
/// instant written in RFC 3339 form, built from digits and the separators
/// `-:T.+` — never empty and free of whitespace, commas and line breaks.
#[verifier::external_body]
fn utc_timestamp_rfc3339() -> (r: String)
    ensures
        r@.len() > 0,
        csv_clean(r@),
{
    chrono::Utc::now().to_rfc3339()
}

/// Builds the immutable record for one build event from its parts.
pub fn make_build_record(
    id: String,
    timestamp: String,
    work_order: String,
    sales_order: String,
    customer: String,
    assembly_sku: String,
    quantity_built: Qty,
    operator: Option<String>,
    notes: Option<String>,
) -> (r: BuildHistoryRecord)
    ensures
        r.id == id,
        r.timestamp == timestamp,
        r.work_order == work_order,
        r.sales_order == sales_order,
        r.customer == customer,
        r.assembly_sku == assembly_sku,
        r.quantity_built == quantity_built,
        r.operator == operator,
        r.notes == notes,
{
    BuildHistoryRecord {
        id,
        timestamp,
        work_order,
        sales_order,
        customer,
        assembly_sku,
        quantity_built,
        operator,
        notes,
    }
}

/// Builds the record for a build happening now: a fresh unique identifier
/// and the current UTC timestamp are taken at call time, never supplied by
/// the caller.
pub fn new_build_record(
    work_order: String,
    sales_order: String,
    customer: String,
    assembly_sku: String,
    quantity_built: Qty,
    operator: Option<String>,
    notes: Option<String>,
) -> (r: BuildHistoryRecord)
    ensures
        r.work_order == work_order,
        r.sales_order == sales_order,
        r.customer == customer,
        r.assembly_sku == assembly_sku,
        r.quantity_built == quantity_built,
        r.operator == operator,
        r.notes == notes,
        r.id@.len() == 36,
        csv_clean(r.id@),
        r.timestamp@.len() > 0,
        csv_clean(r.timestamp@),
{
    let id = fresh_event_id();
    let timestamp = utc_timestamp_rfc3339();
    make_build_record(
        id,
        timestamp,
        work_order,
        sales_order,
        customer,
        assembly_sku,
        quantity_built,
        operator,
        notes,
    )
}

} // verus!
