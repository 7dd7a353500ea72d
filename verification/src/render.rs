//! Writers for the tabular catalog files.
//!
//! Rows are written as comma-joined fields under a fixed header and one
//! trailing newline per line. Fields are written as they are: a field
//! holding the delimiter itself would corrupt the row structure, which is a
//! known limit of the format, not a runtime failure.

use vstd::prelude::*;
use crate::model::{StockRow, StockRowV, stock_views, DataError, DataErrorV};
use crate::qty::{Qty, render_qty, render_qty_chars, qty_bounded, dec_digits, dec_chars_of};
use crate::text::{str_chars, string_from_chars};

verus! {

/// The one human-readable string an error surfaces as: the offending file
/// and, for a parse failure, the row (zero standing for the header).
pub open spec fn error_text(e: DataErrorV) -> Seq<char> {
    match e {
        DataErrorV::Missing { source } => "missing required source: "@ + source,
        DataErrorV::Parse { source, row } => "failed to parse "@ + source + " at row "@
            + dec_digits(row),
        DataErrorV::Io { message } => message,
    }
}

impl DataError {
    /// The error as one descriptive line.
    pub fn message(&self) -> (r: String)
        ensures
            r@ == error_text(self@),
    {
        match self {
            DataError::MissingRequiredSource { source } => {
                let mut out: Vec<char> = Vec::new();
                push_str_chars(&mut out, "missing required source: ");
                let sc = str_chars(source.as_str());
                push_chars(&mut out, &sc);
                string_from_chars(&out)
            },
            DataError::ParseError { source, row } => {
                let mut out: Vec<char> = Vec::new();
                push_str_chars(&mut out, "failed to parse ");
                let sc = str_chars(source.as_str());
                push_chars(&mut out, &sc);
                push_str_chars(&mut out, " at row ");
                let rc = dec_chars_of(*row);
                push_chars(&mut out, &rc);
                string_from_chars(&out)
            },
            DataError::IoError { message } => {
                let sc = str_chars(message.as_str());
                string_from_chars(&sc)
            },
        }
    }
}

/// The text of consecutive lines, each closed by a newline.
pub open spec fn lines_text(ls: Seq<Seq<char>>) -> Seq<char>
    decreases ls.len(),
{
    if ls.len() == 0 {
        Seq::empty()
    } else {
        ls[0] + seq!['\n'] + lines_text(ls.skip(1))
    }
}

pub open spec fn stock_header_line() -> Seq<char> {
    "sku"@ + seq![','] + "on_hand_qty"@ + seq![','] + "reserved_qty"@
}

/// The persisted line of one stock row.
pub open spec fn stock_line(r: StockRowV) -> Seq<char> {
    r.sku + seq![','] + render_qty(r.on_hand) + seq![','] + render_qty(r.reserved)
}

/// The whole stock file: the header, then one line per row, in order.
pub open spec fn render_stock_text(rows: Seq<StockRowV>) -> Seq<char> {
    lines_text(seq![stock_header_line()] + rows.map_values(|r: StockRowV| stock_line(r)))
}

pub fn push_chars(out: &mut Vec<char>, add: &Vec<char>)
    ensures
        final(out)@ == old(out)@ + add@,
{
    let mut k: usize = 0;
    while k < add.len()
        invariant
            0 <= k <= add@.len(),
            out@ =~= old(out)@ + add@.take(k as int),
        decreases add@.len() - k,
    {
        out.push(add[k]);
        k += 1;
    }
    proof {
        assert(old(out)@ + add@.take(k as int) =~= old(out)@ + add@);
    }
}

pub fn push_str_chars(out: &mut Vec<char>, s: &str)
    ensures
        final(out)@ == old(out)@ + s@,
{
    let cs = str_chars(s);
    push_chars(out, &cs);
}

/// Writes the full stock table, header first, one line per row in input
/// order.
pub fn render_stock_csv(stock: &Vec<StockRow>) -> (r: String)
    requires
        forall|i: int|
            0 <= i < stock@.len() ==> qty_bounded(#[trigger] stock@[i]@.on_hand) && qty_bounded(
                stock@[i]@.reserved,
            ),
    ensures
        r@ == render_stock_text(stock_views(stock@)),
{
    let ghost all = seq![stock_header_line()] + stock_views(stock@).map_values(
        |rv: StockRowV| stock_line(rv),
    );
    let mut out: Vec<char> = Vec::new();
    push_str_chars(&mut out, "sku");
    out.push(',');
    push_str_chars(&mut out, "on_hand_qty");
    out.push(',');
    push_str_chars(&mut out, "reserved_qty");
    out.push('\n');
    proof {
        assert(all[0] == stock_header_line());
        assert(out@ =~= all[0] + seq!['\n']);
        assert(all.skip(1) =~= stock_views(stock@).map_values(|rv: StockRowV| stock_line(rv)));
        assert(lines_text(all) == all[0] + seq!['\n'] + lines_text(all.skip(1)));
    }
    let mut k: usize = 0;
    while k < stock.len()
        invariant
            0 <= k <= stock@.len(),
            all == seq![stock_header_line()] + stock_views(stock@).map_values(
                |rv: StockRowV| stock_line(rv),
            ),
            all.len() == stock@.len() + 1,
            forall|i: int|
                0 <= i < stock@.len() ==> qty_bounded(#[trigger] stock@[i]@.on_hand) && qty_bounded(
                    stock@[i]@.reserved,
                ),
            out@ + lines_text(all.skip(k as int + 1)) =~= lines_text(all),
        decreases stock@.len() - k,
    {
        let ghost suf = all.skip(k as int + 1);
        let ghost line = stock_line(stock@[k as int]@);
        proof {
            assert(suf[0] == all[k as int + 1]);
            assert(all[k as int + 1] == stock_views(stock@).map_values(
                |rv: StockRowV| stock_line(rv),
            )[k as int]);
            assert(stock_views(stock@)[k as int] == stock@[k as int]@);
            assert(suf[0] == line);
            assert(suf.skip(1) =~= all.skip(k as int + 2));
        }
        let ghost before = out@;
        let sku_chars = str_chars(stock[k].sku.as_str());
        push_chars(&mut out, &sku_chars);
        out.push(',');
        let h_chars = render_qty_chars(stock[k].on_hand_qty);
        push_chars(&mut out, &h_chars);
        out.push(',');
        let r_chars = render_qty_chars(stock[k].reserved_qty);
        push_chars(&mut out, &r_chars);
        out.push('\n');
        proof {
            assert(out@ =~= before + line + seq!['\n']);
            assert(lines_text(suf) == line + seq!['\n'] + lines_text(suf.skip(1)));
            assert(out@ + lines_text(all.skip(k as int + 2)) =~= before + lines_text(suf));
            assert(out@ + lines_text(all.skip(k as int + 2)) =~= lines_text(all));
        }
        k += 1;
    }
    proof {
        assert(all.skip(k as int + 1) =~= Seq::<Seq<char>>::empty());
        assert(lines_text(all.skip(k as int + 1)) == Seq::<char>::empty());
        assert(out@ =~= out@ + Seq::<char>::empty());
        assert(out@ =~= lines_text(all));
    }
    string_from_chars(&out)
}

} // verus!
