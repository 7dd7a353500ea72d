//! The library's cross-cutting guarantee: a stock table written by the
//! stock writer reads back as exactly the rows that were written.

use vstd::prelude::*;
use crate::text::{
    csv_clean, sep_free, nl_free, is_ws_char, is_blank, fields_of, split_on, nonblank_lines,
    lemma_split_no_sep, lemma_split_at_sep, lemma_trim_stable, lemma_clean_edges,
    lemma_nl_free_concat, lemma_nonblank_id, lemma_nonblank_drop_blank_last,
};
use crate::qty::{
    render_qty, qty_bounded, lemma_qty_round_trip, lemma_render_qty_clean,
    lemma_render_qty_chars_kind, is_digit,
};
use crate::render::{lines_text, stock_header_line, stock_line, render_stock_text};
use crate::parse::{stock_header, stock_row_of_line, parse_stock_rows, parse_stock_text};
use crate::model::StockRowV;

verus! {

/// Splitting the text of newline-free lines on the line break recovers the
/// lines, plus the empty remainder after the final newline.
proof fn lemma_lines_split(ls: Seq<Seq<char>>)
    requires
        forall|i: int| 0 <= i < ls.len() ==> nl_free(#[trigger] ls[i]),
    ensures
        split_on(lines_text(ls), '\n') =~~= ls + seq![Seq::<char>::empty()],
    decreases ls.len(),
{
    if ls.len() == 0 {
        assert(lines_text(ls) == Seq::<char>::empty());
        assert(split_on(Seq::<char>::empty(), '\n') =~~= seq![Seq::<char>::empty()]);
        assert(ls + seq![Seq::<char>::empty()] =~~= seq![Seq::<char>::empty()]);
    } else {
        let rest = lines_text(ls.skip(1));
        assert(lines_text(ls) == ls[0] + seq!['\n'] + rest);
        assert(nl_free(ls[0]));
        lemma_split_at_sep(ls[0], rest, '\n');
        assert forall|i: int| 0 <= i < ls.skip(1).len() implies nl_free(
            #[trigger] ls.skip(1)[i],
        ) by {
            assert(ls.skip(1)[i] == ls[i + 1]);
        }
        lemma_lines_split(ls.skip(1));
        assert(split_on(lines_text(ls), '\n') =~~= seq![ls[0]] + (ls.skip(1) + seq![
            Seq::<char>::empty(),
        ]));
        assert(seq![ls[0]] + (ls.skip(1) + seq![Seq::<char>::empty()]) =~~= ls + seq![
            Seq::<char>::empty(),
        ]);
    }
}

/// The written header line reads back as exactly the stock schema.
proof fn lemma_stock_header_facts()
    ensures
        fields_of(stock_header_line()) =~~= stock_header(),
        nl_free(stock_header_line()),
        !is_blank(stock_header_line()),
{
    reveal_strlit("sku");
    reveal_strlit("on_hand_qty");
    reveal_strlit("reserved_qty");
    let a = "sku"@;
    let b = "on_hand_qty"@;
    let c = "reserved_qty"@;
    assert(a =~= seq!['s', 'k', 'u']);
    assert(b =~= seq!['o', 'n', '_', 'h', 'a', 'n', 'd', '_', 'q', 't', 'y']);
    assert(c =~= seq!['r', 'e', 's', 'e', 'r', 'v', 'e', 'd', '_', 'q', 't', 'y']);
    assert(sep_free(a) && sep_free(b) && sep_free(c));
    lemma_trim_stable(a);
    lemma_trim_stable(b);
    lemma_trim_stable(c);
    let line = stock_header_line();
    let tail = b + seq![','] + c;
    assert(line =~= a + seq![','] + tail);
    lemma_split_at_sep(a, tail, ',');
    lemma_split_at_sep(b, c, ',');
    lemma_split_no_sep(c, ',');
    assert(split_on(tail, ',') =~~= seq![b] + seq![c]);
    assert(split_on(line, ',') =~~= seq![a] + (seq![b] + seq![c]));
    assert(split_on(line, ',') =~~= seq![a, b, c]);
    assert(fields_of(line) =~~= seq![a, b, c]);
    assert(nl_free(seq![',']));
    lemma_nl_free_concat(a, seq![',']);
    lemma_nl_free_concat(a + seq![','], b);
    lemma_nl_free_concat(a + seq![','] + b, seq![',']);
    lemma_nl_free_concat(a + seq![','] + b + seq![','], c);
    assert(line[0] == 's');
    assert(line[line.len() - 1] == 'y');
    lemma_trim_stable(line);
}

/// One written stock row reads back as exactly that row.
proof fn lemma_stock_line_facts(r: StockRowV)
    requires
        csv_clean(r.sku),
        qty_bounded(r.on_hand),
        qty_bounded(r.reserved),
    ensures
        stock_row_of_line(stock_line(r)) == Option::Some(r),
        nl_free(stock_line(r)),
        !is_blank(stock_line(r)),
{
    let q1 = render_qty(r.on_hand);
    let q2 = render_qty(r.reserved);
    lemma_render_qty_clean(r.on_hand);
    lemma_render_qty_clean(r.reserved);
    lemma_qty_round_trip(r.on_hand);
    lemma_qty_round_trip(r.reserved);
    let line = stock_line(r);
    let tail = q1 + seq![','] + q2;
    assert(line =~= r.sku + seq![','] + tail);
    lemma_split_at_sep(r.sku, tail, ',');
    lemma_split_at_sep(q1, q2, ',');
    lemma_split_no_sep(q2, ',');
    assert(split_on(tail, ',') =~~= seq![q1] + seq![q2]);
    assert(split_on(line, ',') =~~= seq![r.sku] + (seq![q1] + seq![q2]));
    assert(split_on(line, ',') =~~= seq![r.sku, q1, q2]);
    assert(fields_of(line) =~~= seq![r.sku, q1, q2]);
    assert(stock_row_of_line(line) == Option::Some(
        StockRowV { sku: r.sku, on_hand: r.on_hand, reserved: r.reserved },
    ));
    assert(nl_free(seq![',']));
    lemma_nl_free_concat(r.sku, seq![',']);
    lemma_nl_free_concat(r.sku + seq![','], q1);
    lemma_nl_free_concat(r.sku + seq![','] + q1, seq![',']);
    lemma_nl_free_concat(r.sku + seq![','] + q1 + seq![','], q2);
    if r.sku.len() > 0 {
        lemma_clean_edges(r.sku);
        assert(line[0] == r.sku[0]);
    } else {
        assert(line[0] == ',');
    }
    assert(line[line.len() - 1] == q2[q2.len() - 1]);
    lemma_render_qty_chars_kind(r.reserved);
    assert(is_digit(q2[q2.len() - 1]));
    assert(!is_ws_char(line[0]));
    assert(!is_ws_char(line[line.len() - 1]));
    lemma_trim_stable(line);
}

/// A list of written stock lines parses back as exactly the rows, from any
/// starting row number.
proof fn lemma_parse_stock_lines(rows: Seq<StockRowV>, k: int)
    requires
        forall|i: int|
            0 <= i < rows.len() ==> csv_clean(#[trigger] rows[i].sku) && qty_bounded(
                rows[i].on_hand,
            ) && qty_bounded(rows[i].reserved),
    ensures
        parse_stock_rows(rows.map_values(|r: StockRowV| stock_line(r)), k) == Result::<
            Seq<StockRowV>,
            int,
        >::Ok(rows),
    decreases rows.len(),
{
    let ml = rows.map_values(|r: StockRowV| stock_line(r));
    if rows.len() == 0 {
        assert(ml.len() == 0);
        assert(parse_stock_rows(ml, k) == Result::<Seq<StockRowV>, int>::Ok(Seq::empty()));
        assert(Seq::<StockRowV>::empty() =~= rows);
    } else {
        assert(ml[0] == stock_line(rows[0]));
        lemma_stock_line_facts(rows[0]);
        assert forall|i: int| 0 <= i < rows.skip(1).len() implies csv_clean(
            #[trigger] rows.skip(1)[i].sku,
        ) && qty_bounded(rows.skip(1)[i].on_hand) && qty_bounded(rows.skip(1)[i].reserved) by {
            assert(rows.skip(1)[i] == rows[i + 1]);
        }
        lemma_parse_stock_lines(rows.skip(1), k + 1);
        assert(ml.skip(1) =~~= rows.skip(1).map_values(|r: StockRowV| stock_line(r)));
        assert(parse_stock_rows(ml.skip(1), k + 1) == Result::<Seq<StockRowV>, int>::Ok(
            rows.skip(1),
        ));
        assert(seq![rows[0]] + rows.skip(1) =~= rows);
    }
}

/// Round trip of the stock ledger: a stock table written by the stock
/// writer and loaded back yields exactly the rows that were written — the
/// same SKUs, on-hand and reserved values, in order. It holds of every row
/// set whose SKUs are clean fields (no delimiter or line break in a SKU,
/// no whitespace at its edges) and whose quantities the ledger can store.
pub proof fn lemma_stock_round_trip(rows: Seq<StockRowV>)
    requires
        forall|i: int|
            0 <= i < rows.len() ==> csv_clean(#[trigger] rows[i].sku) && qty_bounded(
                rows[i].on_hand,
            ) && qty_bounded(rows[i].reserved),
    ensures
        parse_stock_text(render_stock_text(rows)) == Result::<Seq<StockRowV>, int>::Ok(rows),
{
    let ml = rows.map_values(|r: StockRowV| stock_line(r));
    let all = seq![stock_header_line()] + ml;
    lemma_stock_header_facts();
    assert forall|i: int| 0 <= i < all.len() implies nl_free(#[trigger] all[i]) by {
        if i == 0 {
            assert(all[0] == stock_header_line());
        } else {
            assert(all[i] == stock_line(rows[i - 1]));
            lemma_stock_line_facts(rows[i - 1]);
        }
    }
    lemma_lines_split(all);
    let text = render_stock_text(rows);
    assert(text == lines_text(all));
    assert(split_on(text, '\n') =~~= all + seq![Seq::<char>::empty()]);
    assert forall|i: int| 0 <= i < all.len() implies !is_blank(#[trigger] all[i]) by {
        if i == 0 {
            assert(all[0] == stock_header_line());
        } else {
            assert(all[i] == stock_line(rows[i - 1]));
            lemma_stock_line_facts(rows[i - 1]);
        }
    }
    assert(is_blank(Seq::<char>::empty()));
    lemma_nonblank_drop_blank_last(all, Seq::<char>::empty());
    lemma_nonblank_id(all);
    assert(nonblank_lines(all.push(Seq::<char>::empty())) =~~= all);
    assert(all + seq![Seq::<char>::empty()] =~~= all.push(Seq::<char>::empty()));
    assert(nonblank_lines(split_on(text, '\n')) =~~= all);
    assert(all[0] == stock_header_line());
    assert(fields_of(all[0]) == stock_header());
    assert(all.skip(1) =~~= ml);
    lemma_parse_stock_lines(rows, 1);
    assert(parse_stock_text(text) == parse_stock_rows(ml, 1));
}

} // verus!
