//! Readers for the tabular catalog sources.
//!
//! Every source is lines of comma-separated fields under a mandatory header
//! naming the schema's columns; fields are trimmed, the column count is
//! strict, and the first row that does not convert is reported by its number
//! (zero stands for a missing or wrong header).

use vstd::prelude::*;
use crate::model::{
    Assembly, AssemblyV, assembly_views, Part, PartV, part_views, BomItem, BomItemV, bom_views,
    BuildHistoryRecord, BuildHistoryRecordV, history_views, InventoryItem, InventoryItemV,
    inventory_views, StockRow, StockRowV, stock_views,
};
use crate::qty::{Qty, parse_qty, parse_qty_chars, qty_bounded};
use crate::text::{
    split_on, nonblank_lines, fields_of, split_chars, keep_nonblank, line_fields, chars_match_str,
    str_chars, string_from_chars,
};

verus! {

pub open spec fn stock_header() -> Seq<Seq<char>> {
    seq!["sku"@, "on_hand_qty"@, "reserved_qty"@]
}

pub open spec fn stock_row_of_line(line: Seq<char>) -> Option<StockRowV> {
    let fs = fields_of(line);
    if fs.len() != 3 {
        Option::None
    } else {
        match (parse_qty(fs[1]), parse_qty(fs[2])) {
            (Option::Some(h), Option::Some(r)) => Option::Some(
                StockRowV { sku: fs[0], on_hand: h, reserved: r },
            ),
            _ => Option::None,
        }
    }
}

pub open spec fn parse_stock_rows(ls: Seq<Seq<char>>, k: int) -> Result<Seq<StockRowV>, int>
    decreases ls.len(),
{
    if ls.len() == 0 {
        Result::Ok(Seq::empty())
    } else {
        match stock_row_of_line(ls[0]) {
            Option::None => Result::Err(k),
            Option::Some(r) => match parse_stock_rows(ls.skip(1), k + 1) {
                Result::Ok(rs) => Result::Ok(seq![r] + rs),
                Result::Err(e) => Result::Err(e),
            },
        }
    }
}

/// What the stock source stands for: its typed rows, or the number of the
/// first offending row.
pub open spec fn parse_stock_text(s: Seq<char>) -> Result<Seq<StockRowV>, int> {
    let ls = nonblank_lines(split_on(s, '\n'));
    if ls.len() == 0 {
        Result::Err(0)
    } else if fields_of(ls[0]) != stock_header() {
        Result::Err(0)
    } else {
        parse_stock_rows(ls.skip(1), 1)
    }
}

/// Reads the stock table from source text.
pub fn parse_stock_csv(text: &str) -> (r: Result<Vec<StockRow>, usize>)
    ensures
        match r {
            Result::Ok(rows) => parse_stock_text(text@) == Result::<Seq<StockRowV>, int>::Ok(
                stock_views(rows@),
            ) && (
            forall|i: int|
                0 <= i < rows@.len() ==> qty_bounded(#[trigger] rows@[i]@.on_hand) && qty_bounded(
                    rows@[i]@.reserved,
                )),
            Result::Err(e) => parse_stock_text(text@) == Result::<Seq<StockRowV>, int>::Err(
                e as int,
            ),
        },
{
    let chars = str_chars(text);
    let raw = split_chars(&chars, '\n');
    let nb = keep_nonblank(&raw);
    let ghost ls = nonblank_lines(split_on(text@, '\n'));
    proof {
        assert(nb.deep_view() == ls);
        assert(nb@.len() == ls.len());
    }
    if nb.len() == 0 {
        return Err(0);
    }
    let hdr = line_fields(&nb[0]);
    proof {
        assert(nb@[0]@ == ls[0]);
        assert(hdr.deep_view() == fields_of(ls[0]));
        assert(hdr@.len() == fields_of(ls[0]).len());
    }
    if hdr.len() != 3 {
        proof {
            assert(stock_header().len() == 3);
            assert(fields_of(ls[0]) != stock_header());
        }
        return Err(0);
    }
    let ok0 = chars_match_str(&hdr[0], "sku");
    let ok1 = chars_match_str(&hdr[1], "on_hand_qty");
    let ok2 = chars_match_str(&hdr[2], "reserved_qty");
    proof {
        assert(hdr@[0]@ == fields_of(ls[0])[0]);
        assert(hdr@[1]@ == fields_of(ls[0])[1]);
        assert(hdr@[2]@ == fields_of(ls[0])[2]);
    }
    if !(ok0 && ok1 && ok2) {
        proof {
            assert(fields_of(ls[0]) != stock_header());
        }
        return Err(0);
    }
    proof {
        assert(fields_of(ls[0]) =~~= stock_header());
    }
    let mut out: Vec<StockRow> = Vec::new();
    let mut j: usize = 1;
    proof {
        match parse_stock_rows(ls.skip(1), 1) {
            Result::Ok(rs) => {
                assert(stock_views(out@) + rs =~= rs);
            },
            Result::Err(_) => {},
        }
        assert(parse_stock_rows(ls.skip(1), 1) == expected_suffix_stock(ls, out@, 1));
    }
    while j < nb.len()
        invariant
            1 <= j <= ls.len(),
            ls == nonblank_lines(split_on(text@, '\n')),
            fields_of(ls[0]) == stock_header(),
            nb.deep_view() == ls,
            nb@.len() == ls.len(),
            out@.len() == j - 1,
            forall|i: int|
                0 <= i < out@.len() ==> qty_bounded(#[trigger] out@[i]@.on_hand) && qty_bounded(
                    out@[i]@.reserved,
                ),
            parse_stock_rows(ls.skip(1), 1) == expected_suffix_stock(ls, out@, j as int),
        decreases ls.len() - j,
    {
        let ghost suf = ls.skip(j as int);
        proof {
            assert(suf[0] == ls[j as int]);
            assert(suf.skip(1) =~= ls.skip(j as int + 1));
            assert(nb@[j as int]@ == ls[j as int]);
        }
        let fs = line_fields(&nb[j]);
        proof {
            assert(fs.deep_view() == fields_of(ls[j as int]));
            assert(fs@.len() == fields_of(ls[j as int]).len());
        }
        if fs.len() != 3 {
            proof {
                assert(stock_row_of_line(ls[j as int]) is None);
                assert(parse_stock_rows(suf, j as int) == Result::<Seq<StockRowV>, int>::Err(
                    j as int,
                ));
            }
            return Err(j);
        }
        proof {
            assert(fs@[1]@ == fields_of(ls[j as int])[1]);
            assert(fs@[2]@ == fields_of(ls[j as int])[2]);
            assert(fs@[0]@ == fields_of(ls[j as int])[0]);
        }
        let h = match crate::qty::parse_qty_chars(&fs[1]) {
            Option::Some(q) => q,
            Option::None => {
                proof {
                    assert(stock_row_of_line(ls[j as int]) is None);
                    assert(parse_stock_rows(suf, j as int) == Result::<Seq<StockRowV>, int>::Err(
                        j as int,
                    ));
                }
                return Err(j);
            },
        };
        let rsv = match crate::qty::parse_qty_chars(&fs[2]) {
            Option::Some(q) => q,
            Option::None => {
                proof {
                    assert(stock_row_of_line(ls[j as int]) is None);
                    assert(parse_stock_rows(suf, j as int) == Result::<Seq<StockRowV>, int>::Err(
                        j as int,
                    ));
                }
                return Err(j);
            },
        };
        let sku = string_from_chars(&fs[0]);
        let row = StockRow { sku, on_hand_qty: h, reserved_qty: rsv };
        let ghost old_out = out@;
        proof {
            assert(stock_row_of_line(ls[j as int]) == Option::Some(row@));
        }
        out.push(row);
        proof {
            assert(out@ =~= old_out.push(row));
            lemma_stock_suffix_step(ls, old_out, row, j as int);
        }
        j += 1;
    }
    proof {
        assert(ls.skip(j as int) =~= Seq::<Seq<char>>::empty());
        assert(parse_stock_rows(ls.skip(j as int), j as int) == Result::<Seq<StockRowV>, int>::Ok(
            Seq::empty(),
        ));
        assert(stock_views(out@) + Seq::<StockRowV>::empty() =~= stock_views(out@));
        assert(parse_stock_rows(ls.skip(1), 1) == Result::<Seq<StockRowV>, int>::Ok(
            stock_views(out@),
        ));
    }
    Ok(out)
}

/// What the remaining rows must combine to, given the rows read so far.
spec fn expected_suffix_stock(ls: Seq<Seq<char>>, done: Seq<StockRow>, j: int) -> Result<
    Seq<StockRowV>,
    int,
> {
    match parse_stock_rows(ls.skip(j), j) {
        Result::Ok(rs) => Result::Ok(stock_views(done) + rs),
        Result::Err(e) => Result::Err(e),
    }
}

proof fn lemma_stock_suffix_step(ls: Seq<Seq<char>>, done: Seq<StockRow>, row: StockRow, j: int)
    requires
        1 <= j < ls.len(),
        stock_row_of_line(ls[j]) == Option::Some(row@),
    ensures
        expected_suffix_stock(ls, done, j) == expected_suffix_stock(ls, done.push(row), j + 1),
{
    let suf = ls.skip(j);
    assert(suf.len() == ls.len() - j);
    assert(suf[0] == ls[j]);
    assert(suf.skip(1) =~= ls.skip(j + 1));
    match parse_stock_rows(ls.skip(j + 1), j + 1) {
        Result::Ok(rs) => {
            assert(parse_stock_rows(suf, j) == Result::<Seq<StockRowV>, int>::Ok(
                seq![row@] + rs,
            ));
            assert(stock_views(done) + (seq![row@] + rs) =~= stock_views(done.push(row)) + rs);
        },
        Result::Err(e) => {
            assert(parse_stock_rows(suf, j) == Result::<Seq<StockRowV>, int>::Err(e));
        },
    }
}


/// What a `true`/`false` field stands for.
pub open spec fn parse_bool(s: Seq<char>) -> Option<bool> {
    if s == seq!['t', 'r', 'u', 'e'] {
        Option::Some(true)
    } else if s == seq!['f', 'a', 'l', 's', 'e'] {
        Option::Some(false)
    } else {
        Option::None
    }
}

pub fn parse_bool_chars(v: &Vec<char>) -> (r: Option<bool>)
    ensures
        r == parse_bool(v@),
{
    if v.len() == 4 && v[0] == 't' && v[1] == 'r' && v[2] == 'u' && v[3] == 'e' {
        proof {
            assert(v@ =~= seq!['t', 'r', 'u', 'e']);
        }
        Some(true)
    } else if v.len() == 5 && v[0] == 'f' && v[1] == 'a' && v[2] == 'l' && v[3] == 's' && v[4]
        == 'e' {
        proof {
            assert(v@ =~= seq!['f', 'a', 'l', 's', 'e']);
        }
        Some(false)
    } else {
        proof {
            let t = seq!['t', 'r', 'u', 'e'];
            let f = seq!['f', 'a', 'l', 's', 'e'];
            if v@ == t {
                assert(v@.len() == 4 && v@[0] == 't' && v@[1] == 'r' && v@[2] == 'u' && v@[3]
                    == 'e');
            }
            if v@ == f {
                assert(v@.len() == 5 && v@[0] == 'f' && v@[1] == 'a' && v@[2] == 'l' && v@[3] == 's'
                    && v@[4] == 'e');
            }
        }
        None
    }
}

/// An optional column: an empty field stands for no value.
pub open spec fn opt_field(s: Seq<char>) -> Option<Seq<char>> {
    if s.len() == 0 {
        Option::None
    } else {
        Option::Some(s)
    }
}

pub open spec fn assemblies_header() -> Seq<Seq<char>> {
    seq!["assembly_sku"@, "name"@, "uom"@]
}

pub open spec fn assemblies_row_of_line(line: Seq<char>) -> Option<AssemblyV> {
    let fs = fields_of(line);
    if fs.len() != 3 {
        Option::None
    } else {
        Option::Some(AssemblyV { assembly_sku: fs[0], name: fs[1], uom: fs[2] })
    }
}

pub open spec fn parse_assemblies_rows(ls: Seq<Seq<char>>, k: int) -> Result<Seq<AssemblyV>, int>
    decreases ls.len(),
{
    if ls.len() == 0 {
        Result::Ok(Seq::empty())
    } else {
        match assemblies_row_of_line(ls[0]) {
            Option::None => Result::Err(k),
            Option::Some(r) => match parse_assemblies_rows(ls.skip(1), k + 1) {
                Result::Ok(rs) => Result::Ok(seq![r] + rs),
                Result::Err(e) => Result::Err(e),
            },
        }
    }
}

/// What the assemblies source stands for: its typed rows, or the number of the
/// first offending row.
pub open spec fn parse_assemblies_text(s: Seq<char>) -> Result<Seq<AssemblyV>, int> {
    let ls = nonblank_lines(split_on(s, '\n'));
    if ls.len() == 0 {
        Result::Err(0)
    } else if fields_of(ls[0]) != assemblies_header() {
        Result::Err(0)
    } else {
        parse_assemblies_rows(ls.skip(1), 1)
    }
}

/// What the remaining rows must combine to, given the rows read so far.
spec fn expected_suffix_assemblies(ls: Seq<Seq<char>>, done: Seq<Assembly>, j: int) -> Result<
    Seq<AssemblyV>,
    int,
> {
    match parse_assemblies_rows(ls.skip(j), j) {
        Result::Ok(rs) => Result::Ok(assembly_views(done) + rs),
        Result::Err(e) => Result::Err(e),
    }
}

proof fn lemma_assemblies_suffix_step(ls: Seq<Seq<char>>, done: Seq<Assembly>, row: Assembly, j: int)
    requires
        1 <= j < ls.len(),
        assemblies_row_of_line(ls[j]) == Option::Some(row@),
    ensures
        expected_suffix_assemblies(ls, done, j) == expected_suffix_assemblies(ls, done.push(row), j + 1),
{
    let suf = ls.skip(j);
    assert(suf.len() == ls.len() - j);
    assert(suf[0] == ls[j]);
    assert(suf.skip(1) =~= ls.skip(j + 1));
    match parse_assemblies_rows(ls.skip(j + 1), j + 1) {
        Result::Ok(rs) => {
            assert(parse_assemblies_rows(suf, j) == Result::<Seq<AssemblyV>, int>::Ok(seq![row@] + rs));
            assert(assembly_views(done) + (seq![row@] + rs) =~= assembly_views(done.push(row)) + rs);
        },
        Result::Err(e) => {
            assert(parse_assemblies_rows(suf, j) == Result::<Seq<AssemblyV>, int>::Err(e));
        },
    }
}

/// Reads the assemblies table from source text.
pub fn parse_assemblies_csv(text: &str) -> (r: Result<Vec<Assembly>, usize>)
    ensures
        match r {
            Result::Ok(rows) => parse_assemblies_text(text@) == Result::<Seq<AssemblyV>, int>::Ok(
                assembly_views(rows@),
            ),
            Result::Err(e) => parse_assemblies_text(text@) == Result::<Seq<AssemblyV>, int>::Err(
                e as int,
            ),
        },
{
    let chars = str_chars(text);
    let raw = split_chars(&chars, '\n');
    let nb = keep_nonblank(&raw);
    let ghost ls = nonblank_lines(split_on(text@, '\n'));
    proof {
        assert(nb.deep_view() == ls);
        assert(nb@.len() == ls.len());
    }
    if nb.len() == 0 {
        return Err(0);
    }
    let hdr = line_fields(&nb[0]);
    proof {
        assert(nb@[0]@ == ls[0]);
        assert(hdr.deep_view() == fields_of(ls[0]));
        assert(hdr@.len() == fields_of(ls[0]).len());
    }
    if hdr.len() != 3 {
        proof {
            assert(assemblies_header().len() == 3);
            assert(fields_of(ls[0]) != assemblies_header());
        }
        return Err(0);
    }
    let ok0 = chars_match_str(&hdr[0], "assembly_sku");
    let ok1 = chars_match_str(&hdr[1], "name");
    let ok2 = chars_match_str(&hdr[2], "uom");
    proof {
        assert(hdr@[0]@ == fields_of(ls[0])[0]);
        assert(hdr@[1]@ == fields_of(ls[0])[1]);
        assert(hdr@[2]@ == fields_of(ls[0])[2]);
    }
    if !(ok0 && ok1 && ok2) {
        proof {
            assert(fields_of(ls[0]) != assemblies_header());
        }
        return Err(0);
    }
    proof {
        assert(fields_of(ls[0]) =~~= assemblies_header());
    }
    let mut out: Vec<Assembly> = Vec::new();
    let mut j: usize = 1;
    proof {
        match parse_assemblies_rows(ls.skip(1), 1) {
            Result::Ok(rs) => {
                assert(assembly_views(out@) + rs =~= rs);
            },
            Result::Err(_) => {},
        }
        assert(parse_assemblies_rows(ls.skip(1), 1) == expected_suffix_assemblies(ls, out@, 1));
    }
    while j < nb.len()
        invariant
            1 <= j <= ls.len(),
            ls == nonblank_lines(split_on(text@, '\n')),
            fields_of(ls[0]) == assemblies_header(),
            nb.deep_view() == ls,
            nb@.len() == ls.len(),
            out@.len() == j - 1,

            parse_assemblies_rows(ls.skip(1), 1) == expected_suffix_assemblies(ls, out@, j as int),
        decreases ls.len() - j,
    {
        let ghost suf = ls.skip(j as int);
        proof {
            assert(suf[0] == ls[j as int]);
            assert(suf.skip(1) =~= ls.skip(j as int + 1));
            assert(nb@[j as int]@ == ls[j as int]);
        }
        let fs = line_fields(&nb[j]);
        proof {
            assert(fs.deep_view() == fields_of(ls[j as int]));
            assert(fs@.len() == fields_of(ls[j as int]).len());
        }
        if fs.len() != 3 {
            proof {
                assert(assemblies_row_of_line(ls[j as int]) is None);
                assert(parse_assemblies_rows(suf, j as int) == Result::<Seq<AssemblyV>, int>::Err(
                    j as int,
                ));
            }
            return Err(j);
        }
        proof {
            assert(fs@[0]@ == fields_of(ls[j as int])[0]);
            assert(fs@[1]@ == fields_of(ls[j as int])[1]);
            assert(fs@[2]@ == fields_of(ls[j as int])[2]);
        }
        let f_sku = string_from_chars(&fs[0]);
        let f_name = string_from_chars(&fs[1]);
        let f_uom = string_from_chars(&fs[2]);
        let row = Assembly { assembly_sku: f_sku, name: f_name, uom: f_uom };
        let ghost old_out = out@;
        proof {
            assert(assemblies_row_of_line(ls[j as int]) == Option::Some(row@));
        }
        out.push(row);
        proof {
            assert(out@ =~= old_out.push(row));
            lemma_assemblies_suffix_step(ls, old_out, row, j as int);
        }
        j += 1;
    }
    proof {
        assert(ls.skip(j as int) =~= Seq::<Seq<char>>::empty());
        assert(parse_assemblies_rows(ls.skip(j as int), j as int) == Result::<Seq<AssemblyV>, int>::Ok(
            Seq::empty(),
        ));
        assert(assembly_views(out@) + Seq::<AssemblyV>::empty() =~= assembly_views(out@));
        assert(parse_assemblies_rows(ls.skip(1), 1) == Result::<Seq<AssemblyV>, int>::Ok(assembly_views(out@)));
    }
    Ok(out)
}


pub open spec fn parts_header() -> Seq<Seq<char>> {
    seq!["part_sku"@, "name"@, "uom"@]
}

pub open spec fn parts_row_of_line(line: Seq<char>) -> Option<PartV> {
    let fs = fields_of(line);
    if fs.len() != 3 {
        Option::None
    } else {
        Option::Some(PartV { part_sku: fs[0], name: fs[1], uom: fs[2] })
    }
}

pub open spec fn parse_parts_rows(ls: Seq<Seq<char>>, k: int) -> Result<Seq<PartV>, int>
    decreases ls.len(),
{
    if ls.len() == 0 {
        Result::Ok(Seq::empty())
    } else {
        match parts_row_of_line(ls[0]) {
            Option::None => Result::Err(k),
            Option::Some(r) => match parse_parts_rows(ls.skip(1), k + 1) {
                Result::Ok(rs) => Result::Ok(seq![r] + rs),
                Result::Err(e) => Result::Err(e),
            },
        }
    }
}

/// What the parts source stands for: its typed rows, or the number of the
/// first offending row.
pub open spec fn parse_parts_text(s: Seq<char>) -> Result<Seq<PartV>, int> {
    let ls = nonblank_lines(split_on(s, '\n'));
    if ls.len() == 0 {
        Result::Err(0)
    } else if fields_of(ls[0]) != parts_header() {
        Result::Err(0)
    } else {
        parse_parts_rows(ls.skip(1), 1)
    }
}

/// What the remaining rows must combine to, given the rows read so far.
spec fn expected_suffix_parts(ls: Seq<Seq<char>>, done: Seq<Part>, j: int) -> Result<
    Seq<PartV>,
    int,
> {
    match parse_parts_rows(ls.skip(j), j) {
        Result::Ok(rs) => Result::Ok(part_views(done) + rs),
        Result::Err(e) => Result::Err(e),
    }
}

proof fn lemma_parts_suffix_step(ls: Seq<Seq<char>>, done: Seq<Part>, row: Part, j: int)
    requires
        1 <= j < ls.len(),
        parts_row_of_line(ls[j]) == Option::Some(row@),
    ensures
        expected_suffix_parts(ls, done, j) == expected_suffix_parts(ls, done.push(row), j + 1),
{
    let suf = ls.skip(j);
    assert(suf.len() == ls.len() - j);
    assert(suf[0] == ls[j]);
    assert(suf.skip(1) =~= ls.skip(j + 1));
    match parse_parts_rows(ls.skip(j + 1), j + 1) {
        Result::Ok(rs) => {
            assert(parse_parts_rows(suf, j) == Result::<Seq<PartV>, int>::Ok(seq![row@] + rs));
            assert(part_views(done) + (seq![row@] + rs) =~= part_views(done.push(row)) + rs);
        },
        Result::Err(e) => {
            assert(parse_parts_rows(suf, j) == Result::<Seq<PartV>, int>::Err(e));
        },
    }
}

/// Reads the parts table from source text.
pub fn parse_parts_csv(text: &str) -> (r: Result<Vec<Part>, usize>)
    ensures
        match r {
            Result::Ok(rows) => parse_parts_text(text@) == Result::<Seq<PartV>, int>::Ok(
                part_views(rows@),
            ),
            Result::Err(e) => parse_parts_text(text@) == Result::<Seq<PartV>, int>::Err(
                e as int,
            ),
        },
{
    let chars = str_chars(text);
    let raw = split_chars(&chars, '\n');
    let nb = keep_nonblank(&raw);
    let ghost ls = nonblank_lines(split_on(text@, '\n'));
    proof {
        assert(nb.deep_view() == ls);
        assert(nb@.len() == ls.len());
    }
    if nb.len() == 0 {
        return Err(0);
    }
    let hdr = line_fields(&nb[0]);
    proof {
        assert(nb@[0]@ == ls[0]);
        assert(hdr.deep_view() == fields_of(ls[0]));
        assert(hdr@.len() == fields_of(ls[0]).len());
    }
    if hdr.len() != 3 {
        proof {
            assert(parts_header().len() == 3);
            assert(fields_of(ls[0]) != parts_header());
        }
        return Err(0);
    }
    let ok0 = chars_match_str(&hdr[0], "part_sku");
    let ok1 = chars_match_str(&hdr[1], "name");
    let ok2 = chars_match_str(&hdr[2], "uom");
    proof {
        assert(hdr@[0]@ == fields_of(ls[0])[0]);
        assert(hdr@[1]@ == fields_of(ls[0])[1]);
        assert(hdr@[2]@ == fields_of(ls[0])[2]);
    }
    if !(ok0 && ok1 && ok2) {
        proof {
            assert(fields_of(ls[0]) != parts_header());
        }
        return Err(0);
    }
    proof {
        assert(fields_of(ls[0]) =~~= parts_header());
    }
    let mut out: Vec<Part> = Vec::new();
    let mut j: usize = 1;
    proof {
        match parse_parts_rows(ls.skip(1), 1) {
            Result::Ok(rs) => {
                assert(part_views(out@) + rs =~= rs);
            },
            Result::Err(_) => {},
        }
        assert(parse_parts_rows(ls.skip(1), 1) == expected_suffix_parts(ls, out@, 1));
    }
    while j < nb.len()
        invariant
            1 <= j <= ls.len(),
            ls == nonblank_lines(split_on(text@, '\n')),
            fields_of(ls[0]) == parts_header(),
            nb.deep_view() == ls,
            nb@.len() == ls.len(),
            out@.len() == j - 1,

            parse_parts_rows(ls.skip(1), 1) == expected_suffix_parts(ls, out@, j as int),
        decreases ls.len() - j,
    {
        let ghost suf = ls.skip(j as int);
        proof {
            assert(suf[0] == ls[j as int]);
            assert(suf.skip(1) =~= ls.skip(j as int + 1));
            assert(nb@[j as int]@ == ls[j as int]);
        }
        let fs = line_fields(&nb[j]);
        proof {
            assert(fs.deep_view() == fields_of(ls[j as int]));
            assert(fs@.len() == fields_of(ls[j as int]).len());
        }
        if fs.len() != 3 {
            proof {
                assert(parts_row_of_line(ls[j as int]) is None);
                assert(parse_parts_rows(suf, j as int) == Result::<Seq<PartV>, int>::Err(
                    j as int,
                ));
            }
            return Err(j);
        }
        proof {
            assert(fs@[0]@ == fields_of(ls[j as int])[0]);
            assert(fs@[1]@ == fields_of(ls[j as int])[1]);
            assert(fs@[2]@ == fields_of(ls[j as int])[2]);
        }
        let f_sku = string_from_chars(&fs[0]);
        let f_name = string_from_chars(&fs[1]);
        let f_uom = string_from_chars(&fs[2]);
        let row = Part { part_sku: f_sku, name: f_name, uom: f_uom };
        let ghost old_out = out@;
        proof {
            assert(parts_row_of_line(ls[j as int]) == Option::Some(row@));
        }
        out.push(row);
        proof {
            assert(out@ =~= old_out.push(row));
            lemma_parts_suffix_step(ls, old_out, row, j as int);
        }
        j += 1;
    }
    proof {
        assert(ls.skip(j as int) =~= Seq::<Seq<char>>::empty());
        assert(parse_parts_rows(ls.skip(j as int), j as int) == Result::<Seq<PartV>, int>::Ok(
            Seq::empty(),
        ));
        assert(part_views(out@) + Seq::<PartV>::empty() =~= part_views(out@));
        assert(parse_parts_rows(ls.skip(1), 1) == Result::<Seq<PartV>, int>::Ok(part_views(out@)));
    }
    Ok(out)
}


pub open spec fn bom_header() -> Seq<Seq<char>> {
    seq!["parent_assembly_sku"@, "component_sku"@, "qty_per"@, "scrap_rate"@, "yield_pct"@, "is_phantom"@]
}

pub open spec fn bom_row_of_line(line: Seq<char>) -> Option<BomItemV> {
    let fs = fields_of(line);
    if fs.len() != 6 {
        Option::None
    } else {
        match (parse_qty(fs[2]), parse_qty(fs[3]), parse_qty(fs[4]), parse_bool(fs[5])) {
            (Option::Some(q), Option::Some(sc), Option::Some(y), Option::Some(p)) => Option::Some(
                BomItemV {
                    parent_assembly_sku: fs[0],
                    component_sku: fs[1],
                    qty_per: q,
                    scrap_rate: sc,
                    yield_pct: y,
                    is_phantom: p,
                },
            ),
            _ => Option::None,
        }
    }
}

pub open spec fn parse_bom_rows(ls: Seq<Seq<char>>, k: int) -> Result<Seq<BomItemV>, int>
    decreases ls.len(),
{
    if ls.len() == 0 {
        Result::Ok(Seq::empty())
    } else {
        match bom_row_of_line(ls[0]) {
            Option::None => Result::Err(k),
            Option::Some(r) => match parse_bom_rows(ls.skip(1), k + 1) {
                Result::Ok(rs) => Result::Ok(seq![r] + rs),
                Result::Err(e) => Result::Err(e),
            },
        }
    }
}

/// What the bom source stands for: its typed rows, or the number of the
/// first offending row.
pub open spec fn parse_bom_text(s: Seq<char>) -> Result<Seq<BomItemV>, int> {
    let ls = nonblank_lines(split_on(s, '\n'));
    if ls.len() == 0 {
        Result::Err(0)
    } else if fields_of(ls[0]) != bom_header() {
        Result::Err(0)
    } else {
        parse_bom_rows(ls.skip(1), 1)
    }
}

/// What the remaining rows must combine to, given the rows read so far.
spec fn expected_suffix_bom(ls: Seq<Seq<char>>, done: Seq<BomItem>, j: int) -> Result<
    Seq<BomItemV>,
    int,
> {
    match parse_bom_rows(ls.skip(j), j) {
        Result::Ok(rs) => Result::Ok(bom_views(done) + rs),
        Result::Err(e) => Result::Err(e),
    }
}

proof fn lemma_bom_suffix_step(ls: Seq<Seq<char>>, done: Seq<BomItem>, row: BomItem, j: int)
    requires
        1 <= j < ls.len(),
        bom_row_of_line(ls[j]) == Option::Some(row@),
    ensures
        expected_suffix_bom(ls, done, j) == expected_suffix_bom(ls, done.push(row), j + 1),
{
    let suf = ls.skip(j);
    assert(suf.len() == ls.len() - j);
    assert(suf[0] == ls[j]);
    assert(suf.skip(1) =~= ls.skip(j + 1));
    match parse_bom_rows(ls.skip(j + 1), j + 1) {
        Result::Ok(rs) => {
            assert(parse_bom_rows(suf, j) == Result::<Seq<BomItemV>, int>::Ok(seq![row@] + rs));
            assert(bom_views(done) + (seq![row@] + rs) =~= bom_views(done.push(row)) + rs);
        },
        Result::Err(e) => {
            assert(parse_bom_rows(suf, j) == Result::<Seq<BomItemV>, int>::Err(e));
        },
    }
}

/// Reads the bom table from source text.
pub fn parse_bom_csv(text: &str) -> (r: Result<Vec<BomItem>, usize>)
    ensures
        match r {
            Result::Ok(rows) => parse_bom_text(text@) == Result::<Seq<BomItemV>, int>::Ok(
                bom_views(rows@),
            ) && (forall|i: int|
                0 <= i < rows@.len() ==> qty_bounded(#[trigger] rows@[i]@.qty_per) && qty_bounded(
                    rows@[i]@.scrap_rate,
                ) && qty_bounded(rows@[i]@.yield_pct)),
            Result::Err(e) => parse_bom_text(text@) == Result::<Seq<BomItemV>, int>::Err(
                e as int,
            ),
        },
{
    let chars = str_chars(text);
    let raw = split_chars(&chars, '\n');
    let nb = keep_nonblank(&raw);
    let ghost ls = nonblank_lines(split_on(text@, '\n'));
    proof {
        assert(nb.deep_view() == ls);
        assert(nb@.len() == ls.len());
    }
    if nb.len() == 0 {
        return Err(0);
    }
    let hdr = line_fields(&nb[0]);
    proof {
        assert(nb@[0]@ == ls[0]);
        assert(hdr.deep_view() == fields_of(ls[0]));
        assert(hdr@.len() == fields_of(ls[0]).len());
    }
    if hdr.len() != 6 {
        proof {
            assert(bom_header().len() == 6);
            assert(fields_of(ls[0]) != bom_header());
        }
        return Err(0);
    }
    let ok0 = chars_match_str(&hdr[0], "parent_assembly_sku");
    let ok1 = chars_match_str(&hdr[1], "component_sku");
    let ok2 = chars_match_str(&hdr[2], "qty_per");
    let ok3 = chars_match_str(&hdr[3], "scrap_rate");
    let ok4 = chars_match_str(&hdr[4], "yield_pct");
    let ok5 = chars_match_str(&hdr[5], "is_phantom");
    proof {
        assert(hdr@[0]@ == fields_of(ls[0])[0]);
        assert(hdr@[1]@ == fields_of(ls[0])[1]);
        assert(hdr@[2]@ == fields_of(ls[0])[2]);
        assert(hdr@[3]@ == fields_of(ls[0])[3]);
        assert(hdr@[4]@ == fields_of(ls[0])[4]);
        assert(hdr@[5]@ == fields_of(ls[0])[5]);
    }
    if !(ok0 && ok1 && ok2 && ok3 && ok4 && ok5) {
        proof {
            assert(fields_of(ls[0]) != bom_header());
        }
        return Err(0);
    }
    proof {
        assert(fields_of(ls[0]) =~~= bom_header());
    }
    let mut out: Vec<BomItem> = Vec::new();
    let mut j: usize = 1;
    proof {
        match parse_bom_rows(ls.skip(1), 1) {
            Result::Ok(rs) => {
                assert(bom_views(out@) + rs =~= rs);
            },
            Result::Err(_) => {},
        }
        assert(parse_bom_rows(ls.skip(1), 1) == expected_suffix_bom(ls, out@, 1));
    }
    while j < nb.len()
        invariant
            1 <= j <= ls.len(),
            ls == nonblank_lines(split_on(text@, '\n')),
            fields_of(ls[0]) == bom_header(),
            nb.deep_view() == ls,
            nb@.len() == ls.len(),
            out@.len() == j - 1,
            forall|i: int|
                0 <= i < out@.len() ==> qty_bounded(#[trigger] out@[i]@.qty_per) && qty_bounded(
                    out@[i]@.scrap_rate,
                ) && qty_bounded(out@[i]@.yield_pct),
            parse_bom_rows(ls.skip(1), 1) == expected_suffix_bom(ls, out@, j as int),
        decreases ls.len() - j,
    {
        let ghost suf = ls.skip(j as int);
        proof {
            assert(suf[0] == ls[j as int]);
            assert(suf.skip(1) =~= ls.skip(j as int + 1));
            assert(nb@[j as int]@ == ls[j as int]);
        }
        let fs = line_fields(&nb[j]);
        proof {
            assert(fs.deep_view() == fields_of(ls[j as int]));
            assert(fs@.len() == fields_of(ls[j as int]).len());
        }
        if fs.len() != 6 {
            proof {
                assert(bom_row_of_line(ls[j as int]) is None);
                assert(parse_bom_rows(suf, j as int) == Result::<Seq<BomItemV>, int>::Err(
                    j as int,
                ));
            }
            return Err(j);
        }
        proof {
            assert(fs@[0]@ == fields_of(ls[j as int])[0]);
            assert(fs@[1]@ == fields_of(ls[j as int])[1]);
            assert(fs@[2]@ == fields_of(ls[j as int])[2]);
            assert(fs@[3]@ == fields_of(ls[j as int])[3]);
            assert(fs@[4]@ == fields_of(ls[j as int])[4]);
            assert(fs@[5]@ == fields_of(ls[j as int])[5]);
        }
        let qp = match parse_qty_chars(&fs[2]) {
            Option::Some(q) => q,
            Option::None => {
                proof {
                    assert(bom_row_of_line(ls[j as int]) is None);
                    assert(parse_bom_rows(suf, j as int) == Result::<Seq<BomItemV>, int>::Err(
                        j as int,
                    ));
                }
                return Err(j);
            },
        };
        let sc = match parse_qty_chars(&fs[3]) {
            Option::Some(q) => q,
            Option::None => {
                proof {
                    assert(bom_row_of_line(ls[j as int]) is None);
                    assert(parse_bom_rows(suf, j as int) == Result::<Seq<BomItemV>, int>::Err(
                        j as int,
                    ));
                }
                return Err(j);
            },
        };
        let yp = match parse_qty_chars(&fs[4]) {
            Option::Some(q) => q,
            Option::None => {
                proof {
                    assert(bom_row_of_line(ls[j as int]) is None);
                    assert(parse_bom_rows(suf, j as int) == Result::<Seq<BomItemV>, int>::Err(
                        j as int,
                    ));
                }
                return Err(j);
            },
        };
        let ph = match parse_bool_chars(&fs[5]) {
            Option::Some(b) => b,
            Option::None => {
                proof {
                    assert(bom_row_of_line(ls[j as int]) is None);
                    assert(parse_bom_rows(suf, j as int) == Result::<Seq<BomItemV>, int>::Err(
                        j as int,
                    ));
                }
                return Err(j);
            },
        };
        let f_parent = string_from_chars(&fs[0]);
        let f_comp = string_from_chars(&fs[1]);
        let row = BomItem {
            parent_assembly_sku: f_parent,
            component_sku: f_comp,
            qty_per: qp,
            scrap_rate: sc,
            yield_pct: yp,
            is_phantom: ph,
        };
        let ghost old_out = out@;
        proof {
            assert(bom_row_of_line(ls[j as int]) == Option::Some(row@));
        }
        out.push(row);
        proof {
            assert(out@ =~= old_out.push(row));
            lemma_bom_suffix_step(ls, old_out, row, j as int);
        }
        j += 1;
    }
    proof {
        assert(ls.skip(j as int) =~= Seq::<Seq<char>>::empty());
        assert(parse_bom_rows(ls.skip(j as int), j as int) == Result::<Seq<BomItemV>, int>::Ok(
            Seq::empty(),
        ));
        assert(bom_views(out@) + Seq::<BomItemV>::empty() =~= bom_views(out@));
        assert(parse_bom_rows(ls.skip(1), 1) == Result::<Seq<BomItemV>, int>::Ok(bom_views(out@)));
    }
    Ok(out)
}


pub open spec fn history_header() -> Seq<Seq<char>> {
    seq!["id"@, "timestamp"@, "work_order"@, "sales_order"@, "customer"@, "assembly_sku"@, "quantity_built"@, "operator"@, "notes"@]
}

pub open spec fn history_row_of_line(line: Seq<char>) -> Option<BuildHistoryRecordV> {
    let fs = fields_of(line);
    if fs.len() != 9 {
        Option::None
    } else {
        match parse_qty(fs[6]) {
            Option::Some(q) => Option::Some(
                BuildHistoryRecordV {
                    id: fs[0],
                    timestamp: fs[1],
                    work_order: fs[2],
                    sales_order: fs[3],
                    customer: fs[4],
                    assembly_sku: fs[5],
                    quantity_built: q,
                    operator: opt_field(fs[7]),
                    notes: opt_field(fs[8]),
                },
            ),
            Option::None => Option::None,
        }
    }
}

pub open spec fn parse_history_rows(ls: Seq<Seq<char>>, k: int) -> Result<Seq<BuildHistoryRecordV>, int>
    decreases ls.len(),
{
    if ls.len() == 0 {
        Result::Ok(Seq::empty())
    } else {
        match history_row_of_line(ls[0]) {
            Option::None => Result::Err(k),
            Option::Some(r) => match parse_history_rows(ls.skip(1), k + 1) {
                Result::Ok(rs) => Result::Ok(seq![r] + rs),
                Result::Err(e) => Result::Err(e),
            },
        }
    }
}

/// What the history source stands for: its typed rows, or the number of the
/// first offending row.
pub open spec fn parse_history_text(s: Seq<char>) -> Result<Seq<BuildHistoryRecordV>, int> {
    let ls = nonblank_lines(split_on(s, '\n'));
    if ls.len() == 0 {
        Result::Err(0)
    } else if fields_of(ls[0]) != history_header() {
        Result::Err(0)
    } else {
        parse_history_rows(ls.skip(1), 1)
    }
}

/// What the remaining rows must combine to, given the rows read so far.
spec fn expected_suffix_history(ls: Seq<Seq<char>>, done: Seq<BuildHistoryRecord>, j: int) -> Result<
    Seq<BuildHistoryRecordV>,
    int,
> {
    match parse_history_rows(ls.skip(j), j) {
        Result::Ok(rs) => Result::Ok(history_views(done) + rs),
        Result::Err(e) => Result::Err(e),
    }
}

proof fn lemma_history_suffix_step(ls: Seq<Seq<char>>, done: Seq<BuildHistoryRecord>, row: BuildHistoryRecord, j: int)
    requires
        1 <= j < ls.len(),
        history_row_of_line(ls[j]) == Option::Some(row@),
    ensures
        expected_suffix_history(ls, done, j) == expected_suffix_history(ls, done.push(row), j + 1),
{
    let suf = ls.skip(j);
    assert(suf.len() == ls.len() - j);
    assert(suf[0] == ls[j]);
    assert(suf.skip(1) =~= ls.skip(j + 1));
    match parse_history_rows(ls.skip(j + 1), j + 1) {
        Result::Ok(rs) => {
            assert(parse_history_rows(suf, j) == Result::<Seq<BuildHistoryRecordV>, int>::Ok(seq![row@] + rs));
            assert(history_views(done) + (seq![row@] + rs) =~= history_views(done.push(row)) + rs);
        },
        Result::Err(e) => {
            assert(parse_history_rows(suf, j) == Result::<Seq<BuildHistoryRecordV>, int>::Err(e));
        },
    }
}

/// Reads the history table from source text.
pub fn parse_history_csv(text: &str) -> (r: Result<Vec<BuildHistoryRecord>, usize>)
    ensures
        match r {
            Result::Ok(rows) => parse_history_text(text@) == Result::<Seq<BuildHistoryRecordV>, int>::Ok(
                history_views(rows@),
            ) && (forall|i: int|
                0 <= i < rows@.len() ==> qty_bounded(#[trigger] rows@[i]@.quantity_built)),
            Result::Err(e) => parse_history_text(text@) == Result::<Seq<BuildHistoryRecordV>, int>::Err(
                e as int,
            ),
        },
{
    let chars = str_chars(text);
    let raw = split_chars(&chars, '\n');
    let nb = keep_nonblank(&raw);
    let ghost ls = nonblank_lines(split_on(text@, '\n'));
    proof {
        assert(nb.deep_view() == ls);
        assert(nb@.len() == ls.len());
    }
    if nb.len() == 0 {
        return Err(0);
    }
    let hdr = line_fields(&nb[0]);
    proof {
        assert(nb@[0]@ == ls[0]);
        assert(hdr.deep_view() == fields_of(ls[0]));
        assert(hdr@.len() == fields_of(ls[0]).len());
    }
    if hdr.len() != 9 {
        proof {
            assert(history_header().len() == 9);
            assert(fields_of(ls[0]) != history_header());
        }
        return Err(0);
    }
    let ok0 = chars_match_str(&hdr[0], "id");
    let ok1 = chars_match_str(&hdr[1], "timestamp");
    let ok2 = chars_match_str(&hdr[2], "work_order");
    let ok3 = chars_match_str(&hdr[3], "sales_order");
    let ok4 = chars_match_str(&hdr[4], "customer");
    let ok5 = chars_match_str(&hdr[5], "assembly_sku");
    let ok6 = chars_match_str(&hdr[6], "quantity_built");
    let ok7 = chars_match_str(&hdr[7], "operator");
    let ok8 = chars_match_str(&hdr[8], "notes");
    proof {
        assert(hdr@[0]@ == fields_of(ls[0])[0]);
        assert(hdr@[1]@ == fields_of(ls[0])[1]);
        assert(hdr@[2]@ == fields_of(ls[0])[2]);
        assert(hdr@[3]@ == fields_of(ls[0])[3]);
        assert(hdr@[4]@ == fields_of(ls[0])[4]);
        assert(hdr@[5]@ == fields_of(ls[0])[5]);
        assert(hdr@[6]@ == fields_of(ls[0])[6]);
        assert(hdr@[7]@ == fields_of(ls[0])[7]);
        assert(hdr@[8]@ == fields_of(ls[0])[8]);
    }
    if !(ok0 && ok1 && ok2 && ok3 && ok4 && ok5 && ok6 && ok7 && ok8) {
        proof {
            assert(fields_of(ls[0]) != history_header());
        }
        return Err(0);
    }
    proof {
        assert(fields_of(ls[0]) =~~= history_header());
    }
    let mut out: Vec<BuildHistoryRecord> = Vec::new();
    let mut j: usize = 1;
    proof {
        match parse_history_rows(ls.skip(1), 1) {
            Result::Ok(rs) => {
                assert(history_views(out@) + rs =~= rs);
            },
            Result::Err(_) => {},
        }
        assert(parse_history_rows(ls.skip(1), 1) == expected_suffix_history(ls, out@, 1));
    }
    while j < nb.len()
        invariant
            1 <= j <= ls.len(),
            ls == nonblank_lines(split_on(text@, '\n')),
            fields_of(ls[0]) == history_header(),
            nb.deep_view() == ls,
            nb@.len() == ls.len(),
            out@.len() == j - 1,
            forall|i: int|
                0 <= i < out@.len() ==> qty_bounded(#[trigger] out@[i]@.quantity_built),
            parse_history_rows(ls.skip(1), 1) == expected_suffix_history(ls, out@, j as int),
        decreases ls.len() - j,
    {
        let ghost suf = ls.skip(j as int);
        proof {
            assert(suf[0] == ls[j as int]);
            assert(suf.skip(1) =~= ls.skip(j as int + 1));
            assert(nb@[j as int]@ == ls[j as int]);
        }
        let fs = line_fields(&nb[j]);
        proof {
            assert(fs.deep_view() == fields_of(ls[j as int]));
            assert(fs@.len() == fields_of(ls[j as int]).len());
        }
        if fs.len() != 9 {
            proof {
                assert(history_row_of_line(ls[j as int]) is None);
                assert(parse_history_rows(suf, j as int) == Result::<Seq<BuildHistoryRecordV>, int>::Err(
                    j as int,
                ));
            }
            return Err(j);
        }
        proof {
            assert(fs@[0]@ == fields_of(ls[j as int])[0]);
            assert(fs@[1]@ == fields_of(ls[j as int])[1]);
            assert(fs@[2]@ == fields_of(ls[j as int])[2]);
            assert(fs@[3]@ == fields_of(ls[j as int])[3]);
            assert(fs@[4]@ == fields_of(ls[j as int])[4]);
            assert(fs@[5]@ == fields_of(ls[j as int])[5]);
            assert(fs@[6]@ == fields_of(ls[j as int])[6]);
            assert(fs@[7]@ == fields_of(ls[j as int])[7]);
            assert(fs@[8]@ == fields_of(ls[j as int])[8]);
        }
        let qb = match parse_qty_chars(&fs[6]) {
            Option::Some(q) => q,
            Option::None => {
                proof {
                    assert(history_row_of_line(ls[j as int]) is None);
                    assert(parse_history_rows(suf, j as int) == Result::<Seq<BuildHistoryRecordV>, int>::Err(
                        j as int,
                    ));
                }
                return Err(j);
            },
        };
        let f_id = string_from_chars(&fs[0]);
        let f_ts = string_from_chars(&fs[1]);
        let f_wo = string_from_chars(&fs[2]);
        let f_so = string_from_chars(&fs[3]);
        let f_cust = string_from_chars(&fs[4]);
        let f_sku = string_from_chars(&fs[5]);
        let f_oper: Option<String> = if fs[7].len() == 0 {
            None
        } else {
            Some(string_from_chars(&fs[7]))
        };
        let f_notes: Option<String> = if fs[8].len() == 0 {
            None
        } else {
            Some(string_from_chars(&fs[8]))
        };
        let row = BuildHistoryRecord {
            id: f_id,
            timestamp: f_ts,
            work_order: f_wo,
            sales_order: f_so,
            customer: f_cust,
            assembly_sku: f_sku,
            quantity_built: qb,
            operator: f_oper,
            notes: f_notes,
        };
        let ghost old_out = out@;
        proof {
            assert(history_row_of_line(ls[j as int]) == Option::Some(row@));
        }
        out.push(row);
        proof {
            assert(out@ =~= old_out.push(row));
            lemma_history_suffix_step(ls, old_out, row, j as int);
        }
        j += 1;
    }
    proof {
        assert(ls.skip(j as int) =~= Seq::<Seq<char>>::empty());
        assert(parse_history_rows(ls.skip(j as int), j as int) == Result::<Seq<BuildHistoryRecordV>, int>::Ok(
            Seq::empty(),
        ));
        assert(history_views(out@) + Seq::<BuildHistoryRecordV>::empty() =~= history_views(out@));
        assert(parse_history_rows(ls.skip(1), 1) == Result::<Seq<BuildHistoryRecordV>, int>::Ok(history_views(out@)));
    }
    Ok(out)
}


pub open spec fn inventory_header() -> Seq<Seq<char>> {
    seq!["sku"@, "name"@, "uom"@, "on_hand_qty"@, "reserved_qty"@, "available_qty"@, "reorder_point"@, "supplier"@]
}

pub open spec fn inventory_row_of_line(line: Seq<char>) -> Option<InventoryItemV> {
    let fs = fields_of(line);
    if fs.len() != 8 {
        Option::None
    } else {
        match (parse_qty(fs[3]), parse_qty(fs[4]), parse_qty(fs[5])) {
            (Option::Some(h), Option::Some(rv), Option::Some(av)) => {
                if fs[6].len() == 0 {
                    Option::Some(
                        InventoryItemV {
                            sku: fs[0],
                            name: fs[1],
                            uom: fs[2],
                            on_hand: h,
                            reserved: rv,
                            available: av,
                            reorder_point: Option::None,
                            supplier: opt_field(fs[7]),
                        },
                    )
                } else {
                    match parse_qty(fs[6]) {
                        Option::Some(rp) => Option::Some(
                            InventoryItemV {
                                sku: fs[0],
                                name: fs[1],
                                uom: fs[2],
                                on_hand: h,
                                reserved: rv,
                                available: av,
                                reorder_point: Option::Some(rp),
                                supplier: opt_field(fs[7]),
                            },
                        ),
                        Option::None => Option::None,
                    }
                }
            },
            _ => Option::None,
        }
    }
}

pub open spec fn parse_inventory_rows(ls: Seq<Seq<char>>, k: int) -> Result<Seq<InventoryItemV>, int>
    decreases ls.len(),
{
    if ls.len() == 0 {
        Result::Ok(Seq::empty())
    } else {
        match inventory_row_of_line(ls[0]) {
            Option::None => Result::Err(k),
            Option::Some(r) => match parse_inventory_rows(ls.skip(1), k + 1) {
                Result::Ok(rs) => Result::Ok(seq![r] + rs),
                Result::Err(e) => Result::Err(e),
            },
        }
    }
}

/// What the inventory source stands for: its typed rows, or the number of the
/// first offending row.
pub open spec fn parse_inventory_text(s: Seq<char>) -> Result<Seq<InventoryItemV>, int> {
    let ls = nonblank_lines(split_on(s, '\n'));
    if ls.len() == 0 {
        Result::Err(0)
    } else if fields_of(ls[0]) != inventory_header() {
        Result::Err(0)
    } else {
        parse_inventory_rows(ls.skip(1), 1)
    }
}

/// What the remaining rows must combine to, given the rows read so far.
spec fn expected_suffix_inventory(ls: Seq<Seq<char>>, done: Seq<InventoryItem>, j: int) -> Result<
    Seq<InventoryItemV>,
    int,
> {
    match parse_inventory_rows(ls.skip(j), j) {
        Result::Ok(rs) => Result::Ok(inventory_views(done) + rs),
        Result::Err(e) => Result::Err(e),
    }
}

proof fn lemma_inventory_suffix_step(ls: Seq<Seq<char>>, done: Seq<InventoryItem>, row: InventoryItem, j: int)
    requires
        1 <= j < ls.len(),
        inventory_row_of_line(ls[j]) == Option::Some(row@),
    ensures
        expected_suffix_inventory(ls, done, j) == expected_suffix_inventory(ls, done.push(row), j + 1),
{
    let suf = ls.skip(j);
    assert(suf.len() == ls.len() - j);
    assert(suf[0] == ls[j]);
    assert(suf.skip(1) =~= ls.skip(j + 1));
    match parse_inventory_rows(ls.skip(j + 1), j + 1) {
        Result::Ok(rs) => {
            assert(parse_inventory_rows(suf, j) == Result::<Seq<InventoryItemV>, int>::Ok(seq![row@] + rs));
            assert(inventory_views(done) + (seq![row@] + rs) =~= inventory_views(done.push(row)) + rs);
        },
        Result::Err(e) => {
            assert(parse_inventory_rows(suf, j) == Result::<Seq<InventoryItemV>, int>::Err(e));
        },
    }
}

/// Reads the inventory table from source text.
pub fn parse_inventory_csv(text: &str) -> (r: Result<Vec<InventoryItem>, usize>)
    ensures
        match r {
            Result::Ok(rows) => parse_inventory_text(text@) == Result::<Seq<InventoryItemV>, int>::Ok(
                inventory_views(rows@),
            ) && (forall|i: int|
                0 <= i < rows@.len() ==> qty_bounded(#[trigger] rows@[i]@.on_hand) && qty_bounded(
                    rows@[i]@.reserved,
                ) && qty_bounded(rows@[i]@.available)),
            Result::Err(e) => parse_inventory_text(text@) == Result::<Seq<InventoryItemV>, int>::Err(
                e as int,
            ),
        },
{
    let chars = str_chars(text);
    let raw = split_chars(&chars, '\n');
    let nb = keep_nonblank(&raw);
    let ghost ls = nonblank_lines(split_on(text@, '\n'));
    proof {
        assert(nb.deep_view() == ls);
        assert(nb@.len() == ls.len());
    }
    if nb.len() == 0 {
        return Err(0);
    }
    let hdr = line_fields(&nb[0]);
    proof {
        assert(nb@[0]@ == ls[0]);
        assert(hdr.deep_view() == fields_of(ls[0]));
        assert(hdr@.len() == fields_of(ls[0]).len());
    }
    if hdr.len() != 8 {
        proof {
            assert(inventory_header().len() == 8);
            assert(fields_of(ls[0]) != inventory_header());
        }
        return Err(0);
    }
    let ok0 = chars_match_str(&hdr[0], "sku");
    let ok1 = chars_match_str(&hdr[1], "name");
    let ok2 = chars_match_str(&hdr[2], "uom");
    let ok3 = chars_match_str(&hdr[3], "on_hand_qty");
    let ok4 = chars_match_str(&hdr[4], "reserved_qty");
    let ok5 = chars_match_str(&hdr[5], "available_qty");
    let ok6 = chars_match_str(&hdr[6], "reorder_point");
    let ok7 = chars_match_str(&hdr[7], "supplier");
    proof {
        assert(hdr@[0]@ == fields_of(ls[0])[0]);
        assert(hdr@[1]@ == fields_of(ls[0])[1]);
        assert(hdr@[2]@ == fields_of(ls[0])[2]);
        assert(hdr@[3]@ == fields_of(ls[0])[3]);
        assert(hdr@[4]@ == fields_of(ls[0])[4]);
        assert(hdr@[5]@ == fields_of(ls[0])[5]);
        assert(hdr@[6]@ == fields_of(ls[0])[6]);
        assert(hdr@[7]@ == fields_of(ls[0])[7]);
    }
    if !(ok0 && ok1 && ok2 && ok3 && ok4 && ok5 && ok6 && ok7) {
        proof {
            assert(fields_of(ls[0]) != inventory_header());
        }
        return Err(0);
    }
    proof {
        assert(fields_of(ls[0]) =~~= inventory_header());
    }
    let mut out: Vec<InventoryItem> = Vec::new();
    let mut j: usize = 1;
    proof {
        match parse_inventory_rows(ls.skip(1), 1) {
            Result::Ok(rs) => {
                assert(inventory_views(out@) + rs =~= rs);
            },
            Result::Err(_) => {},
        }
        assert(parse_inventory_rows(ls.skip(1), 1) == expected_suffix_inventory(ls, out@, 1));
    }
    while j < nb.len()
        invariant
            1 <= j <= ls.len(),
            ls == nonblank_lines(split_on(text@, '\n')),
            fields_of(ls[0]) == inventory_header(),
            nb.deep_view() == ls,
            nb@.len() == ls.len(),
            out@.len() == j - 1,
            forall|i: int|
                0 <= i < out@.len() ==> qty_bounded(#[trigger] out@[i]@.on_hand) && qty_bounded(
                    out@[i]@.reserved,
                ) && qty_bounded(out@[i]@.available),
            parse_inventory_rows(ls.skip(1), 1) == expected_suffix_inventory(ls, out@, j as int),
        decreases ls.len() - j,
    {
        let ghost suf = ls.skip(j as int);
        proof {
            assert(suf[0] == ls[j as int]);
            assert(suf.skip(1) =~= ls.skip(j as int + 1));
            assert(nb@[j as int]@ == ls[j as int]);
        }
        let fs = line_fields(&nb[j]);
        proof {
            assert(fs.deep_view() == fields_of(ls[j as int]));
            assert(fs@.len() == fields_of(ls[j as int]).len());
        }
        if fs.len() != 8 {
            proof {
                assert(inventory_row_of_line(ls[j as int]) is None);
                assert(parse_inventory_rows(suf, j as int) == Result::<Seq<InventoryItemV>, int>::Err(
                    j as int,
                ));
            }
            return Err(j);
        }
        proof {
            assert(fs@[0]@ == fields_of(ls[j as int])[0]);
            assert(fs@[1]@ == fields_of(ls[j as int])[1]);
            assert(fs@[2]@ == fields_of(ls[j as int])[2]);
            assert(fs@[3]@ == fields_of(ls[j as int])[3]);
            assert(fs@[4]@ == fields_of(ls[j as int])[4]);
            assert(fs@[5]@ == fields_of(ls[j as int])[5]);
            assert(fs@[6]@ == fields_of(ls[j as int])[6]);
            assert(fs@[7]@ == fields_of(ls[j as int])[7]);
        }
        let f_h = match parse_qty_chars(&fs[3]) {
            Option::Some(q) => q,
            Option::None => {
                proof {
                    assert(inventory_row_of_line(ls[j as int]) is None);
                    assert(parse_inventory_rows(suf, j as int) == Result::<Seq<InventoryItemV>, int>::Err(
                        j as int,
                    ));
                }
                return Err(j);
            },
        };
        let f_rv = match parse_qty_chars(&fs[4]) {
            Option::Some(q) => q,
            Option::None => {
                proof {
                    assert(inventory_row_of_line(ls[j as int]) is None);
                    assert(parse_inventory_rows(suf, j as int) == Result::<Seq<InventoryItemV>, int>::Err(
                        j as int,
                    ));
                }
                return Err(j);
            },
        };
        let f_av = match parse_qty_chars(&fs[5]) {
            Option::Some(q) => q,
            Option::None => {
                proof {
                    assert(inventory_row_of_line(ls[j as int]) is None);
                    assert(parse_inventory_rows(suf, j as int) == Result::<Seq<InventoryItemV>, int>::Err(
                        j as int,
                    ));
                }
                return Err(j);
            },
        };
        let f_rp: Option<Qty> = if fs[6].len() == 0 {
            None
        } else {
            match parse_qty_chars(&fs[6]) {
                Option::Some(q) => Some(q),
                Option::None => {
                proof {
                    assert(inventory_row_of_line(ls[j as int]) is None);
                    assert(parse_inventory_rows(suf, j as int) == Result::<Seq<InventoryItemV>, int>::Err(
                        j as int,
                    ));
                }
                return Err(j);
                },
            }
        };
        let f_sku = string_from_chars(&fs[0]);
        let f_name = string_from_chars(&fs[1]);
        let f_uom = string_from_chars(&fs[2]);
        let f_sup: Option<String> = if fs[7].len() == 0 {
            None
        } else {
            Some(string_from_chars(&fs[7]))
        };
        let row = InventoryItem {
            sku: f_sku,
            name: f_name,
            uom: f_uom,
            on_hand_qty: f_h,
            reserved_qty: f_rv,
            available_qty: f_av,
            reorder_point: f_rp,
            supplier: f_sup,
        };
        let ghost old_out = out@;
        proof {
            assert(inventory_row_of_line(ls[j as int]) == Option::Some(row@));
        }
        out.push(row);
        proof {
            assert(out@ =~= old_out.push(row));
            lemma_inventory_suffix_step(ls, old_out, row, j as int);
        }
        j += 1;
    }
    proof {
        assert(ls.skip(j as int) =~= Seq::<Seq<char>>::empty());
        assert(parse_inventory_rows(ls.skip(j as int), j as int) == Result::<Seq<InventoryItemV>, int>::Ok(
            Seq::empty(),
        ));
        assert(inventory_views(out@) + Seq::<InventoryItemV>::empty() =~= inventory_views(out@));
        assert(parse_inventory_rows(ls.skip(1), 1) == Result::<Seq<InventoryItemV>, int>::Ok(inventory_views(out@)));
    }
    Ok(out)
}

} // verus!
