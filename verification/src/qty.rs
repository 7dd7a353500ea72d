//! Fixed-point quantities.
//!
//! Every quantity in the catalog (stock on hand, reserved stock, BOM
//! consumption factors, build counts) is a decimal number with up to three
//! fraction digits, held exactly as a signed count of thousandths of a unit.
//! A stored quantity stays below a million units in magnitude; text with more
//! than three fraction digits, an exponent, or a larger magnitude is rejected
//! by the parser rather than rounded.

use vstd::prelude::*;
use crate::text::{split_on, lemma_split_no_sep, lemma_split_at_sep, lemma_split_single, split_chars, tail_chars};
use vstd::arithmetic::div_mod::{
    lemma_fundamental_div_mod, lemma_div_denominator, lemma_div_is_ordered,
};

verus! {

/// Largest magnitude, in thousandths, that a stored quantity may carry:
/// just under one million units.
pub const QTY_MAX_MILLI: i64 = 999_999_999;

/// A quantity in thousandths of a unit.
#[derive(Clone, Copy, PartialEq, Eq, Structural, Debug)]
pub struct Qty {
    pub milli: i64,
}

/// A quantity magnitude the catalog files can carry.
pub open spec fn qty_bounded(milli: int) -> bool {
    -(QTY_MAX_MILLI as int) <= milli <= QTY_MAX_MILLI as int
}

impl Qty {
    /// The quantity of `milli` thousandths of a unit.
    pub fn from_milli(milli: i64) -> (q: Qty)
        ensures
            q.milli == milli,
    {
        Qty { milli }
    }

    pub open spec fn bounded(self) -> bool {
        qty_bounded(self.milli as int)
    }
}

pub open spec fn is_digit(c: char) -> bool {
    48 <= c as int <= 57
}

pub open spec fn digit_val(c: char) -> int {
    c as int - 48
}

pub open spec fn digit_char(d: int) -> char {
    if d == 0 {
        '0'
    } else if d == 1 {
        '1'
    } else if d == 2 {
        '2'
    } else if d == 3 {
        '3'
    } else if d == 4 {
        '4'
    } else if d == 5 {
        '5'
    } else if d == 6 {
        '6'
    } else if d == 7 {
        '7'
    } else if d == 8 {
        '8'
    } else {
        '9'
    }
}

pub proof fn lemma_digit_char_val(d: int)
    requires
        0 <= d <= 9,
    ensures
        is_digit(digit_char(d)),
        digit_val(digit_char(d)) == d,
{
}

pub open spec fn all_digits(s: Seq<char>) -> bool {
    forall|i: int| 0 <= i < s.len() ==> is_digit(s[i])
}

/// The number a digit string stands for.
pub open spec fn digits_val(s: Seq<char>) -> int
    decreases s.len(),
{
    if s.len() == 0 {
        0
    } else {
        digits_val(s.drop_last()) * 10 + digit_val(s.last())
    }
}

pub proof fn lemma_digits_val_nonneg(s: Seq<char>)
    requires
        all_digits(s),
    ensures
        digits_val(s) >= 0,
    decreases s.len(),
{
    if s.len() > 0 {
        assert(all_digits(s.drop_last()));
        lemma_digits_val_nonneg(s.drop_last());
    }
}

/// Appending digits never shrinks the value a digit string stands for.
pub proof fn lemma_digits_val_prefix(s: Seq<char>, i: int)
    requires
        all_digits(s),
        0 <= i <= s.len(),
    ensures
        digits_val(s.take(i)) <= digits_val(s),
    decreases s.len(),
{
    if i < s.len() {
        assert(all_digits(s.drop_last()));
        assert(s.take(i) =~= s.drop_last().take(i));
        lemma_digits_val_prefix(s.drop_last(), i);
        lemma_digits_val_nonneg(s.drop_last());
    } else {
        assert(s.take(i) =~= s);
    }
}

/// An optional leading sign, then the magnitude text.
pub open spec fn sign_split(s: Seq<char>) -> (bool, Seq<char>) {
    if s.len() > 0 && s[0] == '-' {
        (true, s.skip(1))
    } else if s.len() > 0 && s[0] == '+' {
        (false, s.skip(1))
    } else {
        (false, s)
    }
}

pub open spec fn frac_scale(n: int) -> int {
    if n == 1 {
        100
    } else if n == 2 {
        10
    } else {
        1
    }
}

/// The thousandths an unsigned decimal magnitude stands for: digits with an
/// optional point and at most three fraction digits.
pub open spec fn parse_unsigned_milli(s: Seq<char>) -> Option<int> {
    let parts = split_on(s, '.');
    if parts.len() == 1 {
        if s.len() > 0 && all_digits(s) {
            Some(digits_val(s) * 1000)
        } else {
            None
        }
    } else if parts.len() == 2 {
        let ip = parts[0];
        let fp = parts[1];
        if ip.len() + fp.len() > 0 && fp.len() <= 3 && all_digits(ip) && all_digits(fp) {
            Some(digits_val(ip) * 1000 + digits_val(fp) * frac_scale(fp.len() as int))
        } else {
            None
        }
    } else {
        None
    }
}

/// The quantity a trimmed field stands for, in thousandths, if it is a
/// decimal number the ledger can hold.
pub open spec fn parse_qty(s: Seq<char>) -> Option<int> {
    let (neg, mag) = sign_split(s);
    match parse_unsigned_milli(mag) {
        Option::None => Option::None,
        Option::Some(v) => {
            let m = if neg {
                -v
            } else {
                v
            };
            if qty_bounded(m) {
                Option::Some(m)
            } else {
                Option::None
            }
        },
    }
}

fn digit_of(c: char) -> (r: Option<i64>)
    ensures
        r is Some <==> is_digit(c),
        r is Some ==> r->0 == digit_val(c),
{
    let u = c as u32;
    if 48 <= u && u <= 57 {
        Some((u - 48) as i64)
    } else {
        None
    }
}

/// Reads a digit string, refusing values beyond `cap`.
fn digits_to_val(v: &Vec<char>, cap: i64) -> (r: Option<i64>)
    requires
        0 <= cap <= QTY_MAX_MILLI,
    ensures
        r is Some <==> (all_digits(v@) && digits_val(v@) <= cap),
        r is Some ==> r->0 == digits_val(v@) && 0 <= r->0,
{
    let mut acc: i64 = 0;
    let mut k: usize = 0;
    proof {
        assert(v@.take(0) =~= Seq::<char>::empty());
    }
    while k < v.len()
        invariant
            0 <= k <= v@.len(),
            0 <= cap <= QTY_MAX_MILLI,
            all_digits(v@.take(k as int)),
            acc == digits_val(v@.take(k as int)),
            0 <= acc <= cap,
        decreases v@.len() - k,
    {
        let ghost pre = v@.take(k as int);
        let c = v[k];
        proof {
            assert(v@.take(k as int + 1).drop_last() =~= pre);
            assert(v@.take(k as int + 1).last() == c);
        }
        match digit_of(c) {
            Option::None => {
                proof {
                    assert(!is_digit(v@[k as int]));
                    assert(!all_digits(v@));
                }
                return None;
            },
            Option::Some(d) => {
                let next = acc * 10 + d;
                if next > cap {
                    proof {
                        assert(all_digits(v@.take(k as int + 1)));
                        assert(digits_val(v@.take(k as int + 1)) == next);
                        if all_digits(v@) {
                            lemma_digits_val_prefix(v@, k as int + 1);
                            assert(digits_val(v@) >= next > cap);
                        }
                    }
                    return None;
                }
                acc = next;
                k += 1;
            },
        }
    }
    proof {
        assert(v@.take(k as int) =~= v@);
    }
    Some(acc)
}

/// Reads a quantity from a trimmed field.
pub fn parse_qty_chars(field: &Vec<char>) -> (r: Option<Qty>)
    ensures
        r is Some <==> parse_qty(field@) is Some,
        r is Some ==> parse_qty(field@) == Some(r->0.milli as int) && r->0.bounded(),
{
    let mut neg = false;
    let mag: Vec<char>;
    if field.len() > 0 && field[0] == '-' {
        neg = true;
        mag = tail_chars(field, 1);
    } else if field.len() > 0 && field[0] == '+' {
        mag = tail_chars(field, 1);
    } else {
        mag = tail_chars(field, 0);
        proof {
            assert(mag@ =~= field@);
        }
    }
    proof {
        assert(sign_split(field@) == (neg, mag@));
    }
    let parts = split_chars(&mag, '.');
    proof {
        assert(parts.deep_view() == split_on(mag@, '.'));
        assert(parts@.len() == parts.deep_view().len());
    }
    if parts.len() == 1 {
        let ghost ip = split_on(mag@, '.')[0];
        proof {
            assert(parts@[0]@ == ip);
        }
        if mag.len() == 0 {
            return None;
        }
        match digits_to_val(&parts[0], 999_999) {
            Option::None => {
                proof {
                    lemma_split_single(mag@, '.');
                    if all_digits(ip) && digits_val(ip) > 999_999 {
                        lemma_digits_val_nonneg(ip);
                        assert(digits_val(ip) * 1000 >= 1_000_000 * 1000);
                        assert(!qty_bounded(digits_val(ip) * 1000));
                        assert(!qty_bounded(-(digits_val(ip) * 1000)));
                    }
                }
                None
            },
            Option::Some(u) => {
                proof {
                    lemma_split_single(mag@, '.');
                }
                let m = if neg {
                    -(u * 1000)
                } else {
                    u * 1000
                };
                Some(Qty { milli: m })
            },
        }
    } else if parts.len() == 2 {
        let ghost ip = split_on(mag@, '.')[0];
        let ghost fp = split_on(mag@, '.')[1];
        proof {
            assert(parts@[0]@ == ip);
            assert(parts@[1]@ == fp);
        }
        if parts[0].len() == 0 && parts[1].len() == 0 {
            return None;
        }
        if parts[1].len() > 3 {
            return None;
        }
        let fl = parts[1].len();
        match digits_to_val(&parts[0], 999_999) {
            Option::None => {
                proof {
                    if all_digits(ip) && digits_val(ip) > 999_999 {
                        lemma_digits_val_nonneg(ip);
                        if fp.len() <= 3 && all_digits(fp) {
                            lemma_digits_val_nonneg(fp);
                            let m = digits_val(ip) * 1000 + digits_val(fp) * frac_scale(
                                fp.len() as int,
                            );
                            assert(m >= 1_000_000 * 1000);
                            assert(!qty_bounded(m));
                            assert(!qty_bounded(-m));
                        }
                    }
                }
                None
            },
            Option::Some(u) => {
                match digits_to_val(&parts[1], 999) {
                    Option::None => {
                        proof {
                            if all_digits(fp) {
                                lemma_digits_val_3(fp);
                            }
                        }
                        None
                    },
                    Option::Some(f) => {
                        let scale: i64 = if fl == 1 {
                            100
                        } else if fl == 2 {
                            10
                        } else {
                            1
                        };
                        proof {
                            assert(scale == frac_scale(fp.len() as int));
                            assert(scale == 1 ==> 0 <= f * scale <= 99_900);
                            assert(scale == 10 ==> 0 <= f * scale <= 99_900);
                            assert(scale == 100 ==> 0 <= f * scale <= 99_900);
                        }
                        let m0 = u * 1000 + f * scale;
                        if m0 > QTY_MAX_MILLI {
                            return None;
                        }
                        let m = if neg {
                            -m0
                        } else {
                            m0
                        };
                        Some(Qty { milli: m })
                    },
                }
            },
        }
    } else {
        None
    }
}

/// A digit string of at most three places stands for at most 999.
proof fn lemma_digits_val_3(s: Seq<char>)
    requires
        all_digits(s),
        s.len() <= 3,
    ensures
        digits_val(s) <= 999,
        digits_val(s) >= 0,
    decreases s.len(),
{
    lemma_digits_val_nonneg(s);
    if s.len() > 0 {
        assert(all_digits(s.drop_last()));
        lemma_digits_val_3(s.drop_last());
        if s.len() == 1 {
            assert(s.drop_last().len() == 0);
        } else if s.len() == 2 {
            lemma_digits_val_2(s.drop_last());
        } else {
            lemma_digits_val_2(s.drop_last());
        }
    }
}

proof fn lemma_digits_val_2(s: Seq<char>)
    requires
        all_digits(s),
        s.len() <= 2,
    ensures
        0 <= digits_val(s) <= 99,
    decreases s.len(),
{
    lemma_digits_val_nonneg(s);
    if s.len() > 0 {
        assert(all_digits(s.drop_last()));
        lemma_digits_val_2(s.drop_last());
        if s.len() == 2 {
            lemma_digits_val_1(s.drop_last());
        }
    }
}

proof fn lemma_digits_val_1(s: Seq<char>)
    requires
        all_digits(s),
        s.len() <= 1,
    ensures
        0 <= digits_val(s) <= 9,
{
    if s.len() == 1 {
        assert(s.drop_last().len() == 0);
        assert(digits_val(s.drop_last()) == 0);
        assert(is_digit(s[0]));
        assert(s.last() == s[0]);
    }
}

/// The decimal digit string of a nonnegative number.
pub open spec fn dec_digits(n: int) -> Seq<char>
    decreases n,
{
    if n < 10 {
        seq![digit_char(n)]
    } else {
        dec_digits(n / 10).push(digit_char(n % 10))
    }
}

/// The fraction digits of `f` thousandths, trailing zeroes left off.
pub open spec fn frac_digits(f: int) -> Seq<char> {
    if f % 10 != 0 {
        seq![digit_char(f / 100), digit_char((f / 10) % 10), digit_char(f % 10)]
    } else if f % 100 != 0 {
        seq![digit_char(f / 100), digit_char((f / 10) % 10)]
    } else {
        seq![digit_char(f / 100)]
    }
}

/// The canonical text of a quantity of `m` thousandths: a minus sign for
/// negative values, the whole units, and a fraction part only when one is
/// needed.
pub open spec fn render_qty(m: int) -> Seq<char> {
    let a = if m < 0 {
        -m
    } else {
        m
    };
    let units = dec_digits(a / 1000);
    let whole = if a % 1000 == 0 {
        units
    } else {
        units + seq!['.'] + frac_digits(a % 1000)
    };
    if m < 0 {
        seq!['-'] + whole
    } else {
        whole
    }
}

pub proof fn lemma_dec_digits_are_digits(n: int)
    requires
        n >= 0,
    ensures
        all_digits(dec_digits(n)),
        dec_digits(n).len() >= 1,
    decreases n,
{
    if n < 10 {
        lemma_digit_char_val(n);
        assert forall|i: int| 0 <= i < dec_digits(n).len() implies is_digit(dec_digits(n)[i]) by {
            assert(dec_digits(n)[i] == digit_char(n));
        }
    } else {
        lemma_dec_digits_are_digits(n / 10);
        lemma_digit_char_val(n % 10);
        let s = dec_digits(n / 10);
        let c = digit_char(n % 10);
        assert forall|i: int| 0 <= i < s.push(c).len() implies is_digit(s.push(c)[i]) by {
            if i < s.len() {
                assert(s.push(c)[i] == s[i]);
            } else {
                assert(s.push(c)[i] == c);
            }
        }
    }
}

pub proof fn lemma_dec_digits_val(n: int)
    requires
        n >= 0,
    ensures
        digits_val(dec_digits(n)) == n,
    decreases n,
{
    if n < 10 {
        lemma_digit_char_val(n);
        assert(dec_digits(n) =~= seq![digit_char(n)]);
        assert(dec_digits(n).drop_last() =~= Seq::<char>::empty());
        assert(digits_val(dec_digits(n).drop_last()) == 0);
    } else {
        lemma_dec_digits_val(n / 10);
        lemma_digit_char_val(n % 10);
        let s = dec_digits(n / 10);
        let c = digit_char(n % 10);
        assert(dec_digits(n) == s.push(c));
        assert(s.push(c).drop_last() =~= s);
        assert(s.push(c).last() == c);
        assert(digits_val(s.push(c)) == digits_val(s) * 10 + digit_val(c));
        lemma_fundamental_div_mod(n, 10);
    }
}

proof fn lemma_digits_val_one(x: char)
    ensures
        digits_val(seq![x]) == digit_val(x),
{
    assert(seq![x].drop_last() =~= Seq::<char>::empty());
    assert(digits_val(seq![x].drop_last()) == 0);
    assert(seq![x].last() == x);
}

proof fn lemma_digits_val_two(x: char, y: char)
    ensures
        digits_val(seq![x, y]) == digit_val(x) * 10 + digit_val(y),
{
    assert(seq![x, y].drop_last() =~= seq![x]);
    lemma_digits_val_one(x);
    assert(seq![x, y].last() == y);
}

proof fn lemma_digits_val_three(x: char, y: char, z: char)
    ensures
        digits_val(seq![x, y, z]) == (digit_val(x) * 10 + digit_val(y)) * 10 + digit_val(z),
{
    assert(seq![x, y, z].drop_last() =~= seq![x, y]);
    lemma_digits_val_two(x, y);
    assert(seq![x, y, z].last() == z);
}

/// The stripped fraction digits recombine with their scale to the exact
/// thousandths they came from.
pub proof fn lemma_frac_digits(f: int)
    requires
        1 <= f <= 999,
    ensures
        all_digits(frac_digits(f)),
        1 <= frac_digits(f).len() <= 3,
        digits_val(frac_digits(f)) * frac_scale(frac_digits(f).len() as int) == f,
{
    let a = f / 100;
    let b = (f / 10) % 10;
    let c = f % 10;
    lemma_div_is_ordered(f, 999, 100);
    lemma_div_is_ordered(0, f, 100);
    lemma_div_is_ordered(f, 999, 10);
    lemma_div_is_ordered(0, f, 10);
    lemma_fundamental_div_mod(f, 10);
    lemma_fundamental_div_mod(f / 10, 10);
    lemma_div_denominator(f, 10, 10);
    lemma_fundamental_div_mod(f, 100);
    lemma_digit_char_val(a);
    lemma_digit_char_val(b);
    lemma_digit_char_val(c);
    assert(f / 10 == 10 * a + b);
    assert(f == 10 * (f / 10) + c);
    if f % 10 != 0 {
        let s = seq![digit_char(a), digit_char(b), digit_char(c)];
        lemma_digits_val_three(digit_char(a), digit_char(b), digit_char(c));
        assert(digits_val(s) == (a * 10 + b) * 10 + c);
        assert forall|i: int| 0 <= i < s.len() implies is_digit(s[i]) by {
            assert(s[0] == digit_char(a) && s[1] == digit_char(b) && s[2] == digit_char(c));
        }
    } else if f % 100 != 0 {
        let s = seq![digit_char(a), digit_char(b)];
        lemma_digits_val_two(digit_char(a), digit_char(b));
        assert(digits_val(s) == a * 10 + b);
        assert(a * 10 + b == f / 10);
        assert((f / 10) * 10 == f);
        assert forall|i: int| 0 <= i < s.len() implies is_digit(s[i]) by {
            assert(s[0] == digit_char(a) && s[1] == digit_char(b));
        }
    } else {
        let s = seq![digit_char(a)];
        lemma_digits_val_one(digit_char(a));
        assert(digits_val(s) == a);
        assert(a * 100 == f);
        assert forall|i: int| 0 <= i < s.len() implies is_digit(s[i]) by {
            assert(s[0] == digit_char(a));
        }
    }
}

/// Every character a quantity renders to is a digit, a minus sign, or the
/// decimal point.
pub proof fn lemma_render_qty_chars_kind(m: int)
    ensures
        forall|i: int|
            0 <= i < render_qty(m).len() ==> (is_digit(render_qty(m)[i]) || render_qty(m)[i] == '-'
                || render_qty(m)[i] == '.'),
        render_qty(m).len() >= 1,
        is_digit(render_qty(m).last()),
        render_qty(m)[0] == '-' || is_digit(render_qty(m)[0]),
{
    let a = if m < 0 {
        -m
    } else {
        m
    };
    let u = a / 1000;
    let f = a % 1000;
    lemma_div_is_ordered(0, a, 1000);
    vstd::arithmetic::div_mod::lemma_mod_bound(a, 1000);
    lemma_dec_digits_are_digits(u);
    let units = dec_digits(u);
    let whole = if f == 0 {
        units
    } else {
        units + seq!['.'] + frac_digits(f)
    };
    if f != 0 {
        lemma_frac_digits(f);
    }
    assert forall|i: int| 0 <= i < whole.len() implies (is_digit(whole[i]) || whole[i] == '.') by {
        if f != 0 {
            if i < units.len() {
                assert(whole[i] == units[i]);
            } else if i == units.len() {
                assert(whole[i] == '.');
            } else {
                assert(whole[i] == frac_digits(f)[i - units.len() - 1]);
            }
        }
    }
    if f != 0 {
        assert(whole.last() == frac_digits(f).last());
        assert(is_digit(frac_digits(f).last()));
    }
    if m < 0 {
        let r = seq!['-'] + whole;
        assert forall|i: int| 0 <= i < r.len() implies (is_digit(r[i]) || r[i] == '-' || r[i]
            == '.') by {
            if i > 0 {
                assert(r[i] == whole[i - 1]);
            }
        }
        assert(r.last() == whole.last());
    }
}

/// A rendered quantity is a clean field: nonempty, free of separators and
/// line breaks, with nothing for the reader to trim.
pub proof fn lemma_render_qty_clean(m: int)
    ensures
        crate::text::csv_clean(render_qty(m)),
        render_qty(m).len() > 0,
{
    lemma_render_qty_chars_kind(m);
    let r = render_qty(m);
    assert forall|i: int| 0 <= i < r.len() implies r[i] != ',' && r[i] != '\n' by {
        assert(is_digit(r[i]) || r[i] == '-' || r[i] == '.');
    }
    assert(!crate::text::is_ws_char(r[0]));
    assert(!crate::text::is_ws_char(r[r.len() - 1]));
    crate::text::lemma_trim_stable(r);
}

/// Reading back the canonical text of a bounded quantity restores it
/// exactly.
pub proof fn lemma_qty_round_trip(m: int)
    requires
        qty_bounded(m),
    ensures
        parse_qty(render_qty(m)) == Some(m),
{
    let a = if m < 0 {
        -m
    } else {
        m
    };
    let u = a / 1000;
    let f = a % 1000;
    lemma_div_is_ordered(0, a, 1000);
    lemma_div_is_ordered(a, QTY_MAX_MILLI as int, 1000);
    vstd::arithmetic::div_mod::lemma_mod_bound(a, 1000);
    lemma_fundamental_div_mod(a, 1000);
    lemma_dec_digits_are_digits(u);
    lemma_dec_digits_val(u);
    let units = dec_digits(u);
    let whole = if f == 0 {
        units
    } else {
        units + seq!['.'] + frac_digits(f)
    };
    let r = render_qty(m);
    if f == 0 {
        assert(forall|i: int| 0 <= i < whole.len() ==> whole[i] != '.');
        lemma_split_no_sep(whole, '.');
        assert(parse_unsigned_milli(whole) == Some(digits_val(units) * 1000));
        assert(digits_val(units) * 1000 == a);
    } else {
        lemma_frac_digits(f);
        let fd = frac_digits(f);
        assert(forall|i: int| 0 <= i < units.len() ==> units[i] != '.');
        assert(forall|i: int| 0 <= i < fd.len() ==> fd[i] != '.');
        lemma_split_at_sep(units, fd, '.');
        lemma_split_no_sep(fd, '.');
        let parts = split_on(whole, '.');
        assert(parts =~~= seq![units] + seq![fd]);
        assert(parts.len() == 2);
        assert(parts[0] == units && parts[1] == fd);
        assert(parse_unsigned_milli(whole) == Some(
            digits_val(units) * 1000 + digits_val(fd) * frac_scale(fd.len() as int),
        ));
        assert(digits_val(units) * 1000 + digits_val(fd) * frac_scale(fd.len() as int) == a);
    }
    if m < 0 {
        assert(r == seq!['-'] + whole);
        assert(r[0] == '-');
        assert(r.skip(1) =~= whole);
        assert(sign_split(r) == (true, whole));
        assert(parse_qty(r) == Some(m));
    } else {
        assert(r == whole);
        assert(whole[0] == units[0]);
        assert(is_digit(units[0]));
        assert(whole[0] != '-' && whole[0] != '+');
        assert(sign_split(r) == (false, whole));
        assert(parse_qty(r) == Some(m));
    }
}

fn digit_char_of(d: i64) -> (c: char)
    requires
        0 <= d <= 9,
    ensures
        c == digit_char(d as int),
{
    if d == 0 {
        '0'
    } else if d == 1 {
        '1'
    } else if d == 2 {
        '2'
    } else if d == 3 {
        '3'
    } else if d == 4 {
        '4'
    } else if d == 5 {
        '5'
    } else if d == 6 {
        '6'
    } else if d == 7 {
        '7'
    } else if d == 8 {
        '8'
    } else {
        '9'
    }
}

/// Writes a nonnegative count as its decimal digits.
pub fn dec_chars_of(n: usize) -> (r: Vec<char>)
    ensures
        r@ == dec_digits(n as int),
{
    let mut ds: Vec<char> = Vec::new();
    let mut m: usize = n;
    loop
        invariant_except_break
            0 <= m <= n,
            dec_digits(n as int) =~= dec_digits(m as int) + ds@,
        ensures
            dec_digits(n as int) =~= ds@,
        decreases m,
    {
        let d = (m % 10) as i64;
        ds.insert(0, digit_char_of(d));
        let next = m / 10;
        proof {
            if m >= 10 {
                assert(dec_digits(m as int) =~= dec_digits(m as int / 10).push(
                    digit_char(m as int % 10),
                ));
                assert(dec_digits(m as int / 10) + ds@ =~= dec_digits(n as int));
            } else {
                assert(dec_digits(m as int) =~= seq![digit_char(m as int)]);
                assert(m as int % 10 == m as int);
            }
        }
        if next == 0 {
            break;
        }
        m = next;
    }
    ds
}

/// Writes a quantity as its canonical decimal text.
pub fn render_qty_chars(q: Qty) -> (r: Vec<char>)
    requires
        q.bounded(),
    ensures
        r@ == render_qty(q.milli as int),
{
    let mut out: Vec<char> = Vec::new();
    let a: i64;
    if q.milli < 0 {
        out.push('-');
        a = -q.milli;
    } else {
        a = q.milli;
    }
    let units: i64 = a / 1000;
    let f: i64 = a % 1000;
    let mut ds: Vec<char> = Vec::new();
    let mut n: i64 = units;
    loop
        invariant_except_break
            0 <= n <= units,
            units <= 999_999,
            dec_digits(units as int) =~= dec_digits(n as int) + ds@,
        ensures
            dec_digits(units as int) =~= ds@,
        decreases n,
    {
        let d = n % 10;
        ds.insert(0, digit_char_of(d));
        let next = n / 10;
        proof {
            if n >= 10 {
                assert(dec_digits(n as int) =~= dec_digits(n as int / 10).push(
                    digit_char(n as int % 10),
                ));
                assert(dec_digits(n as int / 10) + ds@ =~= dec_digits(units as int));
            } else {
                assert(dec_digits(n as int) =~= seq![digit_char(n as int)]);
                assert(n as int % 10 == n as int);
            }
        }
        if next == 0 {
            break;
        }
        n = next;
    }
    let mut k: usize = 0;
    let ghost base = out@;
    while k < ds.len()
        invariant
            0 <= k <= ds@.len(),
            out@ =~= base + ds@.take(k as int),
        decreases ds@.len() - k,
    {
        out.push(ds[k]);
        k += 1;
    }
    proof {
        assert(out@ =~= base + ds@);
    }
    if f != 0 {
        out.push('.');
        let d1 = digit_char_of(f / 100);
        let d2 = digit_char_of((f / 10) % 10);
        let d3 = digit_char_of(f % 10);
        if f % 10 != 0 {
            out.push(d1);
            out.push(d2);
            out.push(d3);
        } else if f % 100 != 0 {
            out.push(d1);
            out.push(d2);
        } else {
            out.push(d1);
        }
        proof {
            assert(out@ =~= base + dec_digits(units as int) + seq!['.'] + frac_digits(f as int));
        }
    }
    proof {
        if q.milli < 0 {
            assert(base =~= seq!['-']);
            assert(out@ =~= render_qty(q.milli as int));
        } else {
            assert(base =~= Seq::<char>::empty());
            assert(out@ =~= render_qty(q.milli as int));
        }
    }
    out
}

} // verus!
