//! Line-item tokens: parsing `item:quantity`, looking items up in the
//! catalog, and computing line amounts and the invoice subtotal. Quantities
//! are decimal literals with up to three fractional digits, held in
//! thousandths of a unit.

use vstd::prelude::*;

use crate::config::Item;
use crate::error::InvoiceError;
use crate::money::{
    round_half_up, spec_round_half_up, MAX_AMOUNT_CENTS, MAX_QTY_MILS, MAX_RATE_CENTS,
};
use crate::strings::{
    find_char, lemma_find_char, spec_digit_val, spec_digits_value, spec_find_char, spec_is_digit,
    lemma_digits_value_nonneg,
};

verus! {

/// The magnitude part of a quantity literal: everything after one optional
/// leading sign.
pub open spec fn spec_unsigned_part(s: Seq<char>) -> Seq<char> {
    if s.len() >= 1 && (s[0] == '+' || s[0] == '-') {
        s.skip(1)
    } else {
        s
    }
}

/// Whether a quantity literal carries a minus sign.
pub open spec fn spec_qty_neg(s: Seq<char>) -> bool {
    s.len() >= 1 && s[0] == '-'
}

/// The integer digits of the magnitude: everything before the first `'.'`.
pub open spec fn spec_qty_int_part(b: Seq<char>) -> Seq<char> {
    let d = spec_find_char(b, '.');
    if d == -1 {
        b
    } else {
        b.take(d)
    }
}

/// The fractional digits of the magnitude: everything after the first `'.'`.
pub open spec fn spec_qty_frac_part(b: Seq<char>) -> Seq<char> {
    let d = spec_find_char(b, '.');
    if d == -1 {
        Seq::<char>::empty()
    } else {
        b.skip(d + 1)
    }
}

/// Whether `s` is a quantity literal: an optional sign, then digits with at
/// most one decimal point, at least one digit in all, and at most three
/// fractional digits.
pub open spec fn spec_is_qty_literal(s: Seq<char>) -> bool {
    let b = spec_unsigned_part(s);
    let ip = spec_qty_int_part(b);
    let fp = spec_qty_frac_part(b);
    &&& ip.len() + fp.len() >= 1
    &&& fp.len() <= 3
    &&& forall|k: int| 0 <= k < ip.len() ==> spec_is_digit(#[trigger] ip[k])
    &&& forall|k: int| 0 <= k < fp.len() ==> spec_is_digit(#[trigger] fp[k])
}

/// The weight of one fractional digit position, in thousandths.
pub open spec fn spec_frac_scale(len: int) -> int {
    if len == 0 {
        1000
    } else if len == 1 {
        100
    } else if len == 2 {
        10
    } else {
        1
    }
}

/// The magnitude of a quantity literal, in thousandths of a unit.
pub open spec fn spec_qty_mils(s: Seq<char>) -> int {
    let b = spec_unsigned_part(s);
    let ip = spec_qty_int_part(b);
    let fp = spec_qty_frac_part(b);
    spec_digits_value(ip) * 1000 + spec_digits_value(fp) * spec_frac_scale(fp.len() as int)
}

/// How a quantity literal was rejected.
enum QtyFault {
    NotANumber,
    NotPositive,
    TooLarge,
}

/// The end of the run of digits starting at `start`.
fn digit_run_end(s: &str, start: usize, n: usize) -> (e: usize)
    requires
        start <= n,
        n == s@.len(),
    ensures
        start <= e <= n,
        forall|k: int| start <= k < e ==> spec_is_digit(#[trigger] s@[k]),
        e < n ==> !spec_is_digit(s@[e as int]),
{
    let mut e = start;
    while e < n
        invariant
            start <= e <= n,
            n == s@.len(),
            forall|k: int| start <= k < e ==> spec_is_digit(#[trigger] s@[k]),
        decreases n - e,
    {
        let c = s.get_char(e);
        if c < '0' || c > '9' {
            return e;
        }
        e = e + 1;
    }
    e
}

/// The value of the digits of `s` in `[start, end)`, capped: the flag says
/// the value exceeds `MAX_QTY_MILS`.
fn digits_value_capped(s: &str, start: usize, end: usize) -> (r: (i64, bool))
    requires
        start <= end <= s@.len(),
        forall|k: int| start <= k < end ==> spec_is_digit(#[trigger] s@[k]),
    ensures
        ({
            let d = s@.subrange(start as int, end as int);
            &&& !r.1 ==> r.0 == spec_digits_value(d) && 0 <= r.0 <= MAX_QTY_MILS
            &&& r.1 ==> spec_digits_value(d) > MAX_QTY_MILS
        }),
{
    let ghost d = s@.subrange(start as int, end as int);
    let mut acc: i64 = 0;
    let mut big = false;
    let mut i = start;
    proof {
        assert(d.take(0) =~= Seq::<char>::empty());
    }
    while i < end
        invariant
            start <= i <= end <= s@.len(),
            d == s@.subrange(start as int, end as int),
            forall|k: int| start <= k < end ==> spec_is_digit(#[trigger] s@[k]),
            forall|k: int| 0 <= k < d.len() ==> d[k] == s@[k + start],
            !big ==> acc == spec_digits_value(d.take(i - start)) && 0 <= acc <= MAX_QTY_MILS,
            big ==> spec_digits_value(d.take(i - start)) > MAX_QTY_MILS,
        decreases end - i,
    {
        let c = s.get_char(i);
        let dv = (c as u32 - '0' as u32) as i64;
        proof {
            crate::strings::lemma_digits_value_take_step(d, i - start);
        }
        if !big {
            acc = acc * 10 + dv;
            if acc > MAX_QTY_MILS {
                big = true;
            }
        } else {
            proof {
                let prev = spec_digits_value(d.take(i - start));
                assert(prev * 10 >= prev) by (nonlinear_arith)
                    requires
                        prev > 0,
                ;
            }
        }
        i = i + 1;
    }
    proof {
        assert(d.take(d.len() as int) =~= d);
    }
    (acc, big)
}

/// Parses a quantity literal into thousandths of a unit.
fn parse_quantity(qty: &str) -> (r: Result<i64, QtyFault>)
    ensures
        match r {
            Ok(v) => spec_is_qty_literal(qty@) && !spec_qty_neg(qty@) && v == spec_qty_mils(qty@)
                && 0 < v <= MAX_QTY_MILS,
            Err(f) => match f {
                QtyFault::NotANumber => !spec_is_qty_literal(qty@),
                QtyFault::NotPositive => spec_is_qty_literal(qty@) && (spec_qty_neg(qty@)
                    || spec_qty_mils(qty@) == 0),
                QtyFault::TooLarge => spec_is_qty_literal(qty@) && !spec_qty_neg(qty@)
                    && spec_qty_mils(qty@) > MAX_QTY_MILS,
            },
        },
{
    let n = qty.unicode_len();
    let mut neg = false;
    let mut start: usize = 0;
    if n >= 1 {
        let c0 = qty.get_char(0);
        if c0 == '+' {
            start = 1;
        } else if c0 == '-' {
            start = 1;
            neg = true;
        }
    }
    let ghost b = spec_unsigned_part(qty@);
    proof {
        if start == 1 {
            assert(b =~= qty@.skip(1));
        }
        assert(b.len() == n - start);
        assert(forall|k: int| 0 <= k < b.len() ==> b[k] == qty@[k + start]);
    }
    let int_end = digit_run_end(qty, start, n);
    let ghost ip = spec_qty_int_part(b);
    let ghost fp = spec_qty_frac_part(b);
    if int_end == n {
        // no decimal point: the whole magnitude is the integer part
        proof {
            lemma_find_char(b, '.');
            assert(spec_find_char(b, '.') == -1);
            assert(ip =~= b);
            assert(fp.len() == 0);
        }
        if n == start {
            return Err(QtyFault::NotANumber);
        }
        let (ival, big) = digits_value_capped(qty, start, n);
        proof {
            assert(qty@.subrange(start as int, n as int) =~= ip);
            lemma_digits_value_nonneg(ip);
        }
        if neg {
            return Err(QtyFault::NotPositive);
        }
        if big {
            proof {
                let v = spec_digits_value(ip);
                assert(v * 1000 >= v) by (nonlinear_arith)
                    requires
                        v > 0,
                ;
            }
            return Err(QtyFault::TooLarge);
        }
        let mils = ival * 1000;
        if mils == 0 {
            return Err(QtyFault::NotPositive);
        }
        if mils > MAX_QTY_MILS {
            return Err(QtyFault::TooLarge);
        }
        return Ok(mils);
    }
    // a non-digit stopped the run; it must be the first decimal point
    let sep = qty.get_char(int_end);
    let ghost p = int_end - start;
    if sep != '.' {
        proof {
            lemma_find_char(b, '.');
            let dpos = spec_find_char(b, '.');
            if dpos == -1 {
                assert(!spec_is_digit(ip[p]));
            } else {
                assert(dpos > p);
                assert(!spec_is_digit(ip[p]));
            }
        }
        return Err(QtyFault::NotANumber);
    }
    proof {
        lemma_find_char(b, '.');
        assert(b[p] == '.');
        assert(forall|k: int| 0 <= k < p ==> spec_is_digit(#[trigger] b[k]));
        assert(forall|k: int| 0 <= k < p ==> b[k] != '.');
        assert(spec_find_char(b, '.') == p);
        assert(ip =~= b.take(p));
        assert(ip =~= qty@.subrange(start as int, int_end as int));
        assert(fp =~= b.skip(p + 1));
        assert(forall|k: int| 0 <= k < fp.len() ==> fp[k] == qty@[k + int_end + 1]);
    }
    let frac_end = digit_run_end(qty, int_end + 1, n);
    if frac_end < n {
        // a second point or other stray character in the fraction
        proof {
            assert(!spec_is_digit(fp[frac_end - int_end - 1]));
        }
        return Err(QtyFault::NotANumber);
    }
    let frac_len = n - (int_end + 1);
    if int_end == start && frac_len == 0 {
        // a bare point with no digits at all
        return Err(QtyFault::NotANumber);
    }
    if frac_len > 3 {
        return Err(QtyFault::NotANumber);
    }
    let (ival, big) = digits_value_capped(qty, start, int_end);
    let (fval, fbig) = digits_value_capped(qty, int_end + 1, n);
    proof {
        assert(qty@.subrange(start as int, int_end as int) =~= ip);
        assert(qty@.subrange(int_end + 1, n as int) =~= fp);
        lemma_digits_value_nonneg(ip);
        lemma_digits_value_nonneg(fp);
        // at most three digits keep the fraction below one thousand
        if fp.len() <= 3 {
            lemma_digits_value_small(fp);
        }
    }
    if neg {
        return Err(QtyFault::NotPositive);
    }
    if big {
        proof {
            let v = spec_digits_value(ip);
            assert(v * 1000 >= v) by (nonlinear_arith)
                requires
                    v > 0,
            ;
            assert(spec_digits_value(fp) * spec_frac_scale(fp.len() as int) >= 0) by (
            nonlinear_arith)
                requires
                    spec_digits_value(fp) >= 0,
                    spec_frac_scale(fp.len() as int) >= 1,
            ;
        }
        return Err(QtyFault::TooLarge);
    }
    let scale: i64 = if frac_len == 0 {
        1000
    } else if frac_len == 1 {
        100
    } else if frac_len == 2 {
        10
    } else {
        1
    };
    let mils = ival * 1000 + fval * scale;
    proof {
        assert(fval * scale >= 0 && fval * scale <= 999 * 1000) by (nonlinear_arith)
            requires
                0 <= fval <= 999,
                1 <= scale <= 1000,
        ;
    }
    if mils == 0 {
        return Err(QtyFault::NotPositive);
    }
    if mils > MAX_QTY_MILS {
        return Err(QtyFault::TooLarge);
    }
    Ok(mils)
}

/// The position of the separating `':'` in a line-item token.
pub open spec fn spec_token_sep(t: Seq<char>) -> int {
    spec_find_char(t, ':')
}

/// Whether a token has exactly one `':'`, as `item:quantity` demands.
pub open spec fn spec_token_ok(t: Seq<char>) -> bool {
    &&& spec_token_sep(t) >= 0
    &&& spec_find_char(t.skip(spec_token_sep(t) + 1), ':') == -1
}

/// The item id of a token: everything before the `':'`.
pub open spec fn spec_token_item(t: Seq<char>) -> Seq<char> {
    t.take(spec_token_sep(t))
}

/// The quantity text of a token: everything after the `':'`.
pub open spec fn spec_token_qty(t: Seq<char>) -> Seq<char> {
    t.skip(spec_token_sep(t) + 1)
}

/// Parses a token like `consulting:8` into the item id, the quantity text,
/// and the quantity in thousandths of a unit.
///
/// A token without exactly one `':'` is `InvalidItemFormat`; a quantity that
/// is not a decimal literal, not positive, or beyond the supported range is
/// `InvalidQuantity` with a reason naming the constraint.
pub fn parse_item_input(input: &str) -> (r: Result<(String, String, i64), InvoiceError>)
    ensures
        match r {
            Ok(parts) => {
                &&& spec_token_ok(input@)
                &&& parts.0@ == spec_token_item(input@)
                &&& parts.1@ == spec_token_qty(input@)
                &&& spec_is_qty_literal(parts.1@) && !spec_qty_neg(parts.1@)
                &&& parts.2 == spec_qty_mils(parts.1@) && 0 < parts.2 <= MAX_QTY_MILS
            },
            Err(e) => match e {
                InvoiceError::InvalidItemFormat(t) => !spec_token_ok(input@) && t@ == input@,
                InvoiceError::InvalidQuantity { item, qty, reason } => {
                    &&& spec_token_ok(input@)
                    &&& item@ == spec_token_item(input@)
                    &&& qty@ == spec_token_qty(input@)
                    &&& (reason@ == "must be a number"@ || reason@ == "must be greater than 0"@
                        || reason@ == "exceeds the supported range"@)
                    &&& (reason@ == "must be a number"@ <==> !spec_is_qty_literal(qty@))
                    &&& (reason@ == "must be greater than 0"@ <==> spec_is_qty_literal(qty@) && (
                    spec_qty_neg(qty@) || spec_qty_mils(qty@) == 0))
                    &&& (reason@ == "exceeds the supported range"@ <==> spec_is_qty_literal(qty@)
                        && !spec_qty_neg(qty@) && spec_qty_mils(qty@) > MAX_QTY_MILS)
                },
                _ => false,
            },
        },
{
    let n = input.unicode_len();
    let sep = match find_char(input, ':') {
        Some(p) => p,
        None => {
            return Err(InvoiceError::InvalidItemFormat(input.to_owned()));
        },
    };
    proof {
        lemma_find_char(input@, ':');
        assert(sep < n);
    }
    let rest = input.substring_char(sep + 1, n);
    proof {
        assert(rest@ =~= input@.skip(sep + 1));
    }
    if let Some(_) = find_char(rest, ':') {
        return Err(InvoiceError::InvalidItemFormat(input.to_owned()));
    }
    let id_str = input.substring_char(0, sep);
    let qty_str = input.substring_char(sep + 1, n);
    proof {
        assert(id_str@ =~= spec_token_item(input@));
        assert(qty_str@ =~= spec_token_qty(input@));
        reveal_strlit("must be a number");
        reveal_strlit("must be greater than 0");
        reveal_strlit("exceeds the supported range");
        assert("must be a number"@.len() == 16);
        assert("must be greater than 0"@.len() == 22);
        assert("exceeds the supported range"@.len() == 27);
        assert("must be a number"@ != "must be greater than 0"@);
        assert("must be a number"@ != "exceeds the supported range"@);
        assert("must be greater than 0"@ != "exceeds the supported range"@);
    }
    let id = id_str.to_owned();
    let qty_text = qty_str.to_owned();
    match parse_quantity(qty_str) {
        Ok(mils) => Ok((id, qty_text, mils)),
        Err(fault) => {
            let reason = match fault {
                QtyFault::NotANumber => "must be a number".to_owned(),
                QtyFault::NotPositive => "must be greater than 0".to_owned(),
                QtyFault::TooLarge => "exceeds the supported range".to_owned(),
            };
            Err(InvoiceError::InvalidQuantity { item: id, qty: qty_text, reason })
        },
    }
}

/// The position of the first keyed entry carrying `id`, or `-1`; used for
/// both the item and the client catalog.
pub open spec fn spec_key_index<V>(catalog: Seq<(String, V)>, id: Seq<char>) -> int
    decreases catalog.len(),
{
    if catalog.len() == 0 {
        -1
    } else if catalog[0].0@ == id {
        0
    } else {
        let r = spec_key_index(catalog.skip(1), id);
        if r == -1 {
            -1
        } else {
            r + 1
        }
    }
}

/// `spec_key_index` finds exactly the first entry with the key.
pub proof fn lemma_key_index<V>(catalog: Seq<(String, V)>, id: Seq<char>)
    ensures
        spec_key_index(catalog, id) == -1 ==> forall|k: int|
            0 <= k < catalog.len() ==> (#[trigger] catalog[k]).0@ != id,
        spec_key_index(catalog, id) != -1 ==> {
            let r = spec_key_index(catalog, id);
            &&& 0 <= r < catalog.len()
            &&& catalog[r].0@ == id
            &&& forall|k: int| 0 <= k < r ==> (#[trigger] catalog[k]).0@ != id
        },
    decreases catalog.len(),
{
    if catalog.len() > 0 && catalog[0].0@ != id {
        lemma_key_index(catalog.skip(1), id);
        assert(forall|k: int| 1 <= k < catalog.len() ==> catalog[k] == catalog.skip(1)[k - 1]);
    }
}

/// Looks `id` up in a keyed catalog, first match wins.
pub fn find_key_index<V>(catalog: &Vec<(String, V)>, id: &str) -> (r: Option<usize>)
    ensures
        match r {
            Some(i) => i == spec_key_index(catalog@, id@),
            None => spec_key_index(catalog@, id@) == -1,
        },
{
    let mut i: usize = 0;
    while i < catalog.len()
        invariant
            i <= catalog@.len(),
            forall|k: int| 0 <= k < i ==> (#[trigger] catalog@[k]).0@ != id@,
        decreases catalog@.len() - i,
    {
        if crate::strings::str_eq(catalog[i].0.as_str(), id) {
            proof {
                lemma_key_index(catalog@, id@);
            }
            return Some(i);
        }
        i = i + 1;
    }
    proof {
        lemma_key_index(catalog@, id@);
    }
    None
}

/// A line item with its computed amount; `quantity` is in thousandths of a
/// unit, `rate` and `amount` in cents.
pub ghost struct LineItemModel {
    pub description: Seq<char>,
    pub quantity: i64,
    pub unit: Seq<char>,
    pub rate: i64,
    pub amount: i64,
}

/// A line item on the invoice.
#[derive(Debug, Clone)]
pub struct InvoiceLineItem {
    pub description: String,
    pub quantity: i64,
    pub unit: String,
    pub rate: i64,
    pub amount: i64,
}

impl View for InvoiceLineItem {
    type V = LineItemModel;

    open spec fn view(&self) -> LineItemModel {
        LineItemModel {
            description: self.description@,
            quantity: self.quantity,
            unit: self.unit@,
            rate: self.rate,
            amount: self.amount,
        }
    }
}

/// The amount of one line: rate times quantity, rounded half-up to cents.
pub fn line_amount_cents(rate: i64, qty_mils: i64) -> (r: i64)
    requires
        0 <= rate <= MAX_RATE_CENTS,
        0 < qty_mils <= MAX_QTY_MILS,
    ensures
        r == spec_round_half_up(rate * qty_mils, 1000),
        0 <= r <= 2 * MAX_AMOUNT_CENTS + 1,
{
    proof {
        assert(0 <= rate * qty_mils <= MAX_RATE_CENTS * MAX_QTY_MILS) by (nonlinear_arith)
            requires
                0 <= rate <= MAX_RATE_CENTS,
                0 < qty_mils <= MAX_QTY_MILS,
        ;
    }
    round_half_up(rate * qty_mils, 1000)
}

/// The amount of the line a good token describes, in cents.
pub open spec fn spec_line_amount(t: Seq<char>, catalog: Seq<(String, Item)>) -> int {
    let rate = catalog[spec_key_index(catalog, spec_token_item(t))].1.rate;
    spec_round_half_up(rate * spec_qty_mils(spec_token_qty(t)), 1000)
}

/// Whether one token parses, resolves in the catalog, and yields a line
/// amount within range.
pub open spec fn spec_token_good(t: Seq<char>, catalog: Seq<(String, Item)>) -> bool {
    &&& spec_token_ok(t)
    &&& spec_is_qty_literal(spec_token_qty(t))
    &&& !spec_qty_neg(spec_token_qty(t))
    &&& 0 < spec_qty_mils(spec_token_qty(t)) <= MAX_QTY_MILS
    &&& spec_key_index(catalog, spec_token_item(t)) >= 0
    &&& spec_line_amount(t, catalog) <= MAX_AMOUNT_CENTS
}

/// The line a good token describes.
pub open spec fn spec_line_of(t: Seq<char>, catalog: Seq<(String, Item)>) -> LineItemModel {
    let entry = catalog[spec_key_index(catalog, spec_token_item(t))].1;
    LineItemModel {
        description: entry.description@,
        quantity: spec_qty_mils(spec_token_qty(t)) as i64,
        unit: entry.unit@,
        rate: entry.rate,
        amount: spec_line_amount(t, catalog) as i64,
    }
}

/// The subtotal of the lines the tokens describe, in cents.
pub open spec fn spec_lines_subtotal(inputs: Seq<Seq<char>>, catalog: Seq<(String, Item)>) -> int
    decreases inputs.len(),
{
    if inputs.len() == 0 {
        0
    } else {
        spec_lines_subtotal(inputs.drop_last(), catalog) + spec_line_amount(
            inputs.last(),
            catalog,
        )
    }
}

/// Whether every token is good and the subtotal stays within range.
pub open spec fn spec_lines_good(inputs: Seq<Seq<char>>, catalog: Seq<(String, Item)>) -> bool {
    &&& forall|k: int| 0 <= k < inputs.len() ==> spec_token_good(#[trigger] inputs[k], catalog)
    &&& spec_lines_subtotal(inputs, catalog) <= MAX_AMOUNT_CENTS
}

/// One more line extends the subtotal by its amount.
proof fn lemma_subtotal_take_step(inputs: Seq<Seq<char>>, catalog: Seq<(String, Item)>, i: int)
    requires
        0 <= i < inputs.len(),
    ensures
        spec_lines_subtotal(inputs.take(i + 1), catalog) == spec_lines_subtotal(
            inputs.take(i),
            catalog,
        ) + spec_line_amount(inputs[i], catalog),
{
    assert(inputs.take(i + 1).drop_last() =~= inputs.take(i));
    assert(inputs.take(i + 1).last() == inputs[i]);
}

/// Good line amounts are non-negative.
proof fn lemma_line_amount_nonneg(t: Seq<char>, catalog: Seq<(String, Item)>)
    requires
        spec_token_good(t, catalog),
        0 <= catalog[spec_key_index(catalog, spec_token_item(t))].1.rate,
    ensures
        spec_line_amount(t, catalog) >= 0,
{
    let rate = catalog[spec_key_index(catalog, spec_token_item(t))].1.rate;
    let qty = spec_qty_mils(spec_token_qty(t));
    assert(rate * qty >= 0) by (nonlinear_arith)
        requires
            rate >= 0,
            qty > 0,
    ;
}

/// A prefix of good lines never outgrows the whole subtotal.
proof fn lemma_subtotal_take_le(inputs: Seq<Seq<char>>, catalog: Seq<(String, Item)>, i: int)
    requires
        0 <= i <= inputs.len(),
        forall|k: int| 0 <= k < inputs.len() ==> spec_token_good(#[trigger] inputs[k], catalog),
        forall|k: int|
            0 <= k < catalog.len() ==> 0 <= (#[trigger] catalog[k]).1.rate <= MAX_RATE_CENTS,
    ensures
        spec_lines_subtotal(inputs.take(i), catalog) <= spec_lines_subtotal(inputs, catalog),
    decreases inputs.len() - i,
{
    if i == inputs.len() {
        assert(inputs.take(i) =~= inputs);
    } else {
        lemma_subtotal_take_step(inputs, catalog, i);
        lemma_subtotal_take_le(inputs, catalog, i + 1);
        lemma_key_index(catalog, spec_token_item(inputs[i]));
        lemma_line_amount_nonneg(inputs[i], catalog);
    }
}

/// Builds the line items for the given tokens against the catalog, and their
/// subtotal in cents. Tokens are processed in order; the first failing token
/// decides the error. A line amount or the running subtotal beyond the
/// supported range is `AmountOverflow`.
pub fn build_line_items(items_input: &Vec<String>, catalog: &Vec<(String, Item)>) -> (r: Result<
    (Vec<InvoiceLineItem>, i64),
    InvoiceError,
>)
    requires
        forall|k: int|
            0 <= k < catalog@.len() ==> 0 <= (#[trigger] catalog@[k]).1.rate <= MAX_RATE_CENTS,
    ensures
        ({
            let inputs = items_input.deep_view();
            let cat = catalog@;
            match r {
                Ok(out) => {
                    &&& spec_lines_good(inputs, cat)
                    &&& out.0@.len() == inputs.len()
                    &&& forall|k: int|
                        0 <= k < inputs.len() ==> (#[trigger] out.0@[k])@ == spec_line_of(
                            inputs[k],
                            cat,
                        )
                    &&& out.1 == spec_lines_subtotal(inputs, cat)
                    &&& 0 <= out.1 <= MAX_AMOUNT_CENTS
                },
                Err(e) => {
                    &&& !spec_lines_good(inputs, cat)
                    &&& match e {
                        InvoiceError::InvalidItemFormat(t) => exists|k: int|
                            0 <= k < inputs.len() && !spec_token_ok(#[trigger] inputs[k]) && t@
                                == inputs[k],
                        InvoiceError::InvalidQuantity { item, qty, reason } => exists|k: int|
                            0 <= k < inputs.len() && spec_token_ok(#[trigger] inputs[k]) && item@
                                == spec_token_item(inputs[k]) && qty@ == spec_token_qty(inputs[k])
                                && !(spec_is_qty_literal(qty@) && !spec_qty_neg(qty@) && 0
                                < spec_qty_mils(qty@) <= MAX_QTY_MILS),
                        InvoiceError::ItemNotFound(id) => exists|k: int|
                            0 <= k < inputs.len() && spec_token_ok(#[trigger] inputs[k]) && id@
                                == spec_token_item(inputs[k]) && spec_key_index(cat, id@) == -1,
                        InvoiceError::AmountOverflow => true,
                        _ => false,
                    }
                },
            }
        }),
{
    let ghost inputs = items_input.deep_view();
    let ghost cat = catalog@;
    let mut lines: Vec<InvoiceLineItem> = Vec::new();
    let mut subtotal: i64 = 0;
    let mut i: usize = 0;
    proof {
        assert(inputs.take(0) =~= Seq::<Seq<char>>::empty());
    }
    while i < items_input.len()
        invariant
            i <= inputs.len(),
            inputs == items_input.deep_view(),
            cat == catalog@,
            inputs.len() == items_input@.len(),
            forall|k: int| 0 <= k < inputs.len() ==> inputs[k] == items_input@[k]@,
            forall|k: int|
                0 <= k < cat.len() ==> 0 <= (#[trigger] cat[k]).1.rate <= MAX_RATE_CENTS,
            forall|k: int| 0 <= k < i ==> spec_token_good(#[trigger] inputs[k], cat),
            lines@.len() == i,
            forall|k: int|
                0 <= k < i ==> (#[trigger] lines@[k])@ == spec_line_of(inputs[k], cat),
            subtotal == spec_lines_subtotal(inputs.take(i as int), cat),
            0 <= subtotal <= MAX_AMOUNT_CENTS,
        decreases inputs.len() - i,
    {
        let token = &items_input[i];
        let ghost t = inputs[i as int];
        proof {
            assert(t == items_input@[i as int]@);
            assert(token@ == items_input@[i as int]@);
        }
        let (item_id, qty_text, qty_mils) = match parse_item_input(token.as_str()) {
            Ok(parts) => parts,
            Err(e) => {
                proof {
                    assert(!spec_token_good(t, cat));
                    lemma_not_good_token(inputs, cat, i as int);
                }
                return Err(e);
            },
        };
        let idx = match find_key_index(catalog, item_id.as_str()) {
            Some(idx) => idx,
            None => {
                proof {
                    lemma_not_good_token(inputs, cat, i as int);
                }
                return Err(InvoiceError::ItemNotFound(item_id));
            },
        };
        proof {
            lemma_key_index(cat, t.take(spec_token_sep(t)));
        }
        let item = &catalog[idx].1;
        let amount = line_amount_cents(item.rate, qty_mils);
        if amount > MAX_AMOUNT_CENTS {
            proof {
                lemma_not_good_token(inputs, cat, i as int);
            }
            return Err(InvoiceError::AmountOverflow);
        }
        if amount > MAX_AMOUNT_CENTS - subtotal {
            // the running subtotal would leave the supported range; with
            // every line amount non-negative the full subtotal does too
            proof {
                lemma_subtotal_take_step(inputs, cat, i as int);
                if spec_lines_good(inputs, cat) {
                    lemma_subtotal_take_le(inputs, cat, i + 1);
                    assert(false);
                }
            }
            return Err(InvoiceError::AmountOverflow);
        }
        let line = InvoiceLineItem {
            description: item.description.clone(),
            quantity: qty_mils,
            unit: item.unit.clone(),
            rate: item.rate,
            amount,
        };
        proof {
            lemma_subtotal_take_step(inputs, cat, i as int);
        }
        lines.push(line);
        subtotal = subtotal + amount;
        i = i + 1;
    }
    proof {
        assert(inputs.take(inputs.len() as int) =~= inputs);
    }
    Ok((lines, subtotal))
}

/// When the token at `i` fails its checks, the whole batch is not good.
proof fn lemma_not_good_token(inputs: Seq<Seq<char>>, catalog: Seq<(String, Item)>, i: int)
    requires
        0 <= i < inputs.len(),
        !spec_token_good(inputs[i], catalog),
    ensures
        !spec_lines_good(inputs, catalog),
{
}

/// A digit string of at most three digits stays below one thousand.
proof fn lemma_digits_value_small(d: Seq<char>)
    requires
        d.len() <= 3,
        forall|k: int| 0 <= k < d.len() ==> spec_is_digit(#[trigger] d[k]),
    ensures
        spec_digits_value(d) < 1000,
    decreases d.len(),
{
    if d.len() > 0 {
        lemma_digits_value_small_helper(d);
    }
}

/// Bounds the value of a short digit string by its length.
proof fn lemma_digits_value_small_helper(d: Seq<char>)
    requires
        d.len() <= 3,
        forall|k: int| 0 <= k < d.len() ==> spec_is_digit(#[trigger] d[k]),
    ensures
        d.len() == 0 ==> spec_digits_value(d) == 0,
        d.len() == 1 ==> spec_digits_value(d) <= 9,
        d.len() == 2 ==> spec_digits_value(d) <= 99,
        d.len() == 3 ==> spec_digits_value(d) <= 999,
    decreases d.len(),
{
    if d.len() > 0 {
        lemma_digits_value_small_helper(d.drop_last());
    }
}

} // verus!
