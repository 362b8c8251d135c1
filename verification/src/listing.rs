//! The invoice listing: display rows for the terminal table, the financial
//! summary over the shown invoices, and the footer that is grafted onto the
//! rendered table's border.

use vstd::prelude::*;

use crate::money::{spec_cents_plain, spec_whole_money, format_cents_plain, format_whole_money};
use crate::report::{spec_paid_sum, spec_total_sum};
use crate::state::{lemma_sum_nonneg, EntryModel, HistoryEntry, State};
use crate::strings::{
    chars_to_string, push_chars, repeat_char, spec_find_char, str_to_chars,
};

verus! {

/// One row of the terminal listing, all cells pre-rendered.
#[derive(Debug)]
pub struct InvoiceRow {
    pub index: usize,
    pub number: String,
    pub date: String,
    pub total: String,
    pub status: String,
    pub client: String,
}

/// How many of the newest entries a limit shows.
pub open spec fn spec_shown(len: int, limit: Option<usize>) -> int {
    match limit {
        Some(n) => if n < len {
            n as int
        } else {
            len
        },
        None => len,
    }
}

/// The display rows: newest first, 1-based, at most `limit` of them.
pub fn list_rows(state: &State, limit: Option<usize>, currency_symbol: &str) -> (rows: Vec<
    InvoiceRow,
>)
    requires
        state@.wf(),
    ensures
        ({
            let h = state@.history;
            let shown = spec_shown(h.len() as int, limit);
            &&& rows@.len() == shown
            &&& forall|k: int|
                0 <= k < shown ==> {
                    let e = h[h.len() - 1 - k];
                    &&& (#[trigger] rows@[k]).index == k + 1
                    &&& rows@[k].number@ == e.number
                    &&& rows@[k].date@ == e.date.spec_iso()
                    &&& rows@[k].total@ == spec_whole_money(e.total as int, currency_symbol@)
                    &&& rows@[k].status@ == e.status().spec_label()
                    &&& rows@[k].client@ == e.client
                }
        }),
{
    let len = state.history.len();
    let shown = match limit {
        Some(n) => if n < len {
            n
        } else {
            len
        },
        None => len,
    };
    let mut rows: Vec<InvoiceRow> = Vec::new();
    let mut k: usize = 0;
    while k < shown
        invariant
            k <= shown,
            shown == spec_shown(state@.history.len() as int, limit),
            shown <= state@.history.len(),
            len == state@.history.len(),
            state@.wf(),
            rows@.len() == k,
            forall|j: int|
                0 <= j < k ==> {
                    let e = state@.history[state@.history.len() - 1 - j];
                    &&& (#[trigger] rows@[j]).index == j + 1
                    &&& rows@[j].number@ == e.number
                    &&& rows@[j].date@ == e.date.spec_iso()
                    &&& rows@[j].total@ == spec_whole_money(
                        e.total as int,
                        currency_symbol@,
                    )
                    &&& rows@[j].status@ == e.status().spec_label()
                    &&& rows@[j].client@ == e.client
                },
        decreases shown - k,
    {
        let e = &state.history[len - 1 - k];
        proof {
            assert(state@.history[len - 1 - k] == state.history@[len - 1 - k]@);
            assert(state@.history[len - 1 - k].wf());
        }
        let status = e.status();
        let row = InvoiceRow {
            index: k + 1,
            number: e.number.clone(),
            date: e.date.to_iso_string(),
            total: format_whole_money(e.total, currency_symbol),
            status: status.label(),
            client: e.client.clone(),
        };
        rows.push(row);
        k = k + 1;
    }
    rows
}

/// The newest entries a limit shows, in ledger order.
pub open spec fn spec_shown_entries(h: Seq<EntryModel>, limit: Option<usize>) -> Seq<EntryModel> {
    h.skip(h.len() - spec_shown(h.len() as int, limit))
}

/// Suffix sums of well-formed entries only grow as the suffix widens.
proof fn lemma_suffix_sums_monotonic(h: Seq<EntryModel>, i: int, j: int)
    requires
        0 <= i <= j <= h.len(),
        forall|k: int| 0 <= k < h.len() ==> #[trigger] h[k].wf(),
    ensures
        spec_total_sum(h.subrange(i, j)) <= spec_total_sum(h.subrange(i, h.len() as int)),
        spec_paid_sum(h.subrange(i, j)) <= spec_paid_sum(h.subrange(i, h.len() as int)),
    decreases h.len() - j,
{
    if j == h.len() {
        assert(h.subrange(i, j) =~= h.subrange(i, h.len() as int));
    } else {
        lemma_suffix_sums_monotonic(h, i, j + 1);
        assert(h.subrange(i, j + 1).drop_last() =~= h.subrange(i, j));
        assert(h.subrange(i, j + 1).last() == h[j]);
        assert(h[j].wf());
        lemma_sum_nonneg(h[j].payments);
    }
}

/// The financial summary over the shown invoices: their combined total, the
/// combined paid amount, and the outstanding difference — `None` when a sum
/// leaves the machine range.
pub fn list_totals(state: &State, limit: Option<usize>) -> (r: Option<(i64, i64, i64)>)
    requires
        state@.wf(),
    ensures
        ({
            let shown = spec_shown_entries(state@.history, limit);
            &&& (r matches Some(t) ==> t.0 == spec_total_sum(shown) && t.1 == spec_paid_sum(shown)
                && t.2 == t.0 - t.1)
            &&& (r is Some <==> spec_total_sum(shown) <= i64::MAX && spec_paid_sum(shown)
                <= i64::MAX)
        }),
{
    let ghost h = state@.history;
    let len = state.history.len();
    let shown_n = match limit {
        Some(n) => if n < len {
            n
        } else {
            len
        },
        None => len,
    };
    let start = len - shown_n;
    let ghost shown = spec_shown_entries(h, limit);
    proof {
        assert(shown =~= h.subrange(start as int, len as int));
    }
    let mut total: i64 = 0;
    let mut paid: i64 = 0;
    let mut i: usize = start;
    proof {
        assert(h.subrange(start as int, start as int) =~= Seq::<EntryModel>::empty());
    }
    while i < len
        invariant
            start <= i <= len,
            len == h.len(),
            h == state@.history,
            state@.wf(),
            shown == spec_shown_entries(h, limit),
            shown == h.subrange(start as int, len as int),
            total == spec_total_sum(h.subrange(start as int, i as int)),
            paid == spec_paid_sum(h.subrange(start as int, i as int)),
            0 <= total,
            0 <= paid,
        decreases len - i,
    {
        proof {
            assert(h[i as int] == state.history@[i as int]@);
            assert(h[i as int].wf());
            lemma_sum_nonneg(h[i as int].payments);
            assert(h.subrange(start as int, i + 1).drop_last() =~= h.subrange(
                start as int,
                i as int,
            ));
            assert(h.subrange(start as int, i + 1).last() == h[i as int]);
        }
        let e = &state.history[i];
        let new_total = match total.checked_add(e.total) {
            Some(v) => v,
            None => {
                proof {
                    lemma_suffix_sums_monotonic(h, start as int, i + 1);
                }
                return None;
            },
        };
        let e_paid = e.paid_amount();
        let new_paid = match paid.checked_add(e_paid) {
            Some(v) => v,
            None => {
                proof {
                    lemma_suffix_sums_monotonic(h, start as int, i + 1);
                }
                return None;
            },
        };
        total = new_total;
        paid = new_paid;
        i = i + 1;
    }
    Some((total, paid, total - paid))
}

/// `s` split at every occurrence of `sep`; the separators are dropped and
/// empty pieces are kept.
pub open spec fn spec_split(s: Seq<char>, sep: char) -> Seq<Seq<char>>
    decreases s.len(),
{
    let p = spec_find_char(s, sep);
    if p < 0 || p >= s.len() {
        seq![s]
    } else {
        seq![s.take(p)] + spec_split(s.skip(p + 1), sep)
    }
}

/// The pieces joined back with `sep` between them.
pub open spec fn spec_join(parts: Seq<Seq<char>>, sep: char) -> Seq<char>
    decreases parts.len(),
{
    if parts.len() == 0 {
        Seq::<char>::empty()
    } else if parts.len() == 1 {
        parts[0]
    } else {
        spec_join(parts.drop_last(), sep) + seq![sep] + parts.last()
    }
}

/// The combined length of the pieces: the whole minus the separators.
pub proof fn lemma_split_lens(s: Seq<char>, sep: char)
    ensures
        spec_split(s, sep).len() >= 1,
        spec_lens_sum(spec_split(s, sep)) == s.len() - (spec_split(s, sep).len() - 1),
        forall|k: int|
            0 <= k < spec_split(s, sep).len() ==> (#[trigger] spec_split(s, sep)[k]).len()
                <= s.len(),
    decreases s.len(),
{
    let p = spec_find_char(s, sep);
    crate::strings::lemma_find_char(s, sep);
    if p >= 0 {
        assert(0 <= p < s.len());
        lemma_split_lens(s.skip(p + 1), sep);
        let rest = spec_split(s.skip(p + 1), sep);
        let whole = spec_split(s, sep);
        assert(whole == seq![s.take(p)] + rest);
        assert(whole.len() == 1 + rest.len());
        assert(s.take(p).len() == p);
        lemma_lens_sum_cons(s.take(p), rest);
        assert(spec_lens_sum(whole) == p + spec_lens_sum(rest));
        assert(s.skip(p + 1).len() == s.len() - p - 1);
        assert(spec_lens_sum(rest) == s.skip(p + 1).len() - (rest.len() - 1));
        assert(spec_lens_sum(whole) == p + (s.len() - p - 1) - (rest.len() - 1));
        assert(spec_lens_sum(whole) == s.len() - (whole.len() - 1));
        assert(forall|k: int| 0 <= k < rest.len() ==> (#[trigger] rest[k]).len() <= s.skip(
            p + 1,
        ).len());
        assert(forall|k: int|
            1 <= k < whole.len() ==> #[trigger] whole[k] == rest[k - 1]);
        assert(whole[0].len() <= s.len());
    } else {
        let whole = spec_split(s, sep);
        assert(whole == seq![s]);
        assert(whole.drop_first() =~= Seq::<Seq<char>>::empty());
        assert(spec_lens_sum(whole) == s.len() + spec_lens_sum(Seq::<Seq<char>>::empty()));
    }
}

/// The combined length of a sequence of pieces.
pub open spec fn spec_lens_sum(parts: Seq<Seq<char>>) -> int
    decreases parts.len(),
{
    if parts.len() == 0 {
        0
    } else {
        parts[0].len() + spec_lens_sum(parts.drop_first())
    }
}

/// Prepending a piece adds its length to the sum.
proof fn lemma_lens_sum_cons(head: Seq<char>, rest: Seq<Seq<char>>)
    ensures
        spec_lens_sum(seq![head] + rest) == head.len() + spec_lens_sum(rest),
{
    assert((seq![head] + rest)[0] == head);
    assert((seq![head] + rest).drop_first() =~= rest);
}

/// The characters of `s` in `[a, b)`.
fn copy_range(s: &Vec<char>, a: usize, b: usize) -> (v: Vec<char>)
    requires
        a <= b <= s@.len(),
    ensures
        v@ == s@.subrange(a as int, b as int),
{
    let mut v: Vec<char> = Vec::new();
    let mut i = a;
    while i < b
        invariant
            a <= i <= b <= s@.len(),
            v@ == s@.subrange(a as int, i as int),
        decreases b - i,
    {
        v.push(s[i]);
        proof {
            assert(s@.subrange(a as int, i + 1) =~= s@.subrange(a as int, i as int).push(
                s@[i as int],
            ));
        }
        i = i + 1;
    }
    v
}

/// Splits `s` at every `sep`, keeping empty pieces.
pub fn split_chars(s: &Vec<char>, sep: char) -> (parts: Vec<Vec<char>>)
    ensures
        parts.deep_view() == spec_split(s@, sep),
    decreases s@.len(),
{
    let n = s.len();
    let mut p: usize = 0;
    let mut found = false;
    while p < n && !found
        invariant
            p <= n,
            n == s@.len(),
            !found ==> forall|k: int| 0 <= k < p ==> s@[k] != sep,
            found ==> p < n && s@[p as int] == sep && forall|k: int| 0 <= k < p ==> s@[k] != sep,
        decreases n - p, (if found { 0int } else { 1int }),
    {
        if s[p] == sep {
            found = true;
        } else {
            p = p + 1;
        }
    }
    proof {
        crate::strings::lemma_find_char(s@, sep);
    }
    if !found {
        let part = copy_range(s, 0, n);
        let mut parts: Vec<Vec<char>> = Vec::new();
        parts.push(part);
        proof {
            assert(s@.subrange(0, n as int) =~= s@);
            assert(spec_find_char(s@, sep) == -1);
            assert(parts.deep_view() =~~= spec_split(s@, sep));
        }
        parts
    } else {
        proof {
            assert(spec_find_char(s@, sep) == p);
        }
        let first = copy_range(s, 0, p);
        let rest = copy_range(s, p + 1, n);
        let mut parts = split_chars(&rest, sep);
        parts.insert(0, first);
        proof {
            assert(rest@ =~= s@.skip(p + 1));
            assert(first@ =~= s@.take(p as int));
            assert(parts.deep_view() =~~= spec_split(s@, sep));
        }
        parts
    }
}

/// Joins the first `upto` pieces with `sep`.
fn join_upto(parts: &Vec<Vec<char>>, upto: usize, sep: char) -> (v: Vec<char>)
    requires
        upto <= parts@.len(),
    ensures
        v@ == spec_join(parts.deep_view().take(upto as int), sep),
{
    let ghost dv = parts.deep_view();
    let mut v: Vec<char> = Vec::new();
    let mut i: usize = 0;
    proof {
        assert(dv.take(0) =~= Seq::<Seq<char>>::empty());
    }
    while i < upto
        invariant
            i <= upto <= parts@.len(),
            dv == parts.deep_view(),
            dv.len() == parts@.len(),
            forall|k: int| 0 <= k < parts@.len() ==> dv[k] == (#[trigger] parts@[k])@,
            v@ == spec_join(dv.take(i as int), sep),
        decreases upto - i,
    {
        if i > 0 {
            v.push(sep);
        }
        push_chars(&mut v, &parts[i]);
        proof {
            assert(dv.take(i + 1).drop_last() =~= dv.take(i as int));
            assert(dv.take(i + 1).last() == dv[i as int]);
            if i == 0 {
                assert(spec_join(dv.take(1), sep) == dv[0]);
                assert(v@ =~= dv[0]);
            } else {
                assert(v@ =~= spec_join(dv.take(i as int), sep) + seq![sep] + dv[i as int]);
            }
        }
        i = i + 1;
    }
    v
}

/// A run of `n` horizontal border characters.
pub open spec fn spec_dashes(n: int) -> Seq<char> {
    Seq::new(
        if n >= 0 {
            n as nat
        } else {
            0
        },
        |i: int| '─',
    )
}

/// `s` right-aligned in a field of width `w` by left-padding with spaces.
pub open spec fn spec_right_align(s: Seq<char>, w: int) -> Seq<char> {
    if s.len() < w {
        Seq::new((w - s.len()) as nat, |i: int| ' ') + s
    } else {
        s
    }
}

/// Right-aligns `s` in a field of width `w`.
fn right_align(s: &Vec<char>, w: usize) -> (v: Vec<char>)
    ensures
        v@ == spec_right_align(s@, w as int),
{
    if s.len() < w {
        let mut v = repeat_char(' ', w - s.len());
        push_chars(&mut v, s);
        v
    } else {
        let mut v: Vec<char> = Vec::new();
        push_chars(&mut v, s);
        proof {
            assert(v@ =~= s@);
        }
        v
    }
}

/// One summary row: the label and the value, right-aligned in the merged
/// left cell and the TOTAL cell.
pub open spec fn spec_summary_row(
    label: Seq<char>,
    value: Seq<char>,
    left: int,
    total: int,
) -> Seq<char> {
    seq!['│', ' '] + spec_right_align(label, left - 2) + seq![' ', '│', ' '] + spec_right_align(
        value,
        total - 2,
    ) + seq![' ', '│', '\n']
}

/// The separator between two summary rows.
pub open spec fn spec_row_sep(left: int, total: int) -> Seq<char> {
    seq!['├'] + spec_dashes(left) + seq!['┼'] + spec_dashes(total) + seq!['┤', '\n']
}

/// What `add_financial_footer` yields: the table without its bottom border,
/// a separator merging the three leftmost columns and closing off the
/// rightmost two, three summary rows, and a new bottom border. A table whose
/// top border does not parse into at least six cells is returned unchanged.
pub open spec fn spec_financial_footer(
    table: Seq<char>,
    total: Seq<char>,
    paid: Seq<char>,
    outstanding: Seq<char>,
) -> Seq<char> {
    let lines = spec_split(table, '\n');
    if lines.len() < 4 {
        table
    } else {
        let top = lines[0];
        if !(top.len() >= 2 && top[0] == '╭' && top.last() == '╮') {
            table
        } else {
            let cells = spec_split(top.subrange(1, top.len() - 1), '┬');
            if cells.len() < 6 {
                table
            } else {
                let left = cells[0].len() + cells[1].len() + cells[2].len() + 2;
                let tw = cells[3].len() as int;
                if tw < 2 {
                    table
                } else {
                    spec_join(lines.take(lines.len() - 1), '\n') + seq!['\n'] + spec_merge_sep(
                        cells[0].len() as int,
                        cells[1].len() as int,
                        cells[2].len() as int,
                        tw,
                        cells[4].len() as int,
                        cells[5].len() as int,
                    ) + spec_summary_row("TOTAL"@, total, left as int, tw) + spec_row_sep(
                        left as int,
                        tw,
                    ) + spec_summary_row("(-) PAID"@, paid, left as int, tw) + spec_row_sep(
                        left as int,
                        tw,
                    ) + spec_summary_row("(=) OUTSTANDING"@, outstanding, left as int, tw) + seq![
                        '╰',
                    ] + spec_dashes(left as int) + seq!['┴'] + spec_dashes(tw) + seq!['╯']
                }
            }
        }
    }
}

/// Appends one summary row to the output buffer.
fn push_summary_row(out: &mut Vec<char>, label: &Vec<char>, value: &Vec<char>, left: usize, total: usize)
    requires
        left >= 2,
        total >= 2,
    ensures
        final(out)@ == old(out)@ + spec_summary_row(label@, value@, left as int, total as int),
{
    out.push('│');
    out.push(' ');
    let l = right_align(label, left - 2);
    push_chars(out, &l);
    out.push(' ');
    out.push('│');
    out.push(' ');
    let v = right_align(value, total - 2);
    push_chars(out, &v);
    out.push(' ');
    out.push('│');
    out.push('\n');
    proof {
        assert(final(out)@ =~= old(out)@ + spec_summary_row(
            label@,
            value@,
            left as int,
            total as int,
        ));
    }
}

/// Appends one row separator to the output buffer.
fn push_row_sep(out: &mut Vec<char>, left: usize, total: usize)
    ensures
        final(out)@ == old(out)@ + spec_row_sep(left as int, total as int),
{
    out.push('├');
    let d1 = repeat_char('─', left);
    push_chars(out, &d1);
    out.push('┼');
    let d2 = repeat_char('─', total);
    push_chars(out, &d2);
    out.push('┤');
    out.push('\n');
    proof {
        assert(final(out)@ =~= old(out)@ + spec_row_sep(left as int, total as int));
    }
}

/// Grafts a financial summary onto a rendered listing table: the three
/// leftmost columns merge into one label cell, the TOTAL column carries the
/// values, and the remaining columns are closed off. A table whose top
/// border does not parse is returned unchanged.
#[verifier::rlimit(100)]
pub fn add_financial_footer(table: &str, total: &str, paid: &str, outstanding: &str) -> (r: String)
    ensures
        r@ == spec_financial_footer(table@, total@, paid@, outstanding@),
{
    let tchars = str_to_chars(table);
    let lines = split_chars(&tchars, '\n');
    let ghost lines_dv = lines.deep_view();
    proof {
        assert(forall|k: int|
            0 <= k < lines@.len() ==> lines_dv[k] == (#[trigger] lines@[k])@);
    }
    if lines.len() < 4 {
        return table.to_owned();
    }
    let top = &lines[0];
    if !(top.len() >= 2 && top[0] == '╭' && top[top.len() - 1] == '╮') {
        return table.to_owned();
    }
    let inner = copy_range(top, 1, top.len() - 1);
    let cells = split_chars(&inner, '┬');
    let ghost cells_dv = cells.deep_view();
    proof {
        assert(inner@ =~= lines_dv[0].subrange(1, lines_dv[0].len() - 1));
        assert(forall|k: int|
            0 <= k < cells@.len() ==> cells_dv[k] == (#[trigger] cells@[k])@);
    }
    if cells.len() < 6 {
        return table.to_owned();
    }
    let w0 = cells[0].len();
    let w1 = cells[1].len();
    let w2 = cells[2].len();
    let total_width = cells[3].len();
    let w4 = cells[4].len();
    let w5 = cells[5].len();
    proof {
        lemma_split_lens(inner@, '┬');
        lemma_lens_sum_prefix(cells_dv, 3);
        lemma_split_lens(tchars@, '\n');
    }
    let left_width = w0 + w1 + w2 + 2;
    if total_width < 2 {
        return table.to_owned();
    }
    // everything above the bottom border stays as it is
    let mut out = join_upto(&lines, lines.len() - 1, '\n');
    out.push('\n');
    push_merge_sep(&mut out, w0, w1, w2, total_width, w4, w5);
    let label_total = str_to_chars("TOTAL");
    let label_paid = str_to_chars("(-) PAID");
    let label_out = str_to_chars("(=) OUTSTANDING");
    let total_chars = str_to_chars(total);
    let paid_chars = str_to_chars(paid);
    let out_chars = str_to_chars(outstanding);
    push_summary_row(&mut out, &label_total, &total_chars, left_width, total_width);
    push_row_sep(&mut out, left_width, total_width);
    push_summary_row(&mut out, &label_paid, &paid_chars, left_width, total_width);
    push_row_sep(&mut out, left_width, total_width);
    push_summary_row(&mut out, &label_out, &out_chars, left_width, total_width);
    push_bottom_border(&mut out, left_width, total_width);
    proof {
        assert(out@ =~= spec_financial_footer(table@, total@, paid@, outstanding@));
    }
    chars_to_string(&out)
}

/// The separator that merges the three leftmost columns, keeps the TOTAL
/// column, and closes off the two rightmost ones.
pub open spec fn spec_merge_sep(
    w0: int,
    w1: int,
    w2: int,
    total: int,
    w4: int,
    w5: int,
) -> Seq<char> {
    seq!['├'] + spec_dashes(w0) + seq!['┴'] + spec_dashes(w1) + seq!['┴'] + spec_dashes(w2)
        + seq!['┼'] + spec_dashes(total) + seq!['┼'] + spec_dashes(w4) + seq!['┴'] + spec_dashes(
        w5,
    ) + seq!['╯', '\n']
}

/// Appends the merging separator to the output buffer.
fn push_merge_sep(out: &mut Vec<char>, w0: usize, w1: usize, w2: usize, total: usize, w4: usize, w5: usize)
    ensures
        final(out)@ == old(out)@ + spec_merge_sep(
            w0 as int,
            w1 as int,
            w2 as int,
            total as int,
            w4 as int,
            w5 as int,
        ),
{
    out.push('├');
    let d0 = repeat_char('─', w0);
    push_chars(out, &d0);
    out.push('┴');
    let d1 = repeat_char('─', w1);
    push_chars(out, &d1);
    out.push('┴');
    let d2 = repeat_char('─', w2);
    push_chars(out, &d2);
    out.push('┼');
    let d3 = repeat_char('─', total);
    push_chars(out, &d3);
    out.push('┼');
    let d4 = repeat_char('─', w4);
    push_chars(out, &d4);
    out.push('┴');
    let d5 = repeat_char('─', w5);
    push_chars(out, &d5);
    out.push('╯');
    out.push('\n');
    proof {
        assert(final(out)@ =~= old(out)@ + spec_merge_sep(
            w0 as int,
            w1 as int,
            w2 as int,
            total as int,
            w4 as int,
            w5 as int,
        ));
    }
}

/// Appends the new bottom border to the output buffer.
fn push_bottom_border(out: &mut Vec<char>, left: usize, total: usize)
    ensures
        final(out)@ == old(out)@ + seq!['╰'] + spec_dashes(left as int) + seq![
            '┴',
        ] + spec_dashes(total as int) + seq!['╯'],
{
    out.push('╰');
    let dl = repeat_char('─', left);
    push_chars(out, &dl);
    out.push('┴');
    let dt = repeat_char('─', total);
    push_chars(out, &dt);
    out.push('╯');
    proof {
        assert(final(out)@ =~= old(out)@ + seq!['╰'] + spec_dashes(left as int) + seq![
            '┴',
        ] + spec_dashes(total as int) + seq!['╯']);
    }
}

/// The first pieces' lengths are bounded by the whole sum.
proof fn lemma_lens_sum_prefix(parts: Seq<Seq<char>>, upto: int)
    requires
        0 <= upto <= parts.len(),
        forall|k: int| 0 <= k < parts.len() ==> (#[trigger] parts[k]).len() >= 0,
    ensures
        spec_lens_sum(parts.take(upto)) <= spec_lens_sum(parts),
        parts.len() >= 3 ==> spec_lens_sum(parts.take(3)) == parts[0].len() + parts[1].len()
            + parts[2].len(),
    decreases parts.len(),
{
    if parts.len() > 0 {
        lemma_lens_sum_prefix_rec(parts, upto);
    }
    if parts.len() >= 3 {
        lemma_lens_sum_take3(parts);
    }
}

/// Prefix sums of piece lengths never exceed the whole sum.
proof fn lemma_lens_sum_prefix_rec(parts: Seq<Seq<char>>, upto: int)
    requires
        0 <= upto <= parts.len(),
    ensures
        spec_lens_sum(parts.take(upto)) <= spec_lens_sum(parts),
    decreases parts.len(),
{
    if parts.len() == 0 {
        assert(parts.take(upto) =~= parts);
    } else if upto == 0 {
        lemma_lens_sum_nonneg(parts);
        assert(parts.take(0) =~= Seq::<Seq<char>>::empty());
    } else {
        lemma_lens_sum_prefix_rec(parts.drop_first(), upto - 1);
        assert(parts.take(upto).drop_first() =~= parts.drop_first().take(upto - 1));
        assert(parts.take(upto)[0] == parts[0]);
    }
}

/// A sum of lengths is never negative.
proof fn lemma_lens_sum_nonneg(parts: Seq<Seq<char>>)
    ensures
        spec_lens_sum(parts) >= 0,
    decreases parts.len(),
{
    if parts.len() > 0 {
        lemma_lens_sum_nonneg(parts.drop_first());
    }
}

/// The sum of the first three piece lengths, spelled out.
proof fn lemma_lens_sum_take3(parts: Seq<Seq<char>>)
    requires
        parts.len() >= 3,
    ensures
        spec_lens_sum(parts.take(3)) == parts[0].len() + parts[1].len() + parts[2].len(),
{
    let t = parts.take(3);
    assert(t[0] == parts[0]);
    assert(t.drop_first()[0] == parts[1]);
    assert(t.drop_first().drop_first()[0] == parts[2]);
    assert(t.drop_first().drop_first().drop_first() =~= Seq::<Seq<char>>::empty());
    assert(spec_lens_sum(t) == t[0].len() + spec_lens_sum(t.drop_first()));
    assert(spec_lens_sum(t.drop_first()) == t.drop_first()[0].len() + spec_lens_sum(
        t.drop_first().drop_first(),
    ));
    assert(spec_lens_sum(t.drop_first().drop_first()) == t.drop_first().drop_first()[0].len()
        + spec_lens_sum(t.drop_first().drop_first().drop_first()));
}

/// One row of the payment history listing, cells pre-rendered.
#[derive(Debug)]
pub struct PaymentRow {
    pub index: usize,
    pub date: String,
    pub amount: String,
}

/// The payment history of one entry as display rows, 1-based, in recording
/// order.
pub fn payment_rows(entry: &HistoryEntry, currency_symbol: &str) -> (rows: Vec<PaymentRow>)
    ensures
        ({
            let ps = entry@.payments;
            &&& rows@.len() == ps.len()
            &&& forall|k: int|
                0 <= k < ps.len() ==> {
                    &&& (#[trigger] rows@[k]).index == k + 1
                    &&& rows@[k].date@ == ps[k].date.spec_iso()
                    &&& rows@[k].amount@ == currency_symbol@ + spec_cents_plain(
                        ps[k].amount as int,
                    )
                }
        }),
{
    let mut rows: Vec<PaymentRow> = Vec::new();
    let mut k: usize = 0;
    while k < entry.payments.len()
        invariant
            k <= entry.payments@.len(),
            rows@.len() == k,
            forall|j: int|
                0 <= j < k ==> {
                    let ps = entry.payments@;
                    &&& (#[trigger] rows@[j]).index == j + 1
                    &&& rows@[j].date@ == ps[j].date.spec_iso()
                    &&& rows@[j].amount@ == currency_symbol@ + spec_cents_plain(
                        ps[j].amount as int,
                    )
                },
        decreases entry.payments@.len() - k,
    {
        let p = entry.payments[k];
        let mut amount = str_to_chars(currency_symbol);
        let cents = format_cents_plain(p.amount);
        let cents_chars = str_to_chars(cents.as_str());
        push_chars(&mut amount, &cents_chars);
        let row = PaymentRow {
            index: k + 1,
            date: p.date.to_iso_string(),
            amount: chars_to_string(&amount),
        };
        rows.push(row);
        k = k + 1;
    }
    rows
}

} // verus!
