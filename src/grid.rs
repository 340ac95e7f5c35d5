//! The terminal grid: a viewport over a bounded history of rows, with a
//! cursor, the current formatting and an optional selection.

use std::collections::VecDeque;
use vstd::prelude::*;
use crate::cell::{Cell, CellAttrs, Color, Position, Selection};
use crate::control::{wire_action, CsiAction};
use crate::parser::{initial_state, sgr_apply, EscAction, ParseAction, ParserState};
use crate::view::{text_lines, text_rows, rows_view, TextView, MAX_TEXT_ROWS};
use crate::text::{
    alnum, char_from_u32, is_alphanumeric, is_scalar, push_char, string_of, trim_end,
    trim_trailing_whitespace,
};

verus! {

/// Rows of history kept above the viewport unless another cap is given.
pub const DEFAULT_MAX_SCROLLBACK: usize = 10000;

/// A row of `n` empty cells.
pub open spec fn blank_row(n: nat) -> Seq<Cell> {
    Seq::new(n, |i: int| Cell::blank())
}

/// `n` rows of `cols` empty cells each.
pub open spec fn blank_rows(n: nat, cols: nat) -> Seq<Seq<Cell>> {
    Seq::new(n, |i: int| blank_row(cols))
}

/// The cells of each row.
pub open spec fn row_views(s: Seq<Vec<Cell>>) -> Seq<Seq<Cell>> {
    s.map_values(|r: Vec<Cell>| r@)
}

/// Row views commute with appending a row.
pub proof fn lemma_row_views_push(s: Seq<Vec<Cell>>, r: Vec<Cell>)
    ensures
        row_views(s.push(r)) == row_views(s).push(r@),
{
    assert(row_views(s.push(r)) =~= row_views(s).push(r@));
}

/// Row views commute with taking a range of rows.
pub proof fn lemma_row_views_subrange(s: Seq<Vec<Cell>>, lo: int, hi: int)
    requires
        0 <= lo <= hi <= s.len(),
    ensures
        row_views(s.subrange(lo, hi)) == row_views(s).subrange(lo, hi),
{
    assert(row_views(s.subrange(lo, hi)) =~= row_views(s).subrange(lo, hi));
}

/// Row views commute with replacing a row.
pub proof fn lemma_row_views_update(s: Seq<Vec<Cell>>, i: int, r: Vec<Cell>)
    requires
        0 <= i < s.len(),
    ensures
        row_views(s.update(i, r)) == row_views(s).update(i, r@),
{
    assert(row_views(s.update(i, r)) =~= row_views(s).update(i, r@));
}

/// `a` clamped to at most `hi`.
pub open spec fn clamp_to(a: int, hi: int) -> int {
    if a <= hi { a } else { hi }
}

/// The smaller of two integers.
pub open spec fn min_int(a: int, b: int) -> int {
    if a <= b { a } else { b }
}

/// `a - b`, or 0 when `b` exceeds `a`.
pub open spec fn sat_sub(a: int, b: int) -> int {
    if a >= b { a - b } else { 0 }
}

/// `n` itself, or 1 in place of 0.
pub open spec fn at_least_one(n: u16) -> u16 {
    if n == 0 { 1 } else { n }
}

/// The last `cap` rows of `s`, or all of them when there are no more.
pub open spec fn keep_last(s: Seq<Seq<Cell>>, cap: int) -> Seq<Seq<Cell>> {
    if s.len() > cap {
        s.subrange(s.len() - cap, s.len() as int)
    } else {
        s
    }
}

/// `line` cut or padded with empty cells to `n` cells.
pub open spec fn fit_row(line: Seq<Cell>, n: nat) -> Seq<Cell> {
    if line.len() >= n {
        line.subrange(0, n as int)
    } else {
        line + blank_row((n - line.len()) as nat)
    }
}

/// Whether a cell at column `n` or beyond of `r` is not empty.
pub open spec fn row_overflows(r: Seq<Cell>, n: int) -> bool {
    exists|j: int| n <= j < r.len() && !(#[trigger] r[j]).is_blank()
}

/// Whether some row of `s` has a non-empty cell at column `n` or beyond.
pub open spec fn any_overflows(s: Seq<Seq<Cell>>, n: int) -> bool {
    exists|i: int| 0 <= i < s.len() && row_overflows(#[trigger] s[i], n)
}

/// Length of the prefix of `r` that ends with its last non-empty cell.
pub open spec fn content_len(r: Seq<Cell>) -> nat
    decreases r.len(),
{
    if r.len() == 0 {
        0
    } else if !r.last().is_blank() {
        r.len()
    } else {
        content_len(r.drop_last())
    }
}

/// The prefix of `r` that ends with its last non-empty cell.
pub open spec fn content(r: Seq<Cell>) -> Seq<Cell> {
    r.subrange(0, content_len(r) as int)
}

/// `c` cut into rows of `n` cells, the last one padded with empty cells.
pub open spec fn chunks(c: Seq<Cell>, n: nat) -> Seq<Seq<Cell>>
    decreases c.len(),
{
    if c.len() == 0 || n == 0 {
        Seq::empty()
    } else if c.len() <= n {
        seq![fit_row(c, n)]
    } else {
        seq![c.subrange(0, n as int)] + chunks(c.subrange(n as int, c.len() as int), n)
    }
}

/// Every row of `s` cut or padded to `n` cells.
pub open spec fn fit_all(s: Seq<Seq<Cell>>, n: nat) -> Seq<Seq<Cell>> {
    Seq::new(s.len(), |i: int| fit_row(s[i], n))
}

/// `s` with empty rows of `cols` cells appended until it has `n` rows.
pub open spec fn pad_rows(s: Seq<Seq<Cell>>, n: nat, cols: nat) -> Seq<Seq<Cell>> {
    if s.len() < n {
        s + blank_rows((n - s.len()) as nat, cols)
    } else {
        s
    }
}

/// The stored rows after the width changes from `oc` to `nc`, with `nr`
/// viewport rows: rows are padded when widening; when narrowing with a
/// non-empty cell past the new width, the contents of all rows, one after
/// the other, are re-cut into rows of `nc` cells (the last one padded, then
/// empty rows up to `nr`); otherwise rows are cut.
pub open spec fn width_changed(s: Seq<Seq<Cell>>, oc: nat, nc: nat, nr: nat) -> Seq<Seq<Cell>> {
    if nc < oc && any_overflows(s, nc as int) {
        pad_rows(chunks(contents(s), nc), nr, nc)
    } else if nc != oc {
        fit_all(s, nc)
    } else {
        s
    }
}

/// The stored rows after the viewport height changes from `or` to `nr`:
/// blank rows are appended when it grows; when it shrinks, up to `or - nr`
/// rows are dropped from the bottom, never leaving fewer than `nr`.
pub open spec fn height_changed(s: Seq<Seq<Cell>>, or: nat, nr: nat, cols: nat) -> Seq<Seq<Cell>> {
    if nr > or {
        s + blank_rows((nr - or) as nat, cols)
    } else if s.len() <= nr {
        s
    } else if s.len() - (or - nr) >= nr {
        s.subrange(0, s.len() - (or - nr))
    } else {
        s.subrange(0, nr as int)
    }
}

/// Every row that `chunks` produces has `n` cells.
pub proof fn lemma_chunks_width(c: Seq<Cell>, n: nat)
    ensures
        forall|i: int| 0 <= i < chunks(c, n).len() ==> (#[trigger] chunks(c, n)[i]).len() == n,
    decreases c.len(),
{
    if c.len() == 0 || n == 0 {
    } else if c.len() <= n {
    } else {
        let rest = c.subrange(n as int, c.len() as int);
        lemma_chunks_width(rest, n);
        assert forall|i: int| 0 <= i < chunks(c, n).len() implies (#[trigger] chunks(c, n)[i]).len() == n by {
            if i > 0 {
                assert(chunks(c, n)[i] == chunks(rest, n)[i - 1]);
            }
        }
    }
}

/// The rows that a resize to `nc` columns and `nr` rows leaves, before the
/// cap on stored rows is applied.
pub open spec fn resized_lines(s: Seq<Seq<Cell>>, oc: nat, or: nat, nc: nat, nr: nat) -> Seq<Seq<Cell>> {
    pad_rows(height_changed(width_changed(s, oc, nc, nr), or, nr, nc), nr, nc)
}

/// Every row of `width_changed` has `nc` cells when every row of `s` had `oc`.
pub proof fn lemma_width_changed_width(s: Seq<Seq<Cell>>, oc: nat, nc: nat, nr: nat)
    requires
        nc >= 1,
        forall|i: int| 0 <= i < s.len() ==> (#[trigger] s[i]).len() == oc,
    ensures
        forall|i: int| 0 <= i < width_changed(s, oc, nc, nr).len() ==> (#[trigger] width_changed(s, oc, nc, nr)[i]).len() == nc,
{
    lemma_chunks_width(contents(s), nc);
}

/// The character a cell shows in the viewport's text: a space for an empty
/// cell or glyph 0, else the glyph's low byte.
pub open spec fn view_char(c: Cell) -> char {
    if c.glyph_id == 0 || c.is_blank() {
        ' '
    } else {
        (c.glyph_id as u8) as char
    }
}

/// The text of a row in the viewport's text.
pub open spec fn view_text(r: Seq<Cell>) -> Seq<char> {
    r.map_values(|c: Cell| view_char(c))
}

/// The character with code `v`.
pub open spec fn char_of(v: u32) -> char {
    choose|ch: char| #[trigger] (ch as u32) == v
}

/// `char_of` gives back the character whose code it is given.
pub proof fn lemma_char_of(ch: char)
    ensures
        char_of(ch as u32) == ch,
{
    let v = ch as u32;
    assert((ch as u32) == v);
    let x = char_of(v);
    assert((x as u32) == v);
}

/// What a cell contributes to selected text: a space for an empty cell or
/// glyph 0, its character for a scalar value, nothing otherwise.
pub open spec fn selected_chars(c: Cell) -> Seq<char> {
    if c.glyph_id == 0 || c.is_blank() {
        seq![' ']
    } else if is_scalar(c.glyph_id) {
        seq![char_of(c.glyph_id)]
    } else {
        Seq::empty()
    }
}

/// What a run of cells contributes to selected text.
pub open spec fn cells_text(r: Seq<Cell>) -> Seq<char>
    decreases r.len(),
{
    if r.len() == 0 {
        Seq::empty()
    } else {
        cells_text(r.drop_last()) + selected_chars(r.last())
    }
}

/// Whether `c` counts as part of a word: a letter, digit or `_`.
pub open spec fn word_cell(c: Cell) -> bool {
    is_scalar(c.glyph_id) && (alnum(char_of(c.glyph_id)) || char_of(c.glyph_id) == '_')
}

/// The first column of the word run that ends just before column `c`.
pub open spec fn word_start(row: Seq<Cell>, c: int) -> int
    decreases c,
{
    if 0 < c <= row.len() && word_cell(row[c - 1]) {
        word_start(row, c - 1)
    } else {
        c
    }
}

/// The first column at or after `c` that is not part of a word.
pub open spec fn word_stop(row: Seq<Cell>, c: int) -> int
    decreases row.len() - c,
{
    if 0 <= c < row.len() && word_cell(row[c]) {
        word_stop(row, c + 1)
    } else {
        c
    }
}

/// Resizing to the dimensions a grid already has changes nothing: a resize
/// repeated with the same arguments leaves the grid as the first left it.
pub proof fn lemma_resize_idempotent(g0: &TerminalGrid, g1: &TerminalGrid, g2: &TerminalGrid, cols: u16, rows: u16)
    requires
        g0.wf(),
        g1.wf(),
        TerminalGrid::resize_spec(g0, g1, cols, rows),
        TerminalGrid::resize_spec(g1, g2, cols, rows),
    ensures
        g2.cols == g1.cols,
        g2.rows == g1.rows,
        g2.max_scrollback == g1.max_scrollback,
        g2.formatting() == g1.formatting(),
        g2.lines_view() == g1.lines_view(),
        g2.cursor() == g1.cursor(),
        g2.viewport_offset == g1.viewport_offset,
        g2.sel() == g1.sel(),
{
    let s = g1.lines_view();
    let nc = g1.cols as nat;
    let nr = g1.rows as nat;
    assert(width_changed(s, nc, nc, nr) == s);
    if s.len() > nr {
        assert(s.subrange(0, s.len() as int) =~= s);
    }
    assert(height_changed(s, nr, nr, nc) == s);
    assert(pad_rows(s, nr, nc) == s);
    assert(resized_lines(s, nc, nr, nc, nr) == s);
    assert(keep_last(s, (g1.spec_max_scrollback() + nr) as int) == s);
    match g1.sel() {
        Some(sel) => {
            assert(g2.clamp_pos(sel.start) == sel.start);
            assert(g2.clamp_pos(sel.end) == sel.end);
        },
        None => {},
    }
}

/// Scrolling up by `k` and then down by `k` returns the view to where it
/// was, when the way up was not cut short by the oldest row (or the view
/// started at the bottom) and no row was added in between.
pub proof fn lemma_scroll_round_trip(g0: &TerminalGrid, g1: &TerminalGrid, g2: &TerminalGrid, k: usize)
    requires
        g0.wf(),
        TerminalGrid::scrolled_to(g0, g1, min_int(g0.viewport_offset + k, g0.max_offset())),
        TerminalGrid::scrolled_to(g1, g2, sat_sub(g1.viewport_offset as int, k as int)),
        g0.viewport_offset + k <= g0.max_offset() || g0.viewport_offset == 0,
    ensures
        g2.viewport_offset == g0.viewport_offset,
        g2.lines_view() == g0.lines_view(),
        g2.cursor() == g0.cursor(),
{
}

/// Narrowing without a written cell past the new width keeps every row's
/// cells one to one: each row is cut to the new width, in place.
pub proof fn lemma_narrowing_keeps_cells(s: Seq<Seq<Cell>>, oc: nat, nc: nat, nr: nat)
    requires
        nc < oc,
        forall|i: int| 0 <= i < s.len() ==> (#[trigger] s[i]).len() == oc,
        !any_overflows(s, nc as int),
    ensures
        width_changed(s, oc, nc, nr).len() == s.len(),
        forall|i: int, j: int| 0 <= i < s.len() && 0 <= j < nc ==> #[trigger] width_changed(s, oc, nc, nr)[i][j] == s[i][j],
{
    assert forall|i: int, j: int| 0 <= i < s.len() && 0 <= j < nc implies #[trigger] width_changed(s, oc, nc, nr)[i][j] == s[i][j] by {
        assert(width_changed(s, oc, nc, nr)[i] == fit_row(s[i], nc));
    }
}

/// Every cell of a row past its content is empty.
pub proof fn lemma_past_content_is_blank(r: Seq<Cell>)
    ensures
        content_len(r) <= r.len(),
        forall|j: int| content_len(r) <= j < r.len() ==> (#[trigger] r[j]).is_blank(),
    decreases r.len(),
{
    if r.len() > 0 && r.last().is_blank() {
        let d = r.drop_last();
        lemma_past_content_is_blank(d);
        assert forall|j: int| content_len(r) <= j < r.len() implies (#[trigger] r[j]).is_blank() by {
            if j < r.len() - 1 {
                assert(r[j] == d[j]);
            }
        }
    }
}

/// Flattening a row followed by more rows puts that row first.
proof fn lemma_flatten_cons(x: Seq<Cell>, rest: Seq<Seq<Cell>>)
    ensures
        (seq![x] + rest).flatten() == x + rest.flatten(),
{
    let t = seq![x] + rest;
    assert(t.first() == x);
    assert(t.drop_first() =~= rest);
}

/// Re-cutting `c` into rows of `n` cells keeps its cells in order: read
/// row after row, the rows hold `c` followed by empty cells only.
pub proof fn lemma_chunks_conserve(c: Seq<Cell>, n: nat)
    requires
        n >= 1,
    ensures
        exists|k: nat| chunks(c, n).flatten() == c + blank_row(k),
    decreases c.len(),
{
    if c.len() == 0 {
        assert(chunks(c, n).flatten() =~= c + blank_row(0));
    } else if c.len() <= n {
        let x = fit_row(c, n);
        lemma_flatten_cons(x, Seq::empty());
        assert(seq![x] + Seq::<Seq<Cell>>::empty() =~= seq![x]);
        assert(Seq::<Seq<Cell>>::empty().flatten() =~= Seq::<Cell>::empty());
        assert(chunks(c, n).flatten() =~= c + blank_row((n - c.len()) as nat));
    } else {
        let head = c.subrange(0, n as int);
        let tail = c.subrange(n as int, c.len() as int);
        lemma_chunks_conserve(tail, n);
        let k = choose|k: nat| chunks(tail, n).flatten() == tail + blank_row(k);
        lemma_flatten_cons(head, chunks(tail, n));
        assert(chunks(c, n).flatten() =~= c + blank_row(k));
    }
}

/// The last cell of a non-empty content is written.
proof fn lemma_last_content_cell(r: Seq<Cell>)
    requires
        content_len(r) > 0,
    ensures
        content_len(r) <= r.len(),
        !r[content_len(r) - 1].is_blank(),
    decreases r.len(),
{
    if r.len() > 0 && r.last().is_blank() {
        let d = r.drop_last();
        lemma_last_content_cell(d);
        assert(r[content_len(r) - 1] == d[content_len(d) - 1]);
    }
}

/// The contents of rows `s`, each up through its last non-empty cell,
/// one after the other.
pub open spec fn contents(s: Seq<Seq<Cell>>) -> Seq<Cell>
    decreases s.len(),
{
    if s.len() == 0 {
        Seq::empty()
    } else {
        contents(s.drop_last()) + content(s.last())
    }
}

/// Whether no cell before the last non-empty one of `r` is empty.
pub open spec fn dense(r: Seq<Cell>) -> bool {
    forall|i: int| 0 <= i < content_len(r) ==> !(#[trigger] r[i]).is_blank()
}

/// The contents of a single row are its content.
proof fn lemma_contents_single(x: Seq<Cell>)
    ensures
        contents(seq![x]) == content(x),
{
    let t = seq![x];
    assert(t.drop_last() =~= Seq::<Seq<Cell>>::empty());
    assert(t.last() == x);
    assert(contents(Seq::<Seq<Cell>>::empty()) == Seq::<Cell>::empty());
    assert(Seq::<Cell>::empty() + content(x) =~= content(x));
}

/// The contents of two runs of rows follow one another.
proof fn lemma_contents_concat(a: Seq<Seq<Cell>>, b: Seq<Seq<Cell>>)
    ensures
        contents(a + b) == contents(a) + contents(b),
    decreases b.len(),
{
    if b.len() == 0 {
        assert(a + b =~= a);
        assert(contents(a) + Seq::<Cell>::empty() =~= contents(a));
    } else {
        assert((a + b).drop_last() =~= a + b.drop_last());
        assert((a + b).last() == b.last());
        lemma_contents_concat(a, b.drop_last());
        assert(contents(a) + contents(b.drop_last()) + content(b.last()) =~= contents(a) + contents(b));
    }
}

/// Empty cells after a row do not change where its content ends.
proof fn lemma_content_len_blank_tail(x: Seq<Cell>, y: Seq<Cell>)
    requires
        forall|i: int| 0 <= i < y.len() ==> (#[trigger] y[i]).is_blank(),
    ensures
        content_len(x + y) == content_len(x),
    decreases y.len(),
{
    if y.len() == 0 {
        assert(x + y =~= x);
    } else {
        assert((x + y).drop_last() =~= x + y.drop_last());
        assert((x + y).last() == y[y.len() - 1]);
        assert forall|i: int| 0 <= i < y.drop_last().len() implies (#[trigger] y.drop_last()[i]).is_blank() by {
            assert(y.drop_last()[i] == y[i]);
        }
        lemma_content_len_blank_tail(x, y.drop_last());
    }
}

/// A row of written cells is all content.
proof fn lemma_content_len_full(x: Seq<Cell>)
    requires
        forall|i: int| 0 <= i < x.len() ==> !(#[trigger] x[i]).is_blank(),
    ensures
        content_len(x) == x.len(),
{
    if x.len() > 0 {
        assert(x.last() == x[x.len() - 1]);
    }
}

/// Cutting written cells into rows keeps them, in order, as the rows'
/// contents.
proof fn lemma_chunks_contents(c: Seq<Cell>, n: nat)
    requires
        n >= 1,
        forall|i: int| 0 <= i < c.len() ==> !(#[trigger] c[i]).is_blank(),
    ensures
        contents(chunks(c, n)) == c,
    decreases c.len(),
{
    if c.len() == 0 {
    } else if c.len() <= n {
        let x = fit_row(c, n);
        lemma_content_len_blank_tail(c, blank_row((n - c.len()) as nat));
        lemma_content_len_full(c);
        assert(x =~= c + blank_row((n - c.len()) as nat));
        assert(content(x) =~= c);
        lemma_contents_single(x);
    } else {
        let head = c.subrange(0, n as int);
        let tail = c.subrange(n as int, c.len() as int);
        assert forall|i: int| 0 <= i < tail.len() implies !(#[trigger] tail[i]).is_blank() by {
            assert(tail[i] == c[n + i]);
        }
        assert forall|i: int| 0 <= i < head.len() implies !(#[trigger] head[i]).is_blank() by {
            assert(head[i] == c[i]);
        }
        lemma_chunks_contents(tail, n);
        lemma_content_len_full(head);
        assert(content(head) =~= head);
        lemma_contents_single(head);
        lemma_contents_concat(seq![head], chunks(tail, n));
        assert(head + tail =~= c);
    }
}

/// The contents of dense rows, one after the other, hold no empty cell.
proof fn lemma_dense_contents_written(s: Seq<Seq<Cell>>)
    requires
        forall|i: int| 0 <= i < s.len() ==> dense(#[trigger] s[i]),
    ensures
        forall|k: int| 0 <= k < contents(s).len() ==> !(#[trigger] contents(s)[k]).is_blank(),
    decreases s.len(),
{
    if s.len() > 0 {
        let d = s.drop_last();
        assert forall|i: int| 0 <= i < d.len() implies dense(#[trigger] d[i]) by {
            assert(d[i] == s[i]);
        }
        lemma_dense_contents_written(d);
        let l = s.last();
        assert(l == s[s.len() - 1]);
        lemma_past_content_is_blank(l);
        let c = contents(s);
        assert forall|k: int| 0 <= k < c.len() implies !(#[trigger] c[k]).is_blank() by {
            if k < contents(d).len() {
                assert(c[k] == contents(d)[k]);
            } else {
                assert(c[k] == content(l)[k - contents(d).len()]);
                assert(content(l)[k - contents(d).len()] == l[k - contents(d).len()]);
            }
        }
    }
}

/// Reflow keeps every written cell in order: read row after row, the
/// re-cut rows hold the contents of the old rows, one after the other,
/// followed by empty cells only.
pub proof fn lemma_reflow_conserves(s: Seq<Seq<Cell>>, n: nat)
    requires
        n >= 1,
    ensures
        exists|k: nat| chunks(contents(s), n).flatten() == contents(s) + blank_row(k),
{
    lemma_chunks_conserve(contents(s), n);
}

/// When no row has an empty cell inside its content, the contents of the
/// re-cut rows, one after the other, are the contents of the old rows, one
/// after the other. (An empty cell inside a row's content that ends a
/// re-cut row leaves no trace in that row's content, so such rows are left
/// out.)
pub proof fn lemma_reflow_conserves_contents(s: Seq<Seq<Cell>>, n: nat)
    requires
        n >= 1,
        forall|i: int| 0 <= i < s.len() ==> dense(#[trigger] s[i]),
    ensures
        contents(chunks(contents(s), n)) == contents(s),
{
    lemma_dense_contents_written(s);
    lemma_chunks_contents(contents(s), n);
}

/// Empty rows have no contents.
proof fn lemma_blank_rows_contents(k: nat, n: nat)
    ensures
        contents(blank_rows(k, n)) == Seq::<Cell>::empty(),
    decreases k,
{
    if k > 0 {
        assert(blank_rows(k, n).drop_last() =~= blank_rows((k - 1) as nat, n));
        lemma_blank_rows_contents((k - 1) as nat, n);
        let b = blank_row(n);
        assert(blank_rows(k, n).last() == b);
        assert(Seq::<Cell>::empty() + b =~= b);
        lemma_content_len_blank_tail(Seq::<Cell>::empty(), b);
        assert(content(b) =~= Seq::<Cell>::empty());
    }
}

/// Narrowing a grid that must be re-cut, keeping its height, conserves
/// what is written: when no row has an empty cell inside its content and
/// the re-cut rows fit under the cap, the stored rows' contents, one after
/// the other, are the same before and after.
pub proof fn lemma_resize_conserves_contents(g0: &TerminalGrid, g1: &TerminalGrid, cols: u16)
    requires
        g0.wf(),
        TerminalGrid::resize_spec(g0, g1, cols, g0.rows),
        1 <= cols < g0.cols,
        any_overflows(g0.lines_view(), cols as int),
        forall|i: int| 0 <= i < g0.lines_view().len() ==> dense(#[trigger] g0.lines_view()[i]),
        chunks(contents(g0.lines_view()), cols as nat).len() <= g0.spec_max_scrollback() + g0.rows,
    ensures
        contents(g1.lines_view()) == contents(g0.lines_view()),
{
    let s = g0.lines_view();
    let n = cols as nat;
    let nr = g0.rows as nat;
    let re = chunks(contents(s), n);
    lemma_reflow_conserves_contents(s, n);
    let w = width_changed(s, g0.cols as nat, n, nr);
    if re.len() < nr {
        lemma_contents_concat(re, blank_rows((nr - re.len()) as nat, n));
        lemma_blank_rows_contents((nr - re.len()) as nat, n);
        assert(contents(re) + Seq::<Cell>::empty() =~= contents(re));
    }
    assert(contents(w) == contents(s));
    assert(w.len() >= nr);
    if w.len() > nr {
        assert(w.subrange(0, w.len() as int) =~= w);
    }
    assert(height_changed(w, nr, nr, n) == w);
    assert(pad_rows(w, nr, n) == w);
    assert(w.len() <= g0.spec_max_scrollback() + nr);
    assert(keep_last(w, (g0.spec_max_scrollback() + nr) as int) == w);
}

/// A terminal grid: the viewport's rows at the bottom of a history of rows,
/// every row `cols` cells wide.
#[derive(Debug)]
pub struct TerminalGrid {
    /// Number of columns.
    pub cols: u16,
    /// Number of rows in the viewport.
    pub rows: u16,
    /// History followed by the viewport rows.
    pub lines: VecDeque<Vec<Cell>>,
    /// How many rows the viewport is scrolled up from the bottom.
    pub viewport_offset: usize,
    /// Cap on the rows kept above the viewport.
    pub max_scrollback: usize,
    /// Cursor column and row.
    pub cursor_pos: (u16, u16),
    /// Foreground used when printing.
    pub current_fg: Color,
    /// Background used when printing.
    pub current_bg: Color,
    /// Attributes used when printing.
    pub current_attrs: CellAttrs,
    /// The current selection.
    pub selection: Option<Selection>,
}

impl TerminalGrid {
    /// All stored rows, oldest first.
    pub open spec fn lines_view(&self) -> Seq<Seq<Cell>> {
        row_views(self.lines@)
    }

    /// The cap on rows kept above the viewport.
    pub open spec fn spec_max_scrollback(&self) -> nat {
        self.max_scrollback as nat
    }

    /// The cursor's column and row.
    pub open spec fn cursor(&self) -> (u16, u16) {
        self.cursor_pos
    }

    /// The formatting used when printing: foreground, background, attributes.
    pub open spec fn formatting(&self) -> (Color, Color, CellAttrs) {
        (self.current_fg, self.current_bg, self.current_attrs)
    }

    /// The current selection.
    pub open spec fn sel(&self) -> Option<Selection> {
        self.selection
    }

    /// Number of stored rows.
    pub open spec fn total(&self) -> int {
        self.lines_view().len() as int
    }

    /// The largest viewport offset: the number of rows above the viewport.
    pub open spec fn max_offset(&self) -> int {
        sat_sub(self.total(), self.rows as int)
    }

    /// Index in storage of viewport row `r`.
    pub open spec fn storage_index(&self, r: int) -> int {
        self.total() - self.rows - self.viewport_offset + r
    }

    /// The stored row shown at viewport row `r`.
    pub open spec fn view_row(&self, r: int) -> Seq<Cell> {
        self.lines_view()[self.storage_index(r)]
    }

    /// The cell shown at column `c` of viewport row `r`.
    pub open spec fn view_cell(&self, c: int, r: int) -> Cell {
        self.view_row(r)[c]
    }

    /// Whether `p` lies inside the viewport.
    pub open spec fn in_bounds(&self, p: Position) -> bool {
        p.col < self.cols && p.row < self.rows
    }

    /// `p` with each coordinate clamped into the viewport.
    pub open spec fn clamp_pos(&self, p: Position) -> Position {
        Position {
            col: clamp_to(p.col as int, self.cols - 1) as u16,
            row: clamp_to(p.row as int, self.rows - 1) as u16,
        }
    }

    /// The grid's invariant.
    pub open spec fn wf(&self) -> bool {
        &&& self.cols >= 1
        &&& self.rows >= 1
        &&& forall|i: int| 0 <= i < self.total() ==> (#[trigger] self.lines_view()[i]).len() == self.cols
        &&& self.rows <= self.total() <= self.spec_max_scrollback() + self.rows
        &&& self.viewport_offset <= self.max_offset()
        &&& self.cursor().0 < self.cols
        &&& self.cursor().1 < self.rows
        &&& (self.sel() matches Some(s) ==> s.wf() && self.in_bounds(s.start) && self.in_bounds(s.end))
    }

    /// The cap on stored rows: the history cap plus the viewport.
    pub open spec fn cap(&self) -> int {
        self.spec_max_scrollback() + self.rows
    }

    /// `self` and `other` agree on everything but the stored rows, the
    /// viewport offset and the cursor.
    pub open spec fn same_settings(&self, other: &TerminalGrid) -> bool {
        &&& self.cols == other.cols
        &&& self.rows == other.rows
        &&& self.max_scrollback == other.max_scrollback
        &&& self.formatting() == other.formatting()
        &&& self.sel() == other.sel()
    }

    /// `new` is `old` after a line feed: back to the first column and one
    /// row down; from the last row a blank row is pushed instead, the oldest
    /// rows beyond the cap are dropped and the view returns to the bottom.
    pub open spec fn newline_spec(old: &TerminalGrid, new: &TerminalGrid) -> bool {
        &&& new.same_settings(old)
        &&& new.cursor().0 == 0
        &&& if old.cursor().1 + 1 < old.rows {
            &&& new.cursor().1 == old.cursor().1 + 1
            &&& new.lines_view() == old.lines_view()
            &&& new.viewport_offset == old.viewport_offset
        } else {
            &&& new.cursor().1 == old.rows - 1
            &&& new.lines_view() == keep_last(old.lines_view().push(blank_row(old.cols as nat)), old.cap())
            &&& new.viewport_offset == 0
        }
    }

    /// `new` is `old` with the cursor's column set to `col`.
    pub open spec fn column_moved(old: &TerminalGrid, new: &TerminalGrid, col: int) -> bool {
        &&& new.same_settings(old)
        &&& new.lines_view() == old.lines_view()
        &&& new.viewport_offset == old.viewport_offset
        &&& new.cursor() == (col as u16, old.cursor().1)
    }

    /// `new` is `old` with the cursor moved to `(col, row)`.
    pub open spec fn cursor_moved(old: &TerminalGrid, new: &TerminalGrid, col: int, row: int) -> bool {
        &&& new.same_settings(old)
        &&& new.lines_view() == old.lines_view()
        &&& new.viewport_offset == old.viewport_offset
        &&& new.cursor() == (col as u16, row as u16)
    }

    /// `new` is `old` with the viewport offset set to `off`.
    pub open spec fn scrolled_to(old: &TerminalGrid, new: &TerminalGrid, off: int) -> bool {
        &&& new.same_settings(old)
        &&& new.lines_view() == old.lines_view()
        &&& new.cursor() == old.cursor()
        &&& new.viewport_offset == off
    }

    /// `new` is `old` after printing `c`: the cell at the cursor takes `c`
    /// in the current formatting, and the cursor advances, wrapping to the
    /// next line after the last column.
    pub open spec fn print_spec(old: &TerminalGrid, new: &TerminalGrid, c: char) -> bool {
{
        let (fg, bg, attrs) = old.formatting();
        let cell = Cell { glyph_id: c as u32, fg_color: fg, bg_color: bg, attrs };
        let (col, row) = old.cursor();
        let written = old.lines_view().update(
            old.storage_index(row as int),
            old.view_row(row as int).update(col as int, cell),
        );
        if col + 1 < old.cols {
            &&& new.same_settings(old)
            &&& new.lines_view() == written
            &&& new.viewport_offset == old.viewport_offset
            &&& new.cursor() == ((col + 1) as u16, row)
        } else {
            &&& new.same_settings(old)
            &&& new.cursor().0 == 0
            &&& if row + 1 < old.rows {
                &&& new.cursor().1 == row + 1
                &&& new.lines_view() == written
                &&& new.viewport_offset == old.viewport_offset
            } else {
                &&& new.cursor().1 == old.rows - 1
                &&& new.lines_view() == keep_last(written.push(blank_row(old.cols as nat)), old.cap())
                &&& new.viewport_offset == 0
            }
        }
    }
    }

    /// `new` is `old` after control byte `byte`: line feed, carriage return,
    /// tab or backspace; any other byte changes nothing.
    pub open spec fn control_spec(old: &TerminalGrid, new: &TerminalGrid, byte: u8) -> bool {
        &&& byte == 10 ==> TerminalGrid::newline_spec(old, new)
        &&& byte == 13 ==> TerminalGrid::column_moved(old, new, 0)
        &&& byte == 9 ==> TerminalGrid::column_moved(old, new, min_int((old.cursor().0 / 8 + 1) * 8, old.cols - 1))
        &&& byte == 8 ==> TerminalGrid::column_moved(old, new, sat_sub(old.cursor().0 as int, 1))
        &&& byte != 10 && byte != 13 && byte != 9 && byte != 8 ==> *new == *old
    }

    /// `new` is `old` after cursor-control action `action`; SGR and other
    /// commands change nothing here.
    pub open spec fn csi_spec(old: &TerminalGrid, new: &TerminalGrid, action: CsiAction) -> bool {
        match action {
            CsiAction::CursorUp(n) => TerminalGrid::cursor_moved(
                old,
                new,
                old.cursor().0 as int,
                sat_sub(old.cursor().1 as int, n as int),
            ),
            CsiAction::CursorDown(n) => TerminalGrid::cursor_moved(
                old,
                new,
                old.cursor().0 as int,
                min_int(old.cursor().1 + n, old.rows - 1),
            ),
            CsiAction::CursorForward(n) => TerminalGrid::column_moved(
                old,
                new,
                min_int(old.cursor().0 + n, old.cols - 1),
            ),
            CsiAction::CursorBackward(n) => TerminalGrid::column_moved(
                old,
                new,
                sat_sub(old.cursor().0 as int, n as int),
            ),
            CsiAction::CursorNextLine(n) => TerminalGrid::cursor_moved(
                old,
                new,
                0,
                min_int(old.cursor().1 + n, old.rows - 1),
            ),
            CsiAction::CursorPreviousLine(n) => TerminalGrid::cursor_moved(
                old,
                new,
                0,
                sat_sub(old.cursor().1 as int, n as int),
            ),
            CsiAction::CursorHorizontalAbsolute(c) => TerminalGrid::column_moved(
                old,
                new,
                clamp_to(c as int, old.cols - 1),
            ),
            CsiAction::CursorPosition(r, c) => TerminalGrid::cursor_moved(
                old,
                new,
                clamp_to(c as int, old.cols - 1),
                clamp_to(r as int, old.rows - 1),
            ),
            _ => *new == *old,
        }
    }

    /// A grid with `cols` columns and `rows` rows and the default cap on
    /// history. A zero dimension is taken as 1.
    pub fn new(cols: u16, rows: u16) -> (g: TerminalGrid)
        ensures
            g.wf(),
            g.cols == at_least_one(cols),
            g.rows == at_least_one(rows),
            g.spec_max_scrollback() == DEFAULT_MAX_SCROLLBACK,
            g.lines_view() == blank_rows(g.rows as nat, g.cols as nat),
            g.viewport_offset == 0,
            g.cursor() == (0u16, 0u16),
            g.formatting() == (Color::spec_white(), Color::spec_black(), CellAttrs { bits: 0 }),
            g.sel() is None,
    {
        TerminalGrid::with_scrollback(cols, rows, DEFAULT_MAX_SCROLLBACK)
    }

    /// A grid with `cols` columns, `rows` rows, and at most `max_scrollback`
    /// rows of history above the viewport. A zero dimension is taken as 1.
    pub fn with_scrollback(cols: u16, rows: u16, max_scrollback: usize) -> (g: TerminalGrid)
        ensures
            g.wf(),
            g.cols == at_least_one(cols),
            g.rows == at_least_one(rows),
            g.spec_max_scrollback() == max_scrollback,
            g.lines_view() == blank_rows(g.rows as nat, g.cols as nat),
            g.viewport_offset == 0,
            g.cursor() == (0u16, 0u16),
            g.formatting() == (Color::spec_white(), Color::spec_black(), CellAttrs { bits: 0 }),
            g.sel() is None,
    {
        let cols = if cols == 0 { 1 } else { cols };
        let rows = if rows == 0 { 1 } else { rows };
        let lines = blank_lines(cols, rows);
        let g = TerminalGrid {
            cols,
            rows,
            lines,
            viewport_offset: 0,
            max_scrollback,
            cursor_pos: (0, 0),
            current_fg: Color::default_fg(),
            current_bg: Color::default_bg(),
            current_attrs: CellAttrs::empty(),
            selection: None,
        };
        assert(g.lines_view() =~= blank_rows(rows as nat, cols as nat));
        g
    }
}

impl TerminalGrid {
    /// Index in storage of viewport row `row`, which must be in the viewport.
    fn storage_row(&self, row: u16) -> (i: usize)
        requires
            self.wf(),
            row < self.rows,
        ensures
            i == self.storage_index(row as int),
            0 <= i < self.total(),
    {
        self.lines.len() - self.rows as usize - self.viewport_offset + row as usize
    }

    /// The cell at `(col, row)` of the viewport, or `None` outside it.
    pub fn get_cell(&self, col: u16, row: u16) -> (r: Option<&Cell>)
        requires
            self.wf(),
        ensures
            r is Some <==> (col < self.cols && row < self.rows),
            r is Some ==> *r->0 == self.view_cell(col as int, row as int),
    {
        if col >= self.cols || row >= self.rows {
            return None;
        }
        let i = self.storage_row(row);
        let line = &self.lines[i];
        assert(line@ == self.lines_view()[i as int]);
        Some(&line[col as usize])
    }

    /// Writes `cell` at `(col, row)` of the viewport; false, with nothing
    /// changed, outside it.
    pub fn set_cell(&mut self, col: u16, row: u16, cell: Cell) -> (r: bool)
        requires
            old(self).wf(),
        ensures
            final(self).wf(),
            r == (col < old(self).cols && row < old(self).rows),
            final(self).same_settings(old(self)),
            final(self).cursor() == old(self).cursor(),
            final(self).viewport_offset == old(self).viewport_offset,
            r ==> final(self).lines_view() == old(self).lines_view().update(
                old(self).storage_index(row as int),
                old(self).view_row(row as int).update(col as int, cell),
            ),
            !r ==> final(self).lines_view() == old(self).lines_view(),
    {
        if col >= self.cols || row >= self.rows {
            return false;
        }
        let i = self.storage_row(row);
        self.write_cell(i, col as usize, cell);
        true
    }

    /// Writes `cell` at column `c` of stored row `i`.
    fn write_cell(&mut self, i: usize, c: usize, cell: Cell)
        requires
            old(self).wf(),
            i < old(self).total(),
            c < old(self).cols,
        ensures
            final(self).wf(),
            final(self).same_settings(old(self)),
            final(self).cursor() == old(self).cursor(),
            final(self).viewport_offset == old(self).viewport_offset,
            final(self).lines_view() == old(self).lines_view().update(
                i as int,
                old(self).lines_view()[i as int].update(c as int, cell),
            ),
    {
        let ghost before = self.lines@;
        let removed = self.lines.remove(i);
        match removed {
            Some(mut line) => {
                assert(line@ == row_views(before)[i as int]);
                line.set(c, cell);
                self.lines.insert(i, line);
                proof {
                    assert(self.lines@ =~= before.update(i as int, line));
                    lemma_row_views_update(before, i as int, line);
                }
            },
            None => {},
        }
    }

    /// Scrolls the view up by `lines` rows, no further than the oldest row.
    pub fn scroll_up(&mut self, lines: usize)
        requires
            old(self).wf(),
        ensures
            final(self).wf(),
            TerminalGrid::scrolled_to(
                old(self),
                final(self),
                min_int(old(self).viewport_offset + lines, old(self).max_offset()),
            ),
    {
        let max_offset = self.lines.len() - self.rows as usize;
        let target = self.viewport_offset.saturating_add(lines);
        self.viewport_offset = if target < max_offset { target } else { max_offset };
    }

    /// Scrolls the view down by `lines` rows, no further than the bottom.
    pub fn scroll_down(&mut self, lines: usize)
        requires
            old(self).wf(),
        ensures
            final(self).wf(),
            TerminalGrid::scrolled_to(old(self), final(self), sat_sub(old(self).viewport_offset as int, lines as int)),
    {
        self.viewport_offset = self.viewport_offset.saturating_sub(lines);
    }

    /// Scrolls up by one screen.
    pub fn page_up(&mut self)
        requires
            old(self).wf(),
        ensures
            final(self).wf(),
            TerminalGrid::scrolled_to(
                old(self),
                final(self),
                min_int(old(self).viewport_offset + old(self).rows, old(self).max_offset()),
            ),
    {
        let n = self.rows as usize;
        self.scroll_up(n);
    }

    /// Scrolls down by one screen.
    pub fn page_down(&mut self)
        requires
            old(self).wf(),
        ensures
            final(self).wf(),
            TerminalGrid::scrolled_to(old(self), final(self), sat_sub(old(self).viewport_offset as int, old(self).rows as int)),
    {
        let n = self.rows as usize;
        self.scroll_down(n);
    }

    /// Scrolls to the oldest stored row.
    pub fn scroll_to_top(&mut self)
        requires
            old(self).wf(),
        ensures
            final(self).wf(),
            TerminalGrid::scrolled_to(old(self), final(self), old(self).max_offset()),
    {
        self.viewport_offset = self.lines.len() - self.rows as usize;
    }

    /// Returns the view to the bottom.
    pub fn reset_viewport(&mut self)
        requires
            old(self).wf(),
        ensures
            final(self).wf(),
            TerminalGrid::scrolled_to(old(self), final(self), 0),
    {
        self.viewport_offset = 0;
    }

    /// Drops the oldest rows until at most the cap remain.
    fn limit_scrollback(&mut self)
        requires
            old(self).rows <= old(self).total(),
        ensures
            final(self).same_settings(old(self)),
            final(self).cursor() == old(self).cursor(),
            final(self).viewport_offset == old(self).viewport_offset,
            final(self).lines_view() == keep_last(old(self).lines_view(), old(self).cap()),
    {
        let cap = self.max_scrollback.saturating_add(self.rows as usize);
        let ghost start = self.lines@;
        let len = self.lines.len();
        assert(start.len() == len);
        while self.lines.len() > cap
            invariant
                self.same_settings(old(self)),
                self.cursor() == old(self).cursor(),
                self.viewport_offset == old(self).viewport_offset,
                cap == min_int(old(self).cap(), usize::MAX as int),
                start == old(self).lines@,
                self.lines@.len() >= min_int(start.len() as int, cap as int),
                self.lines@.len() <= start.len(),
                self.lines@ == start.subrange(start.len() - self.lines@.len(), start.len() as int),
            decreases self.lines@.len(),
        {
            self.lines.pop_front();
            assert(self.lines@ =~= start.subrange(start.len() - self.lines@.len(), start.len() as int));
        }
        proof {
            let n = self.lines@.len() as int;
            lemma_row_views_subrange(start, start.len() - n, start.len() as int);
            assert(start.subrange(0, start.len() as int) =~= start);
        }
    }

    /// Appends `line`, cut or padded to the grid's width, below the stored
    /// rows; drops the oldest rows beyond the cap and returns the view to the
    /// bottom.
    pub fn add_line(&mut self, line: Vec<Cell>)
        requires
            old(self).wf(),
        ensures
            final(self).wf(),
            final(self).same_settings(old(self)),
            final(self).cursor() == old(self).cursor(),
            final(self).viewport_offset == 0,
            final(self).lines_view() == keep_last(
                old(self).lines_view().push(fit_row(line@, old(self).cols as nat)),
                old(self).cap(),
            ),
    {
        let mut line = line;
        let ghost given = line@;
        line.resize(self.cols as usize, Cell::empty());
        assert(line@ =~= fit_row(given, self.cols as nat));
        self.push_row(line);
    }

    /// Pushes a row of the grid's width and applies the cap.
    fn push_row(&mut self, line: Vec<Cell>)
        requires
            old(self).wf(),
            line@.len() == old(self).cols,
        ensures
            final(self).wf(),
            final(self).same_settings(old(self)),
            final(self).cursor() == old(self).cursor(),
            final(self).viewport_offset == 0,
            final(self).lines_view() == keep_last(old(self).lines_view().push(line@), old(self).cap()),
    {
        proof {
            lemma_row_views_push(self.lines@, line);
        }
        self.lines.push_back(line);
        self.limit_scrollback();
        self.viewport_offset = 0;
    }
}

impl TerminalGrid {
    /// The cursor's column and row.
    pub fn cursor_position(&self) -> (r: (u16, u16))
        ensures
            r == self.cursor(),
    {
        self.cursor_pos
    }

    /// Moves the cursor to `(col, row)`, clamped into the viewport.
    pub fn set_cursor_position(&mut self, col: u16, row: u16)
        requires
            old(self).wf(),
        ensures
            final(self).wf(),
            TerminalGrid::cursor_moved(
                old(self),
                final(self),
                clamp_to(col as int, old(self).cols - 1),
                clamp_to(row as int, old(self).rows - 1),
            ),
    {
        let c = if col < self.cols - 1 { col } else { self.cols - 1 };
        let r = if row < self.rows - 1 { row } else { self.rows - 1 };
        self.cursor_pos = (c, r);
    }

    /// Moves the cursor up by `lines`, stopping at the first row.
    pub fn move_cursor_up(&mut self, lines: u16)
        requires
            old(self).wf(),
        ensures
            final(self).wf(),
            TerminalGrid::cursor_moved(
                old(self),
                final(self),
                old(self).cursor().0 as int,
                sat_sub(old(self).cursor().1 as int, lines as int),
            ),
    {
        self.cursor_pos.1 = self.cursor_pos.1.saturating_sub(lines);
    }

    /// Moves the cursor down by `lines`, stopping at the last row.
    pub fn move_cursor_down(&mut self, lines: u16)
        requires
            old(self).wf(),
        ensures
            final(self).wf(),
            TerminalGrid::cursor_moved(
                old(self),
                final(self),
                old(self).cursor().0 as int,
                min_int(old(self).cursor().1 + lines, old(self).rows - 1),
            ),
    {
        let room = self.rows - 1 - self.cursor_pos.1;
        self.cursor_pos.1 = if lines < room { self.cursor_pos.1 + lines } else { self.rows - 1 };
    }

    /// Moves the cursor left by `cols`, stopping at the first column.
    pub fn move_cursor_left(&mut self, cols: u16)
        requires
            old(self).wf(),
        ensures
            final(self).wf(),
            TerminalGrid::column_moved(old(self), final(self), sat_sub(old(self).cursor().0 as int, cols as int)),
    {
        self.cursor_pos.0 = self.cursor_pos.0.saturating_sub(cols);
    }

    /// Moves the cursor right by `cols`, stopping at the last column.
    pub fn move_cursor_right(&mut self, cols: u16)
        requires
            old(self).wf(),
        ensures
            final(self).wf(),
            TerminalGrid::column_moved(
                old(self),
                final(self),
                min_int(old(self).cursor().0 + cols, old(self).cols - 1),
            ),
    {
        let room = self.cols - 1 - self.cursor_pos.0;
        self.cursor_pos.0 = if cols < room { self.cursor_pos.0 + cols } else { self.cols - 1 };
    }

    /// Moves the cursor to column `col`, clamped into the viewport.
    pub fn move_cursor_to_column(&mut self, col: u16)
        requires
            old(self).wf(),
        ensures
            final(self).wf(),
            TerminalGrid::column_moved(old(self), final(self), clamp_to(col as int, old(self).cols - 1)),
    {
        self.cursor_pos.0 = if col < self.cols - 1 { col } else { self.cols - 1 };
    }

    /// Moves the cursor to row `row`, clamped into the viewport.
    pub fn move_cursor_to_row(&mut self, row: u16)
        requires
            old(self).wf(),
        ensures
            final(self).wf(),
            TerminalGrid::cursor_moved(
                old(self),
                final(self),
                old(self).cursor().0 as int,
                clamp_to(row as int, old(self).rows - 1),
            ),
    {
        self.cursor_pos.1 = if row < self.rows - 1 { row } else { self.rows - 1 };
    }

    /// Moves the cursor to the first column.
    pub fn move_cursor_to_line_start(&mut self)
        requires
            old(self).wf(),
        ensures
            final(self).wf(),
            TerminalGrid::column_moved(old(self), final(self), 0),
    {
        self.cursor_pos.0 = 0;
    }

    /// Moves the cursor to the last column.
    pub fn move_cursor_to_line_end(&mut self)
        requires
            old(self).wf(),
        ensures
            final(self).wf(),
            TerminalGrid::column_moved(old(self), final(self), old(self).cols - 1),
    {
        self.cursor_pos.0 = self.cols - 1;
    }

    /// Empties the grid: only the viewport's rows remain, all blank; the
    /// view, cursor and selection are reset.
    pub fn clear(&mut self)
        requires
            old(self).wf(),
        ensures
            final(self).wf(),
            final(self).cols == old(self).cols,
            final(self).rows == old(self).rows,
            final(self).max_scrollback == old(self).max_scrollback,
            final(self).formatting() == old(self).formatting(),
            final(self).lines_view() == blank_rows(old(self).rows as nat, old(self).cols as nat),
            final(self).viewport_offset == 0,
            final(self).cursor() == (0u16, 0u16),
            final(self).sel() is None,
    {
        self.lines = blank_lines(self.cols, self.rows);
        self.viewport_offset = 0;
        self.cursor_pos = (0, 0);
        self.selection = None;
    }

    /// Rows stored above the viewport.
    pub fn scrollback_len(&self) -> (r: usize)
        requires
            self.wf(),
        ensures
            r == self.max_offset(),
    {
        self.lines.len() - self.rows as usize
    }

    /// The cap on rows kept above the viewport.
    pub fn max_scrollback(&self) -> (r: usize)
        ensures
            r == self.max_scrollback,
    {
        self.max_scrollback
    }

    /// Number of stored rows, viewport included.
    pub fn total_lines(&self) -> (r: usize)
        ensures
            r == self.total(),
    {
        self.lines.len()
    }

    /// Whether the view is at the bottom.
    pub fn is_at_bottom(&self) -> (r: bool)
        ensures
            r == (self.viewport_offset == 0),
    {
        self.viewport_offset == 0
    }

    /// How many rows the view is scrolled up.
    pub fn viewport_offset(&self) -> (r: usize)
        ensures
            r == self.viewport_offset,
    {
        self.viewport_offset
    }

    /// Sets the formatting used by later prints.
    pub fn apply_sgr(&mut self, fg_color: Color, bg_color: Color, attrs: CellAttrs)
        requires
            old(self).wf(),
        ensures
            final(self).wf(),
            final(self).formatting() == (fg_color, bg_color, attrs),
            final(self).cols == old(self).cols,
            final(self).rows == old(self).rows,
            final(self).max_scrollback == old(self).max_scrollback,
            final(self).sel() == old(self).sel(),
            final(self).lines_view() == old(self).lines_view(),
            final(self).viewport_offset == old(self).viewport_offset,
            final(self).cursor() == old(self).cursor(),
    {
        self.current_fg = fg_color;
        self.current_bg = bg_color;
        self.current_attrs = attrs;
    }

    /// The formatting used by later prints: foreground, background, attributes.
    pub fn current_formatting(&self) -> (r: (Color, Color, CellAttrs))
        ensures
            r == self.formatting(),
    {
        (self.current_fg, self.current_bg, self.current_attrs)
    }

    /// Returns the formatting to its defaults.
    pub fn reset_formatting(&mut self)
        requires
            old(self).wf(),
        ensures
            final(self).wf(),
            final(self).formatting() == (Color::spec_white(), Color::spec_black(), CellAttrs { bits: 0 }),
            final(self).cols == old(self).cols,
            final(self).rows == old(self).rows,
            final(self).max_scrollback == old(self).max_scrollback,
            final(self).sel() == old(self).sel(),
            final(self).lines_view() == old(self).lines_view(),
            final(self).viewport_offset == old(self).viewport_offset,
            final(self).cursor() == old(self).cursor(),
    {
        self.current_fg = Color::default_fg();
        self.current_bg = Color::default_bg();
        self.current_attrs = CellAttrs::empty();
    }

    /// Line feed: first column of the next row; from the last row a blank
    /// row is pushed and the view returns to the bottom.
    pub fn newline(&mut self)
        requires
            old(self).wf(),
        ensures
            final(self).wf(),
            TerminalGrid::newline_spec(old(self), final(self)),
    {
        self.cursor_pos.0 = 0;
        if self.cursor_pos.1 + 1 < self.rows {
            self.cursor_pos.1 = self.cursor_pos.1 + 1;
        } else {
            let row = blank_vec(self.cols);
            self.push_row(row);
            self.cursor_pos.1 = self.rows - 1;
        }
    }

    /// Carriage return: the cursor goes to the first column.
    pub fn carriage_return(&mut self)
        requires
            old(self).wf(),
        ensures
            final(self).wf(),
            TerminalGrid::column_moved(old(self), final(self), 0),
    {
        self.cursor_pos.0 = 0;
    }

    /// Tab: the cursor goes to the next multiple of 8, or the last column.
    pub fn tab(&mut self)
        requires
            old(self).wf(),
        ensures
            final(self).wf(),
            TerminalGrid::column_moved(
                old(self),
                final(self),
                min_int((old(self).cursor().0 / 8 + 1) * 8, old(self).cols - 1),
            ),
    {
        let next: u32 = (self.cursor_pos.0 as u32 / 8 + 1) * 8;
        self.cursor_pos.0 = if next < (self.cols - 1) as u32 { next as u16 } else { self.cols - 1 };
    }

    /// Backspace: the cursor goes one column left unless at the first.
    pub fn backspace(&mut self)
        requires
            old(self).wf(),
        ensures
            final(self).wf(),
            TerminalGrid::column_moved(old(self), final(self), sat_sub(old(self).cursor().0 as int, 1)),
    {
        if self.cursor_pos.0 > 0 {
            self.cursor_pos.0 = self.cursor_pos.0 - 1;
        }
    }

    /// Writes `c` at the cursor in the current formatting and advances the
    /// cursor, wrapping to the next line after the last column.
    pub fn print_char(&mut self, c: char)
        requires
            old(self).wf(),
        ensures
            final(self).wf(),
            TerminalGrid::print_spec(old(self), final(self), c),
    {
        let cell = Cell {
            glyph_id: c as u32,
            fg_color: self.current_fg,
            bg_color: self.current_bg,
            attrs: self.current_attrs,
        };
        let (col, row) = self.cursor_pos;
        self.set_cell(col, row, cell);
        if col + 1 < self.cols {
            self.cursor_pos.0 = col + 1;
        } else {
            self.newline();
        }
    }

    /// Runs a C0 control: line feed, carriage return, tab or backspace;
    /// any other byte changes nothing.
    pub fn execute_control(&mut self, byte: u8)
        requires
            old(self).wf(),
        ensures
            final(self).wf(),
            TerminalGrid::control_spec(old(self), final(self), byte),
    {
        if byte == 10 {
            self.newline();
        } else if byte == 13 {
            self.carriage_return();
        } else if byte == 9 {
            self.tab();
        } else if byte == 8 {
            self.backspace();
        }
    }
}

/// Whether a cell at column `n` or beyond of `row` is not empty.
fn row_has_overflow(row: &Vec<Cell>, n: usize) -> (r: bool)
    ensures
        r == row_overflows(row@, n as int),
{
    let mut j: usize = n;
    while j < row.len()
        invariant
            n <= j,
            forall|k: int| n <= k < j && k < row@.len() ==> (#[trigger] row@[k]).is_blank(),
        decreases row.len() - j,
    {
        if !row[j].is_empty() {
            return true;
        }
        j = j + 1;
    }
    proof {
        if row_overflows(row@, n as int) {
            let k = choose|k: int| n <= k < row@.len() && !(#[trigger] row@[k]).is_blank();
            assert(row@[k].is_blank());
        }
    }
    false
}

/// Whether some stored row has a non-empty cell at column `n` or beyond.
fn lines_overflow(lines: &VecDeque<Vec<Cell>>, n: usize) -> (r: bool)
    ensures
        r == any_overflows(row_views(lines@), n as int),
{
    let mut i: usize = 0;
    while i < lines.len()
        invariant
            forall|k: int| 0 <= k < i && k < lines@.len() ==> !row_overflows(#[trigger] row_views(lines@)[k], n as int),
        decreases lines.len() - i,
    {
        if row_has_overflow(&lines[i], n) {
            assert(row_views(lines@)[i as int] == lines@[i as int]@);
            return true;
        }
        assert(row_views(lines@)[i as int] == lines@[i as int]@);
        i = i + 1;
    }
    false
}

/// The length of the prefix of `row` ending with its last non-empty cell.
fn row_content_len(row: &Vec<Cell>) -> (r: usize)
    ensures
        r == content_len(row@),
        r <= row@.len(),
{
    let mut k: usize = row.len();
    proof {
        assert(row@.subrange(0, k as int) =~= row@);
    }
    while k > 0 && row[k - 1].is_empty()
        invariant
            k <= row@.len(),
            content_len(row@.subrange(0, k as int)) == content_len(row@),
        decreases k,
    {
        proof {
            let t = row@.subrange(0, k as int);
            assert(t.drop_last() =~= row@.subrange(0, k - 1));
        }
        k = k - 1;
    }
    proof {
        let t = row@.subrange(0, k as int);
        if k > 0 {
            assert(t.last() == row@[k - 1]);
        }
    }
    k
}

/// Appends to `out` the first `len` cells of `row` cut into rows of `n`
/// cells, the last one padded with empty cells.
fn push_chunks(out: &mut VecDeque<Vec<Cell>>, row: &Vec<Cell>, len: usize, n: u16)
    requires
        len <= row@.len(),
        n >= 1,
    ensures
        row_views(final(out)@) == row_views(old(out)@) + chunks(row@.subrange(0, len as int), n as nat),
{
    let ghost c = row@.subrange(0, len as int);
    let mut p: usize = 0;
    proof {
        assert(c.subrange(0, c.len() as int) =~= c);
        assert(row_views(out@) + chunks(c, n as nat) =~= row_views(old(out)@) + chunks(c, n as nat));
    }
    while p < len
        invariant
            p <= len <= row@.len(),
            n >= 1,
            c == row@.subrange(0, len as int),
            row_views(out@) + chunks(c.subrange(p as int, len as int), n as nat)
                == row_views(old(out)@) + chunks(c, n as nat),
        decreases len - p,
    {
        let ghost rest = c.subrange(p as int, len as int);
        let take: usize = if len - p < n as usize { len - p } else { n as usize };
        let mut chunk: Vec<Cell> = Vec::new();
        let mut q: usize = 0;
        while q < take
            invariant
                q <= take,
                p + take <= len <= row@.len(),
                chunk@ == row@.subrange(p as int, p + q),
            decreases take - q,
        {
            chunk.push(row[p + q]);
            q = q + 1;
            assert(chunk@ =~= row@.subrange(p as int, p + q));
        }
        let ghost taken = chunk@;
        chunk.resize(n as usize, Cell::empty());
        proof {
            assert(taken =~= rest.subrange(0, take as int));
            if rest.len() <= n {
                assert(taken =~= rest);
                assert(chunk@ =~= fit_row(rest, n as nat));
                assert(chunks(rest, n as nat) == seq![fit_row(rest, n as nat)]);
                assert(c.subrange(len as int, len as int) =~= Seq::<Cell>::empty());
            } else {
                assert(chunk@ =~= rest.subrange(0, n as int));
                assert(rest.subrange(n as int, rest.len() as int) =~= c.subrange(p + n, len as int));
            }
            lemma_row_views_push(out@, chunk);
        }
        let ghost before = row_views(out@);
        out.push_back(chunk);
        p = p + take;
        proof {
            if rest.len() <= n {
                assert(chunks(Seq::<Cell>::empty(), n as nat) =~= Seq::<Seq<Cell>>::empty());
                assert(row_views(out@) + chunks(c.subrange(p as int, len as int), n as nat)
                    =~= before + chunks(rest, n as nat));
            } else {
                assert(row_views(out@) + chunks(c.subrange(p as int, len as int), n as nat)
                    =~= before + chunks(rest, n as nat));
            }
        }
    }
    proof {
        assert(c.subrange(len as int, len as int) =~= Seq::<Cell>::empty());
        assert(row_views(out@) + chunks(Seq::<Cell>::empty(), n as nat) =~= row_views(out@));
    }
}

/// Every row cut or padded to `n` cells.
fn fit_lines(lines: VecDeque<Vec<Cell>>, n: u16) -> (out: VecDeque<Vec<Cell>>)
    ensures
        row_views(out@) == fit_all(row_views(lines@), n as nat),
{
    let ghost orig = lines@;
    let mut lines = lines;
    let mut out: VecDeque<Vec<Cell>> = VecDeque::new();
    while lines.len() > 0
        invariant
            orig.len() == out@.len() + lines@.len(),
            lines@ == orig.subrange(out@.len() as int, orig.len() as int),
            row_views(out@) == fit_all(row_views(orig.subrange(0, out@.len() as int)), n as nat),
        decreases lines@.len(),
    {
        let ghost k = out@.len();
        match lines.pop_front() {
            Some(mut row) => {
                let ghost given = row@;
                row.resize(n as usize, Cell::empty());
                proof {
                    assert(given == orig[k as int]@);
                    assert(row@ =~= fit_row(given, n as nat));
                    lemma_row_views_push(out@, row);
                }
                out.push_back(row);
                proof {
                    assert(lines@ =~= orig.subrange(out@.len() as int, orig.len() as int));
                    assert(row_views(out@) =~= fit_all(row_views(orig.subrange(0, out@.len() as int)), n as nat));
                }
            },
            None => {},
        }
    }
    proof {
        assert(orig.subrange(0, orig.len() as int) =~= orig);
    }
    out
}

/// The contents of all rows, one after the other, re-cut into rows of
/// `n` cells, the last one padded with empty cells.
fn reflow_lines(lines: VecDeque<Vec<Cell>>, n: u16) -> (out: VecDeque<Vec<Cell>>)
    requires
        n >= 1,
    ensures
        row_views(out@) == chunks(contents(row_views(lines@)), n as nat),
{
    let ghost s = row_views(lines@);
    let mut joined: Vec<Cell> = Vec::new();
    let mut i: usize = 0;
    proof {
        assert(s.subrange(0, 0) =~= Seq::<Seq<Cell>>::empty());
    }
    while i < lines.len()
        invariant
            s == row_views(lines@),
            i <= lines@.len(),
            joined@ == contents(s.subrange(0, i as int)),
        decreases lines@.len() - i,
    {
        let row = &lines[i];
        assert(row@ == s[i as int]);
        let len = row_content_len(row);
        let ghost before = joined@;
        let mut j: usize = 0;
        while j < len
            invariant
                len <= row@.len(),
                j <= len,
                joined@ == before + row@.subrange(0, j as int),
            decreases len - j,
        {
            joined.push(row[j]);
            j = j + 1;
            assert(joined@ =~= before + row@.subrange(0, j as int));
        }
        proof {
            let p = s.subrange(0, i + 1);
            assert(p.drop_last() =~= s.subrange(0, i as int));
            assert(p.last() == row@);
            assert(joined@ =~= contents(p));
        }
        i = i + 1;
    }
    assert(s.subrange(0, s.len() as int) =~= s);
    let mut out: VecDeque<Vec<Cell>> = VecDeque::new();
    let total = joined.len();
    push_chunks(&mut out, &joined, total, n);
    proof {
        assert(joined@.subrange(0, total as int) =~= joined@);
        assert(row_views(Seq::<Vec<Cell>>::empty()) =~= Seq::<Seq<Cell>>::empty());
        assert(Seq::<Seq<Cell>>::empty() + chunks(joined@, n as nat) =~= chunks(joined@, n as nat));
    }
    out
}

/// Appends `k` empty rows of `cols` cells.
fn append_blank_rows(lines: &mut VecDeque<Vec<Cell>>, k: usize, cols: u16)
    ensures
        row_views(final(lines)@) == row_views(old(lines)@) + blank_rows(k as nat, cols as nat),
{
    let mut i: usize = 0;
    proof {
        assert(row_views(lines@) =~= row_views(old(lines)@) + blank_rows(0, cols as nat));
    }
    while i < k
        invariant
            i <= k,
            row_views(lines@) == row_views(old(lines)@) + blank_rows(i as nat, cols as nat),
        decreases k - i,
    {
        let row = blank_vec(cols);
        proof {
            lemma_row_views_push(lines@, row);
        }
        lines.push_back(row);
        i = i + 1;
        proof {
            assert(row_views(lines@) =~= row_views(old(lines)@) + blank_rows(i as nat, cols as nat));
        }
    }
}

/// Appends empty rows of `cols` cells until there are `n` rows.
fn pad_lines(lines: &mut VecDeque<Vec<Cell>>, n: u16, cols: u16)
    ensures
        row_views(final(lines)@) == pad_rows(row_views(old(lines)@), n as nat, cols as nat),
{
    let len = lines.len();
    if len < n as usize {
        append_blank_rows(lines, n as usize - len, cols);
    }
}

/// Drops up to `k` rows from the bottom, keeping at least `floor` rows.
fn drop_bottom_rows(lines: &mut VecDeque<Vec<Cell>>, k: u16, floor: u16)
    ensures
        row_views(final(lines)@) == (if old(lines)@.len() <= floor {
            row_views(old(lines)@)
        } else if old(lines)@.len() - k >= floor {
            row_views(old(lines)@).subrange(0, old(lines)@.len() - k)
        } else {
            row_views(old(lines)@).subrange(0, floor as int)
        }),
{
    let ghost start = old(lines)@;
    let mut i: u16 = 0;
    while i < k
        invariant
            i <= k,
            start == old(lines)@,
            lines@ == start.subrange(0, lines@.len() as int),
            start.len() <= floor ==> lines@.len() == start.len(),
            start.len() > floor ==> lines@.len() == (if start.len() - i >= floor { start.len() - i } else { floor as int }),
        decreases k - i,
    {
        if lines.len() > floor as usize {
            lines.pop_back();
        }
        i = i + 1;
        assert(lines@ =~= start.subrange(0, lines@.len() as int));
    }
    proof {
        lemma_row_views_subrange(start, 0, lines@.len() as int);
        assert(start.subrange(0, start.len() as int) =~= start);
    }
}

impl TerminalGrid {
    /// `new` is `old` resized to `cols` columns and `rows` rows, a zero
    /// dimension taken as 1: rows are re-cut (their contents joined) or
    /// padded to the new width,
    /// rows are added or dropped at the bottom, the cap on stored rows is
    /// applied, and the cursor, the view and the selection are clamped.
    pub open spec fn resize_spec(old: &TerminalGrid, new: &TerminalGrid, cols: u16, rows: u16) -> bool {
        let nc = at_least_one(cols);
        let nr = at_least_one(rows);
        let lines = resized_lines(old.lines_view(), old.cols as nat, old.rows as nat, nc as nat, nr as nat);
        &&& new.cols == nc
        &&& new.rows == nr
        &&& new.max_scrollback == old.max_scrollback
        &&& new.formatting() == old.formatting()
        &&& new.lines_view() == keep_last(lines, old.spec_max_scrollback() + nr)
        &&& new.cursor() == (clamp_to(old.cursor().0 as int, nc - 1) as u16, clamp_to(old.cursor().1 as int, nr - 1) as u16)
        &&& new.viewport_offset == min_int(old.viewport_offset as int, new.max_offset())
        &&& new.sel() == match old.sel() {
            Some(s) => Some(Selection::spec_new(new.clamp_pos(s.start), new.clamp_pos(s.end))),
            None => None,
        }
    }

    /// `p` with each coordinate clamped into the viewport.
    fn clamp_position(&self, p: Position) -> (r: Position)
        requires
            self.cols >= 1,
            self.rows >= 1,
        ensures
            r == self.clamp_pos(p),
    {
        Position {
            col: if p.col < self.cols - 1 { p.col } else { self.cols - 1 },
            row: if p.row < self.rows - 1 { p.row } else { self.rows - 1 },
        }
    }

    /// Resizes the grid to `new_cols` columns and `new_rows` rows; a zero
    /// dimension is taken as 1. Narrowing, when a non-empty cell lies past
    /// the new width, joins every stored row's content and re-cuts it into
    /// rows of the new width; otherwise it cuts the rows.
    pub fn resize(&mut self, new_cols: u16, new_rows: u16)
        requires
            old(self).wf(),
        ensures
            final(self).wf(),
            TerminalGrid::resize_spec(old(self), final(self), new_cols, new_rows),
    {
        let nc = if new_cols == 0 { 1 } else { new_cols };
        let nr = if new_rows == 0 { 1 } else { new_rows };
        let oc = self.cols;
        let or = self.rows;
        let mut lines: VecDeque<Vec<Cell>> = VecDeque::new();
        std::mem::swap(&mut lines, &mut self.lines);
        let lines = resized_deque(lines, oc, or, nc, nr);
        self.lines = lines;
        self.cols = nc;
        self.rows = nr;
        self.limit_scrollback();
        proof {
            let p = resized_lines(old(self).lines_view(), oc as nat, or as nat, nc as nat, nr as nat);
            let k = keep_last(p, self.cap());
            assert forall|i: int| 0 <= i < k.len() implies (#[trigger] k[i]).len() == nc by {
                if p.len() > self.cap() {
                    assert(k[i] == p[i + p.len() - self.cap()]);
                }
            }
            assert(k.len() >= nr);
            assert(self.lines@.len() == k.len());
        }
        self.cursor_pos = (
            if self.cursor_pos.0 < nc - 1 { self.cursor_pos.0 } else { nc - 1 },
            if self.cursor_pos.1 < nr - 1 { self.cursor_pos.1 } else { nr - 1 },
        );
        let max_offset = self.lines.len() - nr as usize;
        if self.viewport_offset > max_offset {
            self.viewport_offset = max_offset;
        }
        match self.selection {
            Some(sel) => {
                let a = self.clamp_position(sel.start);
                let b = self.clamp_position(sel.end);
                self.selection = Some(Selection::new(a, b));
            },
            None => {},
        }
    }
}

/// The stored rows after a resize from `oc` by `or` to `nc` by `nr`, before
/// the cap on stored rows is applied.
fn resized_deque(lines: VecDeque<Vec<Cell>>, oc: u16, or: u16, nc: u16, nr: u16) -> (out: VecDeque<Vec<Cell>>)
    requires
        nc >= 1,
        forall|i: int| 0 <= i < lines@.len() ==> (#[trigger] row_views(lines@)[i]).len() == oc,
    ensures
        row_views(out@) == resized_lines(row_views(lines@), oc as nat, or as nat, nc as nat, nr as nat),
        out@.len() >= nr,
        forall|i: int| 0 <= i < out@.len() ==> (#[trigger] row_views(out@)[i]).len() == nc,
{
    let ghost s0 = row_views(lines@);
    let mut lines = if nc < oc && lines_overflow(&lines, nc as usize) {
        let mut l = reflow_lines(lines, nc);
        pad_lines(&mut l, nr, nc);
        l
    } else if nc != oc {
        fit_lines(lines, nc)
    } else {
        lines
    };
    assert(row_views(lines@) == width_changed(s0, oc as nat, nc as nat, nr as nat));
    if nr > or {
        append_blank_rows(&mut lines, (nr - or) as usize, nc);
    } else if nr < or {
        drop_bottom_rows(&mut lines, or - nr, nr);
    }
    proof {
        let w = width_changed(s0, oc as nat, nc as nat, nr as nat);
        if nr == or && w.len() > nr {
            assert(w.subrange(0, w.len() as int) =~= w);
        }
    }
    assert(row_views(lines@) == height_changed(width_changed(s0, oc as nat, nc as nat, nr as nat), or as nat, nr as nat, nc as nat));
    pad_lines(&mut lines, nr, nc);
    proof {
        let w = width_changed(s0, oc as nat, nc as nat, nr as nat);
        lemma_width_changed_width(s0, oc as nat, nc as nat, nr as nat);
        let h = height_changed(w, or as nat, nr as nat, nc as nat);
        assert forall|i: int| 0 <= i < h.len() implies (#[trigger] h[i]).len() == nc by {
            if nr > or && i >= w.len() {
                assert(h[i] == blank_rows((nr - or) as nat, nc as nat)[i - w.len()]);
            } else {
                assert(h[i] == w[i]);
            }
        }
        let p = pad_rows(h, nr as nat, nc as nat);
        assert forall|i: int| 0 <= i < p.len() implies (#[trigger] p[i]).len() == nc by {
            if i >= h.len() {
                assert(p[i] == blank_rows((nr - h.len()) as nat, nc as nat)[i - h.len()]);
            } else {
                assert(p[i] == h[i]);
            }
        }
        assert(row_views(lines@).len() == lines@.len());
    }
    lines
}

impl TerminalGrid {
    /// The selected text of viewport row `r` under selection `s`, as its
    /// cells show it.
    pub open spec fn sel_raw(&self, s: Selection, r: int) -> Seq<char> {
        cells_text(
            self.view_row(r).subrange(
                if r == s.start.row { s.start.col as int } else { 0 },
                (if r == s.end.row { s.end.col as int } else { self.cols - 1 }) + 1,
            ),
        )
    }

    /// The selected text of viewport row `r` under selection `s`, trailing
    /// white space dropped.
    pub open spec fn sel_line(&self, s: Selection, r: int) -> Seq<char> {
        trim_end(self.sel_raw(s, r))
    }

    /// Whether every selected line is empty once its trailing white space
    /// is dropped.
    pub open spec fn sel_blank(&self, s: Selection) -> bool {
        forall|r: int| s.start.row <= r <= s.end.row ==> (#[trigger] self.sel_line(s, r)).len() == 0
    }

    /// The selected lines from the selection's first row to row `r`, joined
    /// by line breaks.
    pub open spec fn sel_lines_to(&self, s: Selection, r: int) -> Seq<char>
        decreases r - s.start.row,
    {
        if r <= s.start.row {
            self.sel_line(s, s.start.row as int)
        } else {
            self.sel_lines_to(s, r - 1) + seq!['\n'] + self.sel_line(s, r)
        }
    }

    /// The text under selection `s`: each selected row without its
    /// trailing white space, joined by line breaks.
    pub open spec fn sel_text(&self, s: Selection) -> Seq<char> {
        self.sel_lines_to(s, s.end.row as int)
    }

    /// A copy of stored row `i`.
    fn copy_row(&self, i: usize) -> (r: Vec<Cell>)
        requires
            i < self.total(),
        ensures
            r@ == self.lines_view()[i as int],
    {
        let line = &self.lines[i];
        assert(line@ == self.lines_view()[i as int]);
        let mut r: Vec<Cell> = Vec::new();
        let mut k: usize = 0;
        while k < line.len()
            invariant
                k <= line@.len(),
                r@ == line@.subrange(0, k as int),
            decreases line@.len() - k,
        {
            r.push(line[k]);
            k = k + 1;
            assert(r@ =~= line@.subrange(0, k as int));
        }
        assert(line@.subrange(0, line@.len() as int) =~= line@);
        r
    }

    /// Copies of the viewport's rows, top first.
    pub fn get_viewport(&self) -> (v: Vec<Vec<Cell>>)
        requires
            self.wf(),
        ensures
            v@.len() == self.rows,
            forall|r: int| 0 <= r < self.rows ==> (#[trigger] v@[r])@ == self.view_row(r),
    {
        let mut v: Vec<Vec<Cell>> = Vec::new();
        let mut r: u16 = 0;
        while r < self.rows
            invariant
                self.wf(),
                r <= self.rows,
                v@.len() == r,
                forall|k: int| 0 <= k < r ==> (#[trigger] v@[k])@ == self.view_row(k),
            decreases self.rows - r,
        {
            let i = self.storage_row(r);
            v.push(self.copy_row(i));
            r = r + 1;
        }
        v
    }

    /// The viewport as text, one string per row: an empty cell or glyph 0
    /// shows as a space, any other cell as its glyph's low byte.
    pub fn get_viewport_text(&self) -> (t: Vec<String>)
        requires
            self.wf(),
        ensures
            t@.len() == self.rows,
            forall|r: int| 0 <= r < self.rows ==> (#[trigger] t@[r])@ == view_text(self.view_row(r)),
    {
        let mut t: Vec<String> = Vec::new();
        let mut r: u16 = 0;
        while r < self.rows
            invariant
                self.wf(),
                r <= self.rows,
                t@.len() == r,
                forall|k: int| 0 <= k < r ==> (#[trigger] t@[k])@ == view_text(self.view_row(k)),
            decreases self.rows - r,
        {
            let i = self.storage_row(r);
            let line = &self.lines[i];
            assert(line@ == self.view_row(r as int));
            let mut s = String::new();
            let mut k: usize = 0;
            while k < line.len()
                invariant
                    k <= line@.len(),
                    s@ == view_text(line@.subrange(0, k as int)),
                decreases line@.len() - k,
            {
                let c = line[k];
                let ch = if c.glyph_id == 0 || c.is_empty() { ' ' } else { (c.glyph_id as u8) as char };
                push_char(&mut s, ch);
                k = k + 1;
                assert(s@ =~= view_text(line@.subrange(0, k as int)));
            }
            assert(line@.subrange(0, line@.len() as int) =~= line@);
            t.push(s);
            r = r + 1;
        }
        t
    }

    /// Starts a selection of the single position `position`, clamped into
    /// the viewport.
    pub fn start_selection(&mut self, position: Position)
        requires
            old(self).wf(),
        ensures
            final(self).wf(),
            final(self).sel() == Some(Selection { start: old(self).clamp_pos(position), end: old(self).clamp_pos(position) }),
            final(self).cols == old(self).cols,
            final(self).rows == old(self).rows,
            final(self).max_scrollback == old(self).max_scrollback,
            final(self).formatting() == old(self).formatting(),
            final(self).lines_view() == old(self).lines_view(),
            final(self).viewport_offset == old(self).viewport_offset,
            final(self).cursor() == old(self).cursor(),
    {
        let p = self.clamp_position(position);
        self.selection = Some(Selection { start: p, end: p });
    }

    /// Moves the selection's end to `position`, clamped, and puts the
    /// endpoints in order; without a selection, starts one there.
    pub fn extend_selection(&mut self, position: Position)
        requires
            old(self).wf(),
        ensures
            final(self).wf(),
            final(self).sel() == match old(self).sel() {
                Some(s) => Some(Selection::spec_new(s.start, old(self).clamp_pos(position))),
                None => Some(Selection { start: old(self).clamp_pos(position), end: old(self).clamp_pos(position) }),
            },
            final(self).cols == old(self).cols,
            final(self).rows == old(self).rows,
            final(self).max_scrollback == old(self).max_scrollback,
            final(self).formatting() == old(self).formatting(),
            final(self).lines_view() == old(self).lines_view(),
            final(self).viewport_offset == old(self).viewport_offset,
            final(self).cursor() == old(self).cursor(),
    {
        let p = self.clamp_position(position);
        match self.selection {
            Some(s) => {
                self.selection = Some(Selection::new(s.start, p));
            },
            None => {
                self.selection = Some(Selection { start: p, end: p });
            },
        }
    }

    /// Removes the selection.
    pub fn clear_selection(&mut self)
        requires
            old(self).wf(),
        ensures
            final(self).wf(),
            final(self).sel() is None,
            final(self).cols == old(self).cols,
            final(self).rows == old(self).rows,
            final(self).max_scrollback == old(self).max_scrollback,
            final(self).formatting() == old(self).formatting(),
            final(self).lines_view() == old(self).lines_view(),
            final(self).viewport_offset == old(self).viewport_offset,
            final(self).cursor() == old(self).cursor(),
    {
        self.selection = None;
    }

    /// The current selection.
    pub fn get_selection(&self) -> (r: Option<&Selection>)
        ensures
            r matches Some(s) ==> self.sel() == Some(*s),
            r is None <==> self.sel() is None,
    {
        self.selection.as_ref()
    }

    /// Whether there is a selection.
    pub fn has_selection(&self) -> (r: bool)
        ensures
            r == self.sel() is Some,
    {
        self.selection.is_some()
    }

    /// Whether `position` lies within the selection.
    pub fn position_in_selection(&self, position: Position) -> (r: bool)
        ensures
            r == (self.sel() matches Some(s) && s.spec_contains(position)),
    {
        match &self.selection {
            Some(s) => s.contains(position),
            None => false,
        }
    }

    /// Selects the whole viewport.
    pub fn select_all(&mut self)
        requires
            old(self).wf(),
        ensures
            final(self).wf(),
            final(self).sel() == Some(Selection {
                start: Position { col: 0, row: 0 },
                end: Position { col: (old(self).cols - 1) as u16, row: (old(self).rows - 1) as u16 },
            }),
            final(self).cols == old(self).cols,
            final(self).rows == old(self).rows,
            final(self).max_scrollback == old(self).max_scrollback,
            final(self).formatting() == old(self).formatting(),
            final(self).lines_view() == old(self).lines_view(),
            final(self).viewport_offset == old(self).viewport_offset,
            final(self).cursor() == old(self).cursor(),
    {
        let start = Position::new(0, 0);
        let end = Position::new(self.cols - 1, self.rows - 1);
        self.selection = Some(Selection::new(start, end));
    }

    /// The selection's endpoints, first one first.
    pub fn get_selection_viewport_bounds(&self) -> (r: Option<(Position, Position)>)
        ensures
            r == match self.sel() {
                Some(s) => Some((s.start, s.end)),
                None => None,
            },
    {
        match &self.selection {
            Some(s) => Some(s.normalized()),
            None => None,
        }
    }
}

/// Whether `c` counts as part of a word.
fn is_word_cell(c: &Cell) -> (r: bool)
    ensures
        r == word_cell(*c),
{
    match char_from_u32(c.glyph_id) {
        Some(ch) => {
            proof {
                lemma_char_of(ch);
            }
            is_alphanumeric(ch) || ch == '_'
        },
        None => false,
    }
}

/// Appends to `out` what columns `a` to `b` of `row` contribute to
/// selected text.
fn push_cells_text(out: &mut Vec<char>, row: &Vec<Cell>, a: usize, b: usize)
    requires
        a <= b + 1 <= row@.len(),
    ensures
        final(out)@ == old(out)@ + cells_text(row@.subrange(a as int, b + 1)),
{
    let mut k: usize = a;
    proof {
        assert(row@.subrange(a as int, a as int) =~= Seq::<Cell>::empty());
        assert(out@ =~= old(out)@ + cells_text(row@.subrange(a as int, a as int)));
    }
    while k <= b && k < row.len()
        invariant
            a <= k <= b + 1 <= row@.len(),
            out@ == old(out)@ + cells_text(row@.subrange(a as int, k as int)),
        decreases b + 1 - k,
    {
        let c = row[k];
        let ghost before = out@;
        if c.glyph_id == 0 || c.is_empty() {
            out.push(' ');
        } else {
            match char_from_u32(c.glyph_id) {
                Some(ch) => {
                    proof {
                        lemma_char_of(ch);
                    }
                    out.push(ch);
                },
                None => {},
            }
        }
        proof {
            let t = row@.subrange(a as int, k + 1);
            assert(t.drop_last() =~= row@.subrange(a as int, k as int));
            assert(t.last() == c);
            assert(out@ =~= before + selected_chars(c));
        }
        k = k + 1;
    }
}

impl TerminalGrid {
    /// The selected text, lines joined by line breaks, each line without its
    /// trailing white space; `None` without a selection or when it is empty.
    pub fn get_selected_text(&self) -> (r: Option<String>)
        requires
            self.wf(),
        ensures
            r is None <==> (self.sel() is None || self.sel_blank(self.sel()->0)),
            r matches Some(t) ==> t@ == self.sel_text(self.sel()->0),
    {
        let s = match self.selection {
            Some(s) => s,
            None => return None,
        };
        let mut out: Vec<char> = Vec::new();
        let mut any = false;
        let mut r: u16 = s.start.row;
        while r <= s.end.row
            invariant
                self.wf(),
                self.sel() == Some(s),
                s.start.row <= r <= s.end.row + 1,
                r > s.start.row ==> out@ == self.sel_lines_to(s, r - 1),
                r == s.start.row ==> out@.len() == 0,
                any == exists|q: int| s.start.row <= q < r && (#[trigger] self.sel_line(s, q)).len() > 0,
            decreases s.end.row + 1 - r,
        {
            let a: u16 = if r == s.start.row { s.start.col } else { 0 };
            let b: u16 = if r == s.end.row { s.end.col } else { self.cols - 1 };
            let i = self.storage_row(r);
            let line = &self.lines[i];
            assert(line@ == self.view_row(r as int));
            let mut text: Vec<char> = Vec::new();
            push_cells_text(&mut text, line, a as usize, b as usize);
            assert(text@ =~= self.sel_raw(s, r as int));
            trim_trailing_whitespace(&mut text);
            assert(text@ == self.sel_line(s, r as int));
            if text.len() > 0 {
                any = true;
            }
            let ghost before = out@;
            if r > s.start.row {
                out.push('\n');
            }
            let mut k: usize = 0;
            while k < text.len()
                invariant
                    k <= text@.len(),
                    out@ == (if r > s.start.row { before + seq!['\n'] } else { before }) + text@.subrange(0, k as int),
                decreases text@.len() - k,
            {
                out.push(text[k]);
                k = k + 1;
                assert(out@ =~= (if r > s.start.row { before + seq!['\n'] } else { before }) + text@.subrange(0, k as int));
            }
            assert(text@.subrange(0, text@.len() as int) =~= text@);
            assert(out@ =~= self.sel_lines_to(s, r as int));
            r = r + 1;
        }
        if !any {
            return None;
        }
        Some(string_of(&out))
    }

    /// Selects the word under `position`, clamped: the run of letters,
    /// digits and `_` around it on its row, or the position alone when its
    /// cell is not part of a word.
    pub fn select_word_at(&mut self, position: Position)
        requires
            old(self).wf(),
        ensures
            final(self).wf(),
            ({
                let p = old(self).clamp_pos(position);
                let row = old(self).view_row(p.row as int);
                let stop = word_stop(row, p.col as int);
                let end = if stop > p.col { stop - 1 } else { p.col as int };
                final(self).sel() == Some(Selection {
                    start: Position { col: word_start(row, p.col as int) as u16, row: p.row },
                    end: Position { col: end as u16, row: p.row },
                })
            }),
            final(self).cols == old(self).cols,
            final(self).rows == old(self).rows,
            final(self).max_scrollback == old(self).max_scrollback,
            final(self).formatting() == old(self).formatting(),
            final(self).lines_view() == old(self).lines_view(),
            final(self).viewport_offset == old(self).viewport_offset,
            final(self).cursor() == old(self).cursor(),
    {
        let p = self.clamp_position(position);
        let i = self.storage_row(p.row);
        let line = &self.lines[i];
        assert(line@ == self.view_row(p.row as int));
        assert(line@.len() == self.cols);
        let mut l: usize = p.col as usize;
        while l > 0 && is_word_cell(&line[l - 1])
            invariant
                l <= p.col,
                p.col < line@.len(),
                word_start(line@, l as int) == word_start(line@, p.col as int),
            decreases l,
        {
            l = l - 1;
        }
        let mut e: usize = p.col as usize;
        while e < line.len() && is_word_cell(&line[e])
            invariant
                p.col <= e <= line@.len(),
                word_stop(line@, e as int) == word_stop(line@, p.col as int),
            decreases line@.len() - e,
        {
            e = e + 1;
        }
        let end: usize = if e > p.col as usize { e - 1 } else { p.col as usize };
        let start = Position { col: l as u16, row: p.row };
        let stop = Position { col: end as u16, row: p.row };
        self.selection = Some(Selection { start, end: stop });
    }
}

impl TerminalGrid {
    /// Applies a cursor-control action; SGR and other commands change
    /// nothing here.
    pub fn handle_csi_action(&mut self, action: &CsiAction)
        requires
            old(self).wf(),
        ensures
            final(self).wf(),
            TerminalGrid::csi_spec(old(self), final(self), *action),
    {
        match action {
            CsiAction::CursorUp(n) => self.move_cursor_up(*n),
            CsiAction::CursorDown(n) => self.move_cursor_down(*n),
            CsiAction::CursorForward(n) => self.move_cursor_right(*n),
            CsiAction::CursorBackward(n) => self.move_cursor_left(*n),
            CsiAction::CursorNextLine(n) => {
                self.move_cursor_down(*n);
                self.move_cursor_to_line_start();
            },
            CsiAction::CursorPreviousLine(n) => {
                self.move_cursor_up(*n);
                self.move_cursor_to_line_start();
            },
            CsiAction::CursorHorizontalAbsolute(c) => self.move_cursor_to_column(*c),
            CsiAction::CursorPosition(r, c) => self.set_cursor_position(*c, *r),
            _ => {},
        }
    }
}

/// Lines joined by line feeds.
pub open spec fn join_lines(ls: Seq<Seq<char>>) -> Seq<char>
    decreases ls.len(),
{
    if ls.len() == 0 {
        Seq::empty()
    } else if ls.len() == 1 {
        ls[0]
    } else {
        join_lines(ls.drop_last()) + seq!['\n'] + ls.last()
    }
}

impl TerminalGrid {
    /// The viewport's text, rows joined by line feeds.
    pub open spec fn viewport_text(&self) -> Seq<char> {
        join_lines(Seq::new(self.rows as nat, |r: int| view_text(self.view_row(r))))
    }

    /// Hands the viewport's text to the renderer's view, rows joined by line
    /// feeds, as `TextView::add_text` takes text.
    pub fn update_renderer(&self, view: &mut TextView)
        requires
            self.wf(),
        ensures
            ({
                let all = rows_view(old(view).viewport@) + text_rows(text_lines(self.viewport_text()));
                rows_view(final(view).viewport@) == if all.len() > MAX_TEXT_ROWS {
                    all.subrange(all.len() - MAX_TEXT_ROWS, all.len() as int)
                } else {
                    all
                }
            }),
    {
        let lines = self.get_viewport_text();
        let ghost ls = Seq::new(self.rows as nat, |r: int| view_text(self.view_row(r)));
        let mut joined: Vec<char> = Vec::new();
        let mut i: usize = 0;
        proof {
            assert(ls.subrange(0, 0) =~= Seq::<Seq<char>>::empty());
        }
        while i < lines.len()
            invariant
                lines@.len() == self.rows,
                ls.len() == self.rows,
                forall|r: int| 0 <= r < self.rows ==> (#[trigger] lines@[r])@ == ls[r],
                i <= lines@.len(),
                joined@ == join_lines(ls.subrange(0, i as int)),
            decreases lines@.len() - i,
        {
            let ghost before = joined@;
            if i > 0 {
                joined.push('\n');
            }
            let line = crate::text::chars_of(lines[i].as_str());
            let mut k: usize = 0;
            let ghost base = joined@;
            while k < line.len()
                invariant
                    k <= line@.len(),
                    joined@ == base + line@.subrange(0, k as int),
                decreases line@.len() - k,
            {
                joined.push(line[k]);
                k = k + 1;
                assert(joined@ =~= base + line@.subrange(0, k as int));
            }
            assert(line@.subrange(0, line@.len() as int) =~= line@);
            proof {
                let p = ls.subrange(0, i + 1);
                assert(p.drop_last() =~= ls.subrange(0, i as int));
                assert(p.last() == ls[i as int]);
                if i == 0 {
                    assert(p.len() == 1);
                    assert(joined@ =~= p[0]);
                } else {
                    assert(joined@ =~= before + seq!['\n'] + ls[i as int]);
                }
            }
            i = i + 1;
        }
        assert(ls.subrange(0, ls.len() as int) =~= ls);
        let text = crate::text::string_of(&joined);
        view.add_text(text.as_str());
    }
}

/// The text of empty cells is white space only.
pub proof fn lemma_blank_cells_text(r: Seq<Cell>)
    requires
        forall|i: int| 0 <= i < r.len() ==> (#[trigger] r[i]).is_blank(),
    ensures
        forall|k: int| 0 <= k < cells_text(r).len() ==> crate::text::white_space(#[trigger] cells_text(r)[k]),
    decreases r.len(),
{
    if r.len() > 0 {
        let d = r.drop_last();
        assert forall|i: int| 0 <= i < d.len() implies (#[trigger] d[i]).is_blank() by {
            assert(d[i] == r[i]);
        }
        lemma_blank_cells_text(d);
        assert(r.last() == r[r.len() - 1]);
        assert(selected_chars(r.last()) == seq![' ']);
        let t = cells_text(r);
        assert forall|k: int| 0 <= k < t.len() implies crate::text::white_space(#[trigger] t[k]) by {
            if k < cells_text(d).len() {
                assert(t[k] == cells_text(d)[k]);
            } else {
                assert(t[k] == ' ');
            }
        }
    }
}

/// White space only trims away to nothing.
pub proof fn lemma_trim_white_space(s: Seq<char>)
    requires
        forall|k: int| 0 <= k < s.len() ==> crate::text::white_space(#[trigger] s[k]),
    ensures
        trim_end(s).len() == 0,
    decreases s.len(),
{
    if s.len() > 0 {
        let d = s.drop_last();
        assert(s.last() == s[s.len() - 1]);
        assert forall|k: int| 0 <= k < d.len() implies crate::text::white_space(#[trigger] d[k]) by {
            assert(d[k] == s[k]);
        }
        lemma_trim_white_space(d);
    }
}

impl TerminalGrid {
    /// On a grid whose viewport holds only empty cells, any selection is
    /// blank: its selected text has no character, so `get_selected_text`
    /// gives `None`.
    pub proof fn lemma_empty_grid_selects_nothing(&self, s: Selection)
        requires
            self.wf(),
            s.wf(),
            self.in_bounds(s.start),
            self.in_bounds(s.end),
            forall|c: int, r: int| 0 <= c < self.cols && 0 <= r < self.rows ==> (#[trigger] self.view_cell(c, r)).is_blank(),
        ensures
            self.sel_blank(s),
    {
        assert forall|r: int| s.start.row <= r <= s.end.row implies (#[trigger] self.sel_line(s, r)).len() == 0 by {
            let a = if r == s.start.row { s.start.col as int } else { 0 };
            let b = if r == s.end.row { s.end.col as int } else { self.cols - 1 };
            let row = self.view_row(r);
            assert(row.len() == self.cols);
            let sub = row.subrange(a, b + 1);
            assert forall|i: int| 0 <= i < sub.len() implies (#[trigger] sub[i]).is_blank() by {
                assert(sub[i] == self.view_cell(a + i, r));
            }
            lemma_blank_cells_text(sub);
            lemma_trim_white_space(cells_text(sub));
        }
    }
}


impl TerminalGrid {
    /// `new` is `old` with its print formatting set to that of `st`.
    pub open spec fn formatted(old: &TerminalGrid, new: &TerminalGrid, st: ParserState) -> bool {
        &&& new.formatting() == (st.fg_color, st.bg_color, st.attrs)
        &&& new.cols == old.cols
        &&& new.rows == old.rows
        &&& new.max_scrollback == old.max_scrollback
        &&& new.sel() == old.sel()
        &&& new.lines_view() == old.lines_view()
        &&& new.viewport_offset == old.viewport_offset
        &&& new.cursor() == old.cursor()
    }

    /// Applies one parsed action to the grid, with `state` the formatting
    /// that SGR sequences have set so far: a character is printed, a control
    /// byte is run, an SGR sequence updates `state` and the grid's print
    /// formatting, another CSI sequence moves the cursor as its wire
    /// parameters say, and a full reset returns `state` and the formatting
    /// to their defaults. Other escape sequences and OSC strings change
    /// nothing.
    pub fn apply_action(&mut self, state: &mut ParserState, action: ParseAction)
        requires
            old(self).wf(),
        ensures
            final(self).wf(),
            match action {
                ParseAction::Print(c) => TerminalGrid::print_spec(old(self), final(self), c) && *final(state) == *old(state),
                ParseAction::Execute(b) => TerminalGrid::control_spec(old(self), final(self), b) && *final(state) == *old(state),
                ParseAction::CsiDispatch(crate::parser::CsiAction::Sgr(p)) => *final(state) == sgr_apply(*old(state), p@)
                    && TerminalGrid::formatted(old(self), final(self), *final(state)),
                ParseAction::CsiDispatch(crate::parser::CsiAction::Other { command, params }) => *final(state) == *old(state)
                    && exists|a: CsiAction| wire_action(command, params@, a) && TerminalGrid::csi_spec(old(self), final(self), a),
                ParseAction::EscDispatch(EscAction::Reset) => *final(state) == initial_state()
                    && TerminalGrid::formatted(old(self), final(self), initial_state()),
                _ => *final(state) == *old(state) && *final(self) == *old(self),
            },
    {
        match action {
            ParseAction::Print(c) => self.print_char(c),
            ParseAction::Execute(b) => self.execute_control(b),
            ParseAction::CsiDispatch(crate::parser::CsiAction::Sgr(params)) => {
                state.apply_sgr(params.as_slice());
                self.apply_sgr(state.fg_color, state.bg_color, state.attrs);
            },
            ParseAction::CsiDispatch(crate::parser::CsiAction::Other { command, params }) => {
                let a = CsiAction::from_wire(command, params);
                self.handle_csi_action(&a);
            },
            ParseAction::EscDispatch(EscAction::Reset) => {
                state.reset();
                self.apply_sgr(state.fg_color, state.bg_color, state.attrs);
            },
            _ => {},
        }
    }
}

/// A vector of `n` empty cells.
pub fn blank_vec(n: u16) -> (v: Vec<Cell>)
    ensures
        v@ == blank_row(n as nat),
{
    let mut v: Vec<Cell> = Vec::new();
    let mut i: u16 = 0;
    while i < n
        invariant
            i <= n,
            v@ == blank_row(i as nat),
        decreases n - i,
    {
        v.push(Cell::empty());
        i = i + 1;
        assert(v@ =~= blank_row(i as nat));
    }
    v
}

/// `rows` rows of `cols` empty cells each.
fn blank_lines(cols: u16, rows: u16) -> (d: VecDeque<Vec<Cell>>)
    ensures
        row_views(d@) == blank_rows(rows as nat, cols as nat),
{
    let mut d: VecDeque<Vec<Cell>> = VecDeque::new();
    let mut i: u16 = 0;
    while i < rows
        invariant
            i <= rows,
            row_views(d@) == blank_rows(i as nat, cols as nat),
        decreases rows - i,
    {
        let row = blank_vec(cols);
        proof {
            lemma_row_views_push(d@, row);
        }
        d.push_back(row);
        i = i + 1;
        assert(row_views(d@) =~= blank_rows(i as nat, cols as nat));
    }
    d
}

} // verus!
