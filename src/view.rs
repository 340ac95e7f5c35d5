//! The renderer's copy of what it shows: rows of formatted cells, filled
//! from the grid's viewport or from plain text.

use vstd::prelude::*;
use crate::cell::CellAttrs;
use crate::components::RendererColor;
use crate::text::{chars_of, is_whitespace, push_char, white_space};

verus! {

/// Metrics a shaper gave a glyph, in 1/64 px.
#[derive(Debug, Clone, Copy, PartialEq, Eq, Structural)]
pub struct ShapingInfo {
    /// Horizontal advance.
    pub x_advance: i32,
    /// Vertical advance.
    pub y_advance: i32,
    /// Horizontal offset.
    pub x_offset: i32,
    /// Vertical offset.
    pub y_offset: i32,
    /// Byte offset of the glyph's cluster in the shaped text.
    pub cluster: u32,
}

/// A cell as the renderer draws it.
#[derive(Debug, Clone, Copy, PartialEq, Eq, Structural)]
pub struct RendererCell {
    /// Glyph code point.
    pub glyph_id: u32,
    /// Foreground.
    pub fg_color: RendererColor,
    /// Background.
    pub bg_color: RendererColor,
    /// Attributes.
    pub attrs: CellAttrs,
    /// Shaping metrics, when the text was shaped.
    pub shaping_info: Option<ShapingInfo>,
}

/// The cell of an unshaped character: white on black, no attribute.
pub open spec fn plain_cell(c: char) -> RendererCell {
    RendererCell {
        glyph_id: c as u32,
        fg_color: RendererColor { r: 255, g: 255, b: 255, a: 255 },
        bg_color: RendererColor { r: 0, g: 0, b: 0, a: 255 },
        attrs: CellAttrs { bits: 0 },
        shaping_info: None,
    }
}

impl RendererCell {
    /// A white-on-black cell for `glyph_id`.
    pub fn new(glyph_id: u32) -> (c: RendererCell)
        ensures
            c == (RendererCell {
                glyph_id,
                fg_color: RendererColor { r: 255, g: 255, b: 255, a: 255 },
                bg_color: RendererColor { r: 0, g: 0, b: 0, a: 255 },
                attrs: CellAttrs { bits: 0 },
                shaping_info: None,
            }),
    {
        RendererCell {
            glyph_id,
            fg_color: RendererColor::rgb(255, 255, 255),
            bg_color: RendererColor::rgb(0, 0, 0),
            attrs: CellAttrs::empty(),
            shaping_info: None,
        }
    }
}

/// Length of the first line of `s`: the characters before its first line
/// feed.
pub open spec fn first_line_len(s: Seq<char>) -> nat
    decreases s.len(),
{
    if s.len() == 0 || s[0] == '\n' {
        0
    } else {
        1 + first_line_len(s.subrange(1, s.len() as int))
    }
}

/// The lines of `s` as `str::lines` gives them: split at line feeds, a
/// carriage return before a line feed dropped, no line after a final line
/// feed.
pub open spec fn text_lines(s: Seq<char>) -> Seq<Seq<char>>
    decreases s.len(),
{
    if s.len() == 0 {
        Seq::empty()
    } else {
        let k = first_line_len(s) as int;
        if k >= s.len() {
            seq![s]
        } else {
            let l = s.subrange(0, k);
            let line = if l.len() > 0 && l.last() == '\r' { l.drop_last() } else { l };
            seq![line] + text_lines(s.subrange(k + 1, s.len() as int))
        }
    }
}

/// Whether `l` holds only white space.
pub open spec fn blank_line(l: Seq<char>) -> bool {
    forall|i: int| 0 <= i < l.len() ==> white_space(#[trigger] l[i])
}

/// The rows that text lines `ls` add: the lines that are not blank, each
/// as unshaped cells.
pub open spec fn text_rows(ls: Seq<Seq<char>>) -> Seq<Seq<RendererCell>>
    decreases ls.len(),
{
    if ls.len() == 0 {
        Seq::empty()
    } else if blank_line(ls.last()) {
        text_rows(ls.drop_last())
    } else {
        text_rows(ls.drop_last()).push(ls.last().map_values(|c: char| plain_cell(c)))
    }
}

/// Cells of `r` holding a glyph other than a space or 0.
pub open spec fn filled_in(r: Seq<RendererCell>) -> nat
    decreases r.len(),
{
    if r.len() == 0 {
        0
    } else {
        filled_in(r.drop_last()) + if r.last().glyph_id != 32 && r.last().glyph_id != 0 { 1nat } else { 0nat }
    }
}

/// Cells of all rows holding a glyph other than a space or 0.
pub open spec fn filled_cells(rows: Seq<Seq<RendererCell>>) -> nat
    decreases rows.len(),
{
    if rows.len() == 0 { 0 } else { filled_cells(rows.drop_last()) + filled_in(rows.last()) }
}

/// Cells of all rows.
pub open spec fn total_cells(rows: Seq<Seq<RendererCell>>) -> nat
    decreases rows.len(),
{
    if rows.len() == 0 { 0 } else { total_cells(rows.drop_last()) + rows.last().len() }
}

/// A row holds no more filled cells than cells, and neither count shrinks
/// as rows are added.
proof fn lemma_totals_grow(rows: Seq<Seq<RendererCell>>)
    ensures
        filled_cells(rows) <= total_cells(rows),
    decreases rows.len(),
{
    if rows.len() > 0 {
        lemma_totals_grow(rows.drop_last());
        lemma_filled_in_le(rows.last());
    }
}

/// A row holds no more filled cells than cells.
proof fn lemma_filled_in_le(r: Seq<RendererCell>)
    ensures
        filled_in(r) <= r.len(),
    decreases r.len(),
{
    if r.len() > 0 {
        lemma_filled_in_le(r.drop_last());
    }
}

/// Most rows kept from text.
pub const MAX_TEXT_ROWS: usize = 100;

/// The renderer's rows of cells.
#[derive(Debug, Clone)]
pub struct TextView {
    /// The rows, top first.
    pub viewport: Vec<Vec<RendererCell>>,
}

/// The cells of each row.
pub open spec fn rows_view(v: Seq<Vec<RendererCell>>) -> Seq<Seq<RendererCell>> {
    v.map_values(|r: Vec<RendererCell>| r@)
}

/// The first line of `s`, and where the rest starts.
fn first_line(s: &Vec<char>, from: usize) -> (r: usize)
    requires
        from <= s@.len(),
    ensures
        from <= r <= s@.len(),
        r - from == first_line_len(s@.subrange(from as int, s@.len() as int)),
{
    let mut k: usize = from;
    while k < s.len() && s[k] != '\n'
        invariant
            from <= k <= s@.len(),
            first_line_len(s@.subrange(from as int, s@.len() as int))
                == (k - from) + first_line_len(s@.subrange(k as int, s@.len() as int)),
        decreases s@.len() - k,
    {
        proof {
            let t = s@.subrange(k as int, s@.len() as int);
            assert(t.subrange(1, t.len() as int) =~= s@.subrange(k + 1, s@.len() as int));
        }
        k = k + 1;
    }
    k
}

/// Whether the characters `s[lo..hi]` are all white space.
fn is_blank_range(s: &Vec<char>, lo: usize, hi: usize) -> (r: bool)
    requires
        lo <= hi <= s@.len(),
    ensures
        r == blank_line(s@.subrange(lo as int, hi as int)),
{
    let mut i: usize = lo;
    while i < hi
        invariant
            lo <= i <= hi <= s@.len(),
            forall|k: int| lo <= k < i ==> white_space(#[trigger] s@[k]),
        decreases hi - i,
    {
        if !is_whitespace(s[i]) {
            assert(s@.subrange(lo as int, hi as int)[i - lo] == s@[i as int]);
            return false;
        }
        i = i + 1;
    }
    assert forall|k: int| 0 <= k < hi - lo implies white_space(#[trigger] s@.subrange(lo as int, hi as int)[k]) by {
        assert(s@.subrange(lo as int, hi as int)[k] == s@[lo + k]);
    }
    true
}

/// The unshaped cells of `s[lo..hi]`.
fn cells_of(s: &Vec<char>, lo: usize, hi: usize) -> (r: Vec<RendererCell>)
    requires
        lo <= hi <= s@.len(),
    ensures
        r@ == s@.subrange(lo as int, hi as int).map_values(|c: char| plain_cell(c)),
{
    let mut r: Vec<RendererCell> = Vec::new();
    let mut i: usize = lo;
    while i < hi
        invariant
            lo <= i <= hi <= s@.len(),
            r@ == s@.subrange(lo as int, i as int).map_values(|c: char| plain_cell(c)),
        decreases hi - i,
    {
        r.push(RendererCell::new(s[i] as u32));
        i = i + 1;
        assert(r@ =~= s@.subrange(lo as int, i as int).map_values(|c: char| plain_cell(c)));
    }
    r
}

/// The rows that `text` adds, before the cap.
fn text_to_rows(text: &str) -> (r: Vec<Vec<RendererCell>>)
    ensures
        rows_view(r@) == text_rows(text_lines(text@)),
{
    let s = chars_of(text);
    let n = s.len();
    let mut out: Vec<Vec<RendererCell>> = Vec::new();
    let mut p: usize = 0;
    let ghost done: Seq<Seq<char>> = Seq::empty();
    proof {
        assert(s@.subrange(0, n as int) =~= s@);
        assert(rows_view(out@) =~= text_rows(done));
    }
    while p < n
        invariant
            s@ == text@,
            n == s@.len(),
            p <= n,
            done + text_lines(s@.subrange(p as int, n as int)) == text_lines(s@),
            rows_view(out@) == text_rows(done),
        decreases n - p,
    {
        let k = first_line(&s, p);
        let ghost rest = s@.subrange(p as int, n as int);
        let mut e = k;
        if k < n && k > p && s[k - 1] == '\r' {
            e = k - 1;
        }
        let ghost line = s@.subrange(p as int, e as int);
        proof {
            let l = rest.subrange(0, (k - p) as int);
            assert(l =~= s@.subrange(p as int, k as int));
            if k < n {
                if k > p && s@[k - 1] == '\r' {
                    assert(l.last() == s@[k - 1]);
                    assert(l.drop_last() =~= line);
                } else {
                    assert(l =~= line);
                }
                assert(rest.subrange((k - p) + 1, rest.len() as int) =~= s@.subrange(k + 1, n as int));
                assert(text_lines(rest) == seq![line] + text_lines(s@.subrange(k + 1, n as int)));
            } else {
                assert(rest =~= line);
                assert(text_lines(rest) == seq![line]);
                assert(s@.subrange(n as int, n as int) =~= Seq::<char>::empty());
            }
        }
        let blank = is_blank_range(&s, p, e);
        let ghost before = out@;
        if !blank {
            let row = cells_of(&s, p, e);
            out.push(row);
            proof {
                assert(rows_view(out@) =~= rows_view(before).push(row@));
            }
        }
        proof {
            let d2 = done.push(line);
            assert(d2.drop_last() =~= done);
            assert(d2.last() == line);
            done = d2;
        }
        if k < n {
            p = k + 1;
            proof {
                assert(done + text_lines(s@.subrange(p as int, n as int)) =~= (done.drop_last() + seq![line]) + text_lines(s@.subrange(p as int, n as int)));
            }
        } else {
            p = n;
            proof {
                assert(text_lines(s@.subrange(n as int, n as int)) =~= Seq::<Seq<char>>::empty());
                assert(done + text_lines(s@.subrange(p as int, n as int)) =~= done.drop_last() + seq![line]);
            }
        }
    }
    proof {
        assert(text_lines(s@.subrange(n as int, n as int)) =~= Seq::<Seq<char>>::empty());
        assert(done + Seq::<Seq<char>>::empty() =~= done);
    }
    out
}

impl TextView {
    /// No rows.
    pub fn new() -> (v: TextView)
        ensures
            v.viewport@.len() == 0,
    {
        TextView { viewport: Vec::new() }
    }

    /// Appends the lines of `text` that are not blank, as unshaped cells,
    /// and keeps only the last 100 rows.
    pub fn add_text(&mut self, text: &str)
        ensures
            ({
                let all = rows_view(old(self).viewport@) + text_rows(text_lines(text@));
                rows_view(final(self).viewport@) == if all.len() > MAX_TEXT_ROWS {
                    all.subrange(all.len() - MAX_TEXT_ROWS, all.len() as int)
                } else {
                    all
                }
            }),
    {
        let mut rows = text_to_rows(text);
        let ghost added = rows@;
        self.viewport.append(&mut rows);
        assert(rows_view(self.viewport@) =~= rows_view(old(self).viewport@) + rows_view(added));
        let len = self.viewport.len();
        if len > MAX_TEXT_ROWS {
            let extra = len - MAX_TEXT_ROWS;
            let kept = self.viewport.split_off(extra);
            proof {
                assert(rows_view(kept@) =~= rows_view(self.viewport@ + kept@).subrange(extra as int, len as int));
            }
            self.viewport = kept;
        }
    }

    /// Replaces the rows with `rows`.
    pub fn update_viewport(&mut self, rows: Vec<Vec<RendererCell>>)
        ensures
            final(self).viewport@ == rows@,
    {
        self.viewport = rows;
    }

    /// Foreground and background of cell `(row, col)`.
    pub fn get_cell_colors(&self, row: usize, col: usize) -> (r: Option<(RendererColor, RendererColor)>)
        ensures
            r is Some <==> row < self.viewport@.len() && col < self.viewport@[row as int]@.len(),
            r matches Some((f, b)) ==> f == self.viewport@[row as int]@[col as int].fg_color
                && b == self.viewport@[row as int]@[col as int].bg_color,
    {
        if row < self.viewport.len() && col < self.viewport[row].len() {
            let c = self.viewport[row][col];
            Some((c.fg_color, c.bg_color))
        } else {
            None
        }
    }

    /// Attributes of cell `(row, col)`.
    pub fn get_cell_attributes(&self, row: usize, col: usize) -> (r: Option<CellAttrs>)
        ensures
            r is Some <==> row < self.viewport@.len() && col < self.viewport@[row as int]@.len(),
            r matches Some(a) ==> a == self.viewport@[row as int]@[col as int].attrs,
    {
        if row < self.viewport.len() && col < self.viewport[row].len() {
            Some(self.viewport[row][col].attrs)
        } else {
            None
        }
    }

    /// Cells holding a glyph other than a space or 0, and all cells: the
    /// content density that tints the background; exact while the count of
    /// cells fits in a `usize`.
    pub fn content_counts(&self) -> (r: (usize, usize))
        ensures
            r.0 <= r.1,
            total_cells(rows_view(self.viewport@)) <= usize::MAX ==> r.0 == filled_cells(rows_view(self.viewport@))
                && r.1 == total_cells(rows_view(self.viewport@)),
    {
        let ghost rv = rows_view(self.viewport@);
        let mut filled: usize = 0;
        let mut total: usize = 0;
        let mut i: usize = 0;
        proof {
            assert(rv.subrange(0, 0) =~= Seq::<Seq<RendererCell>>::empty());
        }
        while i < self.viewport.len()
            invariant
                rv == rows_view(self.viewport@),
                filled <= total,
                i <= self.viewport@.len(),
                total_cells(rv.subrange(0, i as int)) <= usize::MAX ==> filled == filled_cells(rv.subrange(0, i as int))
                    && total == total_cells(rv.subrange(0, i as int)),
                total_cells(rv.subrange(0, i as int)) > usize::MAX ==> total == usize::MAX,
            decreases self.viewport@.len() - i,
        {
            let row = &self.viewport[i];
            let ghost f0 = filled;
            let ghost t0 = total;
            let ghost pre = rv.subrange(0, i as int);
            let mut j: usize = 0;
            proof {
                assert(row@.subrange(0, 0) =~= Seq::<RendererCell>::empty());
            }
            while j < row.len()
                invariant
                    filled <= total,
                    j <= row@.len(),
                    t0 == usize::MAX ==> total == usize::MAX,
                    t0 + j <= usize::MAX ==> total == t0 + j && filled == f0 + filled_in(row@.subrange(0, j as int)),
                    t0 + j > usize::MAX ==> total == usize::MAX,
                    filled_in(row@.subrange(0, j as int)) <= j,
                decreases row@.len() - j,
            {
                proof {
                    let p = row@.subrange(0, j + 1);
                    assert(p.drop_last() =~= row@.subrange(0, j as int));
                    assert(p.last() == row@[j as int]);
                }
                if total < usize::MAX {
                    total = total + 1;
                    if row[j].glyph_id != 32 && row[j].glyph_id != 0 {
                        filled = filled + 1;
                    }
                }
                j = j + 1;
            }
            proof {
                assert(row@.subrange(0, row@.len() as int) =~= row@);
                let nx = rv.subrange(0, i + 1);
                assert(nx.drop_last() =~= pre);
                assert(nx.last() == row@);
                lemma_totals_grow(pre);
            }
            i = i + 1;
        }
        assert(rv.subrange(0, rv.len() as int) =~= rv);
        (filled, total)
    }

    /// The rows as text: glyph 0 shows as a space, any other glyph as its
    /// low byte.
    pub fn get_viewport_text(&self) -> (t: Vec<String>)
        ensures
            t@.len() == self.viewport@.len(),
            forall|i: int| 0 <= i < t@.len() ==> (#[trigger] t@[i])@ == self.viewport@[i]@.map_values(
                |c: RendererCell| if c.glyph_id == 0 { ' ' } else { (c.glyph_id as u8) as char },
            ),
    {
        let mut t: Vec<String> = Vec::new();
        let mut i: usize = 0;
        while i < self.viewport.len()
            invariant
                i <= self.viewport@.len(),
                t@.len() == i,
                forall|k: int| 0 <= k < i ==> (#[trigger] t@[k])@ == self.viewport@[k]@.map_values(
                    |c: RendererCell| if c.glyph_id == 0 { ' ' } else { (c.glyph_id as u8) as char },
                ),
            decreases self.viewport@.len() - i,
        {
            let row = &self.viewport[i];
            let mut s = String::new();
            let mut j: usize = 0;
            while j < row.len()
                invariant
                    j <= row@.len(),
                    s@ == row@.subrange(0, j as int).map_values(
                        |c: RendererCell| if c.glyph_id == 0 { ' ' } else { (c.glyph_id as u8) as char },
                    ),
                decreases row@.len() - j,
            {
                let g = row[j].glyph_id;
                let ch = if g == 0 { ' ' } else { (g as u8) as char };
                push_char(&mut s, ch);
                j = j + 1;
                assert(s@ =~= row@.subrange(0, j as int).map_values(
                    |c: RendererCell| if c.glyph_id == 0 { ' ' } else { (c.glyph_id as u8) as char },
                ));
            }
            assert(row@.subrange(0, row@.len() as int) =~= row@);
            t.push(s);
            i = i + 1;
        }
        t
    }
}

} // verus!
