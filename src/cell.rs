//! Value types for a styled grid cell: colors, attribute flags, cells,
//! positions and selections.

use vstd::prelude::*;

verus! {

/// An RGBA color.
#[derive(Debug, Clone, Copy, PartialEq, Eq, Structural)]
pub struct Color {
    /// Red component.
    pub r: u8,
    /// Green component.
    pub g: u8,
    /// Blue component.
    pub b: u8,
    /// Alpha component.
    pub a: u8,
}

impl Color {
    /// Opaque white.
    pub open spec fn spec_white() -> Color {
        Color { r: 255, g: 255, b: 255, a: 255 }
    }

    /// Opaque black.
    pub open spec fn spec_black() -> Color {
        Color { r: 0, g: 0, b: 0, a: 255 }
    }

    /// Opaque black.
    pub fn black() -> (c: Color)
        ensures
            c == Color::spec_black(),
    {
        Color { r: 0, g: 0, b: 0, a: 255 }
    }

    /// Opaque white.
    pub fn white() -> (c: Color)
        ensures
            c == Color::spec_white(),
    {
        Color { r: 255, g: 255, b: 255, a: 255 }
    }

    /// The default foreground color: opaque white.
    pub fn default_fg() -> (c: Color)
        ensures
            c == Color::spec_white(),
    {
        Color::white()
    }

    /// The default background color: opaque black.
    pub fn default_bg() -> (c: Color)
        ensures
            c == Color::spec_black(),
    {
        Color::black()
    }

    /// Creates a color from its four components.
    pub fn new(r: u8, g: u8, b: u8, a: u8) -> (c: Color)
        ensures
            c == (Color { r, g, b, a }),
    {
        Color { r, g, b, a }
    }

    /// Creates an opaque color.
    pub fn rgb(r: u8, g: u8, b: u8) -> (c: Color)
        ensures
            c == (Color { r, g, b, a: 255 }),
    {
        Color::new(r, g, b, 255)
    }
}

impl Default for Color {
    fn default() -> (c: Color)
        ensures
            c == Color::spec_black(),
    {
        Color::black()
    }
}

/// Attribute flags of a cell, as a bit set.
#[derive(Debug, Clone, Copy, PartialEq, Eq, Structural)]
pub struct CellAttrs {
    /// The raw flag bits.
    pub bits: u32,
}

/// Bit of the bold flag.
pub const BOLD_BIT: u32 = 1;

/// Bit of the italic flag.
pub const ITALIC_BIT: u32 = 2;

/// Bit of the underline flag.
pub const UNDERLINE_BIT: u32 = 4;

/// Bit of the strikethrough flag.
pub const STRIKETHROUGH_BIT: u32 = 8;

/// Bit of the blink flag.
pub const BLINK_BIT: u32 = 16;

/// Bit of the reverse-video flag.
pub const REVERSE_BIT: u32 = 32;

/// Bit of the hidden flag.
pub const HIDDEN_BIT: u32 = 64;

impl CellAttrs {
    /// Whether every flag of `other` is set in `self`.
    pub open spec fn has(self, other: CellAttrs) -> bool {
        self.bits & other.bits == other.bits
    }

    /// The set with no flag.
    pub fn empty() -> (r: CellAttrs)
        ensures
            r.bits == 0,
    {
        CellAttrs { bits: 0 }
    }

    /// The bold flag alone.
    pub fn bold() -> (r: CellAttrs)
        ensures
            r.bits == BOLD_BIT,
    {
        CellAttrs { bits: BOLD_BIT }
    }

    /// The italic flag alone.
    pub fn italic() -> (r: CellAttrs)
        ensures
            r.bits == ITALIC_BIT,
    {
        CellAttrs { bits: ITALIC_BIT }
    }

    /// The underline flag alone.
    pub fn underline() -> (r: CellAttrs)
        ensures
            r.bits == UNDERLINE_BIT,
    {
        CellAttrs { bits: UNDERLINE_BIT }
    }

    /// The strikethrough flag alone.
    pub fn strikethrough() -> (r: CellAttrs)
        ensures
            r.bits == STRIKETHROUGH_BIT,
    {
        CellAttrs { bits: STRIKETHROUGH_BIT }
    }

    /// The blink flag alone.
    pub fn blink() -> (r: CellAttrs)
        ensures
            r.bits == BLINK_BIT,
    {
        CellAttrs { bits: BLINK_BIT }
    }

    /// The reverse-video flag alone.
    pub fn reverse() -> (r: CellAttrs)
        ensures
            r.bits == REVERSE_BIT,
    {
        CellAttrs { bits: REVERSE_BIT }
    }

    /// The hidden flag alone.
    pub fn hidden() -> (r: CellAttrs)
        ensures
            r.bits == HIDDEN_BIT,
    {
        CellAttrs { bits: HIDDEN_BIT }
    }

    /// The raw flag bits.
    pub fn bits(&self) -> (r: u32)
        ensures
            r == self.bits,
    {
        self.bits
    }

    /// Whether no flag is set.
    pub fn is_empty(&self) -> (r: bool)
        ensures
            r == (self.bits == 0),
    {
        self.bits == 0
    }

    /// Whether every flag of `other` is set here.
    pub fn contains(&self, other: CellAttrs) -> (r: bool)
        ensures
            r == self.has(other),
    {
        self.bits & other.bits == other.bits
    }

    /// The flags set in either operand.
    pub fn union(self, other: CellAttrs) -> (r: CellAttrs)
        ensures
            r.bits == self.bits | other.bits,
    {
        CellAttrs { bits: self.bits | other.bits }
    }

    /// Sets the flags of `other`.
    pub fn insert(&mut self, other: CellAttrs)
        ensures
            final(self).bits == old(self).bits | other.bits,
    {
        self.bits = self.bits | other.bits;
    }

    /// Clears the flags of `other`.
    pub fn remove(&mut self, other: CellAttrs)
        ensures
            final(self).bits == old(self).bits & !other.bits,
    {
        self.bits = self.bits & !other.bits;
    }
}

impl Default for CellAttrs {
    fn default() -> (r: CellAttrs)
        ensures
            r.bits == 0,
    {
        CellAttrs::empty()
    }
}

impl std::ops::BitOr for CellAttrs {
    type Output = CellAttrs;

    fn bitor(self, other: CellAttrs) -> (r: CellAttrs)
        ensures
            r.bits == self.bits | other.bits,
    {
        self.union(other)
    }
}

impl vstd::std_specs::ops::BitOrSpecImpl for CellAttrs {
    open spec fn obeys_bitor_spec() -> bool {
        true
    }

    open spec fn bitor_req(self, other: CellAttrs) -> bool {
        true
    }

    open spec fn bitor_spec(self, other: CellAttrs) -> CellAttrs {
        CellAttrs { bits: self.bits | other.bits }
    }
}

/// The code point of a space.
pub const SPACE: u32 = 32;

/// A grid cell: a glyph with its colors and attributes.
#[derive(Debug, Clone, Copy, PartialEq, Eq, Structural)]
pub struct Cell {
    /// The glyph's code point.
    pub glyph_id: u32,
    /// Foreground color.
    pub fg_color: Color,
    /// Background color.
    pub bg_color: Color,
    /// Formatting attributes.
    pub attrs: CellAttrs,
}

impl Cell {
    /// The empty cell: a space with default colors and no attribute.
    pub open spec fn blank() -> Cell {
        Cell {
            glyph_id: SPACE,
            fg_color: Color::spec_white(),
            bg_color: Color::spec_black(),
            attrs: CellAttrs { bits: 0 },
        }
    }

    /// Whether this cell is a space with default colors and no attribute.
    pub open spec fn is_blank(self) -> bool {
        self == Cell::blank()
    }

    /// A cell holding `glyph_id` with the default style.
    pub fn new(glyph_id: u32) -> (c: Cell)
        ensures
            c == (Cell { glyph_id, ..Cell::blank() }),
    {
        Cell {
            glyph_id,
            fg_color: Color::default_fg(),
            bg_color: Color::default_bg(),
            attrs: CellAttrs::empty(),
        }
    }

    /// A cell with the given glyph, colors and attributes.
    pub fn with_style(glyph_id: u32, fg_color: Color, bg_color: Color, attrs: CellAttrs) -> (c: Cell)
        ensures
            c == (Cell { glyph_id, fg_color, bg_color, attrs }),
    {
        Cell { glyph_id, fg_color, bg_color, attrs }
    }

    /// The empty cell.
    pub fn empty() -> (c: Cell)
        ensures
            c == Cell::blank(),
    {
        Cell::new(SPACE)
    }

    /// Whether this cell is a space with default colors and no attribute.
    pub fn is_empty(&self) -> (r: bool)
        ensures
            r == self.is_blank(),
    {
        self.glyph_id == SPACE && self.fg_color == Color::default_fg() && self.bg_color
            == Color::default_bg() && self.attrs.bits == 0
    }
}

impl Default for Cell {
    fn default() -> (c: Cell)
        ensures
            c == Cell::blank(),
    {
        Cell::empty()
    }
}

/// A grid position: column and row, ordered by row and then by column.
#[derive(Debug, Clone, Copy, PartialEq, Eq, Structural)]
pub struct Position {
    /// Column (0-based).
    pub col: u16,
    /// Row (0-based, relative to the viewport).
    pub row: u16,
}

/// Whether `a` comes no later than `b` in reading order.
pub open spec fn pos_le(a: Position, b: Position) -> bool {
    a.row < b.row || (a.row == b.row && a.col <= b.col)
}

/// The ordering of `a` against `b` in reading order.
pub open spec fn pos_cmp(a: Position, b: Position) -> std::cmp::Ordering {
    if a.row < b.row || (a.row == b.row && a.col < b.col) {
        std::cmp::Ordering::Less
    } else if a.row == b.row && a.col == b.col {
        std::cmp::Ordering::Equal
    } else {
        std::cmp::Ordering::Greater
    }
}

impl Position {
    /// Creates a position.
    pub fn new(col: u16, row: u16) -> (p: Position)
        ensures
            p == (Position { col, row }),
    {
        Position { col, row }
    }

    /// Whether `self` comes no later than `other` in reading order.
    pub fn precedes_or_equals(&self, other: &Position) -> (r: bool)
        ensures
            r == pos_le(*self, *other),
    {
        self.row < other.row || (self.row == other.row && self.col <= other.col)
    }
}

impl PartialOrd for Position {
    fn partial_cmp(&self, other: &Position) -> (r: Option<std::cmp::Ordering>)
        ensures
            r == Some(pos_cmp(*self, *other)),
    {
        if self.row < other.row || (self.row == other.row && self.col < other.col) {
            Some(std::cmp::Ordering::Less)
        } else if self.row == other.row && self.col == other.col {
            Some(std::cmp::Ordering::Equal)
        } else {
            Some(std::cmp::Ordering::Greater)
        }
    }
}

impl vstd::std_specs::cmp::PartialOrdSpecImpl for Position {
    open spec fn obeys_partial_cmp_spec() -> bool {
        true
    }

    open spec fn partial_cmp_spec(&self, other: &Position) -> Option<std::cmp::Ordering> {
        Some(pos_cmp(*self, *other))
    }
}

/// A selection between two positions, both included, with `start` no
/// later than `end`.
#[derive(Debug, Clone, Copy, PartialEq, Eq, Structural)]
pub struct Selection {
    /// First selected position.
    pub start: Position,
    /// Last selected position.
    pub end: Position,
}

impl Selection {
    /// Whether the endpoints are in order.
    pub open spec fn wf(self) -> bool {
        pos_le(self.start, self.end)
    }

    /// The selection from `a` to `b` with its endpoints put in order.
    pub open spec fn spec_new(a: Position, b: Position) -> Selection {
        if pos_le(a, b) {
            Selection { start: a, end: b }
        } else {
            Selection { start: b, end: a }
        }
    }

    /// Whether `p` lies between the endpoints.
    pub open spec fn spec_contains(self, p: Position) -> bool {
        pos_le(self.start, p) && pos_le(p, self.end)
    }

    /// Creates the selection between `a` and `b`, whichever comes first.
    pub fn new(a: Position, b: Position) -> (s: Selection)
        ensures
            s == Selection::spec_new(a, b),
            s.wf(),
    {
        if a.precedes_or_equals(&b) {
            Selection { start: a, end: b }
        } else {
            Selection { start: b, end: a }
        }
    }

    /// Whether `pos` lies within the selection.
    pub fn contains(&self, pos: Position) -> (r: bool)
        ensures
            r == self.spec_contains(pos),
    {
        self.start.precedes_or_equals(&pos) && pos.precedes_or_equals(&self.end)
    }

    /// Whether the selection spans more than one row.
    pub fn is_multiline(&self) -> (r: bool)
        ensures
            r == (self.start.row != self.end.row),
    {
        self.start.row != self.end.row
    }

    /// The endpoints, first one first.
    pub fn normalized(&self) -> (r: (Position, Position))
        ensures
            r == (self.start, self.end),
    {
        (self.start, self.end)
    }
}

} // verus!
