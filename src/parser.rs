//! The SGR state machine of the escape-sequence parser, the 256-color
//! palette, and the actions that the parser hands on.

use vstd::prelude::*;
use crate::cell::{
    BLINK_BIT, BOLD_BIT, CellAttrs, Color, ITALIC_BIT, REVERSE_BIT, STRIKETHROUGH_BIT,
    UNDERLINE_BIT,
};

verus! {

/// What the parser makes of its input, in order.
#[derive(Debug, Clone)]
pub enum ParseAction {
    /// A printable character.
    Print(char),
    /// A C0 control byte.
    Execute(u8),
    /// A complete CSI sequence.
    CsiDispatch(CsiAction),
    /// A complete escape sequence.
    EscDispatch(EscAction),
    /// An OSC string, as its raw parameters.
    OscDispatch(Vec<Vec<u8>>),
}

/// A CSI sequence: SGR, or any other command with its parameters.
#[derive(Debug, Clone)]
pub enum CsiAction {
    /// Select Graphic Rendition with its parameters.
    Sgr(Vec<u16>),
    /// Any other command.
    Other {
        /// The final character.
        command: char,
        /// The parameters.
        params: Vec<u16>,
    },
}

/// An escape sequence: full reset, or any other final byte.
#[derive(Debug, Clone, Copy, PartialEq, Eq, Structural)]
pub enum EscAction {
    /// Reset to the initial state (RIS).
    Reset,
    /// Any other escape sequence, by its final byte.
    Other(char),
}

/// The formatting that the parser tracks: colors and attributes.
#[derive(Debug, Clone, Copy, PartialEq, Eq, Structural)]
pub struct ParserState {
    /// Foreground color.
    pub fg_color: Color,
    /// Background color.
    pub bg_color: Color,
    /// Attributes.
    pub attrs: CellAttrs,
}

/// The formatting a parser starts with: default colors, no attribute.
pub open spec fn initial_state() -> ParserState {
    ParserState { fg_color: Color::spec_white(), bg_color: Color::spec_black(), attrs: CellAttrs { bits: 0 } }
}

/// The opaque color with the given components.
pub open spec fn rgb(r: u8, g: u8, b: u8) -> Color {
    Color { r, g, b, a: 255 }
}

/// The eight standard colors; white past them.
pub open spec fn spec_standard_color(index: u16) -> Color {
    if index == 0 {
        rgb(0, 0, 0)
    } else if index == 1 {
        rgb(128, 0, 0)
    } else if index == 2 {
        rgb(0, 128, 0)
    } else if index == 3 {
        rgb(128, 128, 0)
    } else if index == 4 {
        rgb(0, 0, 128)
    } else if index == 5 {
        rgb(128, 0, 128)
    } else if index == 6 {
        rgb(0, 128, 128)
    } else if index == 7 {
        rgb(192, 192, 192)
    } else {
        Color::spec_white()
    }
}

/// The eight bright colors; white past them.
pub open spec fn spec_bright_color(index: u16) -> Color {
    if index == 0 {
        rgb(128, 128, 128)
    } else if index == 1 {
        rgb(255, 0, 0)
    } else if index == 2 {
        rgb(0, 255, 0)
    } else if index == 3 {
        rgb(255, 255, 0)
    } else if index == 4 {
        rgb(0, 0, 255)
    } else if index == 5 {
        rgb(255, 0, 255)
    } else if index == 6 {
        rgb(0, 255, 255)
    } else if index == 7 {
        rgb(255, 255, 255)
    } else {
        Color::spec_white()
    }
}

/// The 256-color palette: standard, bright, a 6x6x6 cube with step 51,
/// then a gray ramp from 8 in steps of 10; white past it.
pub open spec fn spec_color_256(index: u16) -> Color {
    if index < 8 {
        spec_standard_color(index)
    } else if index < 16 {
        spec_bright_color((index - 8) as u16)
    } else if index < 232 {
        let k = index - 16;
        rgb((k / 36 * 51) as u8, (k % 36 / 6 * 51) as u8, (k % 6 * 51) as u8)
    } else if index < 256 {
        let v = 8 + (index - 232) * 10;
        rgb(v as u8, v as u8, v as u8)
    } else {
        Color::spec_white()
    }
}

/// `v` clamped to a color channel.
pub open spec fn channel(v: u16) -> u8 {
    if v > 255 { 255 } else { v as u8 }
}

/// The color that an extended-color parameter run starting at `i` (a 38 or
/// 48) selects, with how many parameters after `i` it uses: `5;N` picks
/// from the palette, `2;R;G;B` gives the channels, clamped.
pub open spec fn spec_extended_color(p: Seq<u16>, i: int) -> Option<(Color, nat)> {
    if p.len() - i < 2 {
        None
    } else if p[i + 1] == 5 {
        if p.len() - i < 3 {
            None
        } else {
            Some((spec_color_256(p[i + 2]), 2))
        }
    } else if p[i + 1] == 2 {
        if p.len() - i < 5 {
            None
        } else {
            Some((rgb(channel(p[i + 2]), channel(p[i + 3]), channel(p[i + 4])), 4))
        }
    } else {
        None
    }
}

/// `st` with the flags of `bit` set.
pub open spec fn set_flag(st: ParserState, bit: u32) -> ParserState {
    ParserState { attrs: CellAttrs { bits: st.attrs.bits | bit }, ..st }
}

/// `st` with the flags of `bit` cleared.
pub open spec fn clear_flag(st: ParserState, bit: u32) -> ParserState {
    ParserState { attrs: CellAttrs { bits: st.attrs.bits & !bit }, ..st }
}

/// The effect of SGR parameter `p[i]` on `st`, with how many parameters
/// after it that it uses.
pub open spec fn sgr_step(st: ParserState, p: Seq<u16>, i: int) -> (ParserState, nat) {
    let v = p[i];
    if v == 0 {
        (initial_state(), 0)
    } else if v == 1 {
        (set_flag(st, BOLD_BIT), 0)
    } else if v == 22 {
        (clear_flag(st, BOLD_BIT), 0)
    } else if v == 3 {
        (set_flag(st, ITALIC_BIT), 0)
    } else if v == 23 {
        (clear_flag(st, ITALIC_BIT), 0)
    } else if v == 4 {
        (set_flag(st, UNDERLINE_BIT), 0)
    } else if v == 24 {
        (clear_flag(st, UNDERLINE_BIT), 0)
    } else if v == 5 {
        (set_flag(st, BLINK_BIT), 0)
    } else if v == 25 {
        (clear_flag(st, BLINK_BIT), 0)
    } else if v == 7 {
        (set_flag(st, REVERSE_BIT), 0)
    } else if v == 27 {
        (clear_flag(st, REVERSE_BIT), 0)
    } else if v == 9 {
        (set_flag(st, STRIKETHROUGH_BIT), 0)
    } else if v == 29 {
        (clear_flag(st, STRIKETHROUGH_BIT), 0)
    } else if 30 <= v <= 37 {
        (ParserState { fg_color: spec_standard_color((v - 30) as u16), ..st }, 0)
    } else if v == 38 {
        match spec_extended_color(p, i) {
            Some((c, n)) => (ParserState { fg_color: c, ..st }, n),
            None => (st, 0),
        }
    } else if v == 39 {
        (ParserState { fg_color: Color::spec_white(), ..st }, 0)
    } else if 40 <= v <= 47 {
        (ParserState { bg_color: spec_standard_color((v - 40) as u16), ..st }, 0)
    } else if v == 48 {
        match spec_extended_color(p, i) {
            Some((c, n)) => (ParserState { bg_color: c, ..st }, n),
            None => (st, 0),
        }
    } else if v == 49 {
        (ParserState { bg_color: Color::spec_black(), ..st }, 0)
    } else if 90 <= v <= 97 {
        (ParserState { fg_color: spec_bright_color((v - 90) as u16), ..st }, 0)
    } else if 100 <= v <= 107 {
        (ParserState { bg_color: spec_bright_color((v - 100) as u16), ..st }, 0)
    } else {
        (st, 0)
    }
}

/// `st` after the SGR parameters of `p` from index `i` on.
pub open spec fn sgr_from(st: ParserState, p: Seq<u16>, i: int) -> ParserState
    decreases p.len() - i,
{
    if i < 0 || i >= p.len() {
        st
    } else {
        let (next, used) = sgr_step(st, p, i);
        sgr_from(next, p, i + 1 + used)
    }
}

/// `st` after the SGR parameters `p`.
pub open spec fn sgr_apply(st: ParserState, p: Seq<u16>) -> ParserState {
    sgr_from(st, p, 0)
}

/// The color of standard index `index` (0 to 7); white past them.
pub fn standard_color(index: u16) -> (c: Color)
    ensures
        c == spec_standard_color(index),
{
    match index {
        0 => Color::rgb(0, 0, 0),
        1 => Color::rgb(128, 0, 0),
        2 => Color::rgb(0, 128, 0),
        3 => Color::rgb(128, 128, 0),
        4 => Color::rgb(0, 0, 128),
        5 => Color::rgb(128, 0, 128),
        6 => Color::rgb(0, 128, 128),
        7 => Color::rgb(192, 192, 192),
        _ => Color::default_fg(),
    }
}

/// The color of bright index `index` (0 to 7); white past them.
pub fn bright_color(index: u16) -> (c: Color)
    ensures
        c == spec_bright_color(index),
{
    match index {
        0 => Color::rgb(128, 128, 128),
        1 => Color::rgb(255, 0, 0),
        2 => Color::rgb(0, 255, 0),
        3 => Color::rgb(255, 255, 0),
        4 => Color::rgb(0, 0, 255),
        5 => Color::rgb(255, 0, 255),
        6 => Color::rgb(0, 255, 255),
        7 => Color::rgb(255, 255, 255),
        _ => Color::default_fg(),
    }
}

/// The palette color of `index`.
pub fn color_256(index: u16) -> (c: Color)
    ensures
        c == spec_color_256(index),
{
    if index < 8 {
        standard_color(index)
    } else if index < 16 {
        bright_color(index - 8)
    } else if index < 232 {
        let k = index - 16;
        Color::rgb((k / 36 * 51) as u8, (k % 36 / 6 * 51) as u8, (k % 6 * 51) as u8)
    } else if index < 256 {
        let v = 8 + (index - 232) * 10;
        Color::rgb(v as u8, v as u8, v as u8)
    } else {
        Color::default_fg()
    }
}

/// `v` clamped to a color channel.
fn clamp_channel(v: u16) -> (c: u8)
    ensures
        c == channel(v),
{
    if v > 255 { 255 } else { v as u8 }
}

/// The color that the extended-color run at `params[at]` selects, with how
/// many parameters after it that it uses.
pub fn parse_extended_color(params: &[u16], at: usize) -> (r: Option<(Color, usize)>)
    requires
        at < params@.len(),
    ensures
        r == (match spec_extended_color(params@, at as int) {
            Some((c, n)) => Some((c, n as usize)),
            None => None,
        }),
{
    let left = params.len() - at;
    if left < 2 {
        return None;
    }
    if params[at + 1] == 5 {
        if left < 3 {
            return None;
        }
        Some((color_256(params[at + 2]), 2))
    } else if params[at + 1] == 2 {
        if left < 5 {
            return None;
        }
        let r = clamp_channel(params[at + 2]);
        let g = clamp_channel(params[at + 3]);
        let b = clamp_channel(params[at + 4]);
        Some((Color::rgb(r, g, b), 4))
    } else {
        None
    }
}

impl Default for ParserState {
    fn default() -> (s: ParserState)
        ensures
            s == initial_state(),
    {
        ParserState::new()
    }
}

impl ParserState {
    /// The initial formatting: default colors, no attribute.
    pub fn new() -> (s: ParserState)
        ensures
            s == initial_state(),
    {
        ParserState { fg_color: Color::default_fg(), bg_color: Color::default_bg(), attrs: CellAttrs::empty() }
    }

    /// Returns to the initial formatting.
    pub fn reset(&mut self)
        ensures
            *final(self) == initial_state(),
    {
        self.fg_color = Color::default_fg();
        self.bg_color = Color::default_bg();
        self.attrs = CellAttrs::empty();
    }

    /// Applies the SGR parameter at `params[i]`; returns how many of the
    /// parameters after it it used.
    fn apply_one(&mut self, params: &[u16], i: usize) -> (used: usize)
        requires
            i < params@.len(),
        ensures
            (*final(self), used as nat) == sgr_step(*old(self), params@, i as int),
            i + used < params@.len(),
    {
        let v = params[i];
        if v == 0 {
            self.reset();
        } else if v == 1 {
            self.attrs.insert(CellAttrs::bold());
        } else if v == 22 {
            self.attrs.remove(CellAttrs::bold());
        } else if v == 3 {
            self.attrs.insert(CellAttrs::italic());
        } else if v == 23 {
            self.attrs.remove(CellAttrs::italic());
        } else if v == 4 {
            self.attrs.insert(CellAttrs::underline());
        } else if v == 24 {
            self.attrs.remove(CellAttrs::underline());
        } else if v == 5 {
            self.attrs.insert(CellAttrs::blink());
        } else if v == 25 {
            self.attrs.remove(CellAttrs::blink());
        } else if v == 7 {
            self.attrs.insert(CellAttrs::reverse());
        } else if v == 27 {
            self.attrs.remove(CellAttrs::reverse());
        } else if v == 9 {
            self.attrs.insert(CellAttrs::strikethrough());
        } else if v == 29 {
            self.attrs.remove(CellAttrs::strikethrough());
        } else if 30 <= v && v <= 37 {
            self.fg_color = standard_color(v - 30);
        } else if v == 38 {
            match parse_extended_color(params, i) {
                Some((c, n)) => {
                    self.fg_color = c;
                    return n;
                },
                None => {},
            }
        } else if v == 39 {
            self.fg_color = Color::default_fg();
        } else if 40 <= v && v <= 47 {
            self.bg_color = standard_color(v - 40);
        } else if v == 48 {
            match parse_extended_color(params, i) {
                Some((c, n)) => {
                    self.bg_color = c;
                    return n;
                },
                None => {},
            }
        } else if v == 49 {
            self.bg_color = Color::default_bg();
        } else if 90 <= v && v <= 97 {
            self.fg_color = bright_color(v - 90);
        } else if 100 <= v && v <= 107 {
            self.bg_color = bright_color(v - 100);
        }
        0
    }

    /// Applies the SGR parameters `params` in order: attribute flags on and
    /// off, standard, bright, palette and direct colors, and resets.
    pub fn apply_sgr(&mut self, params: &[u16])
        ensures
            *final(self) == sgr_apply(*old(self), params@),
    {
        let mut i: usize = 0;
        while i < params.len()
            invariant
                i <= params@.len(),
                sgr_from(*self, params@, i as int) == sgr_from(*old(self), params@, 0),
            decreases params@.len() - i,
        {
            let used = self.apply_one(params, i);
            i = i + 1 + used;
        }
    }

    /// The logic of a complete CSI sequence: an SGR (`m`) updates the
    /// formatting; every sequence becomes one action.
    pub fn dispatch_csi(&mut self, params: Vec<u16>, command: char) -> (a: ParseAction)
        ensures
            command == 'm' ==> *final(self) == sgr_apply(*old(self), params@),
            command == 'm' ==> (a matches ParseAction::CsiDispatch(CsiAction::Sgr(p)) && p@ == params@),
            command != 'm' ==> *final(self) == *old(self),
            command != 'm' ==> (a matches ParseAction::CsiDispatch(CsiAction::Other { command: c, params: p })
                && c == command && p@ == params@),
    {
        if command == 'm' {
            self.apply_sgr(params.as_slice());
            ParseAction::CsiDispatch(CsiAction::Sgr(params))
        } else {
            ParseAction::CsiDispatch(CsiAction::Other { command, params })
        }
    }

    /// The logic of a complete escape sequence: `c` (RIS) resets the
    /// formatting; every sequence becomes one action.
    pub fn dispatch_esc(&mut self, byte: u8) -> (a: ParseAction)
        ensures
            byte == 99 ==> *final(self) == initial_state() && a == ParseAction::EscDispatch(EscAction::Reset),
            byte != 99 ==> *final(self) == *old(self) && a == ParseAction::EscDispatch(EscAction::Other(byte as char)),
    {
        if byte == 99 {
            self.reset();
            ParseAction::EscDispatch(EscAction::Reset)
        } else {
            ParseAction::EscDispatch(EscAction::Other(byte as char))
        }
    }
}

/// An SGR reset (parameter 0) returns any formatting to the initial one.
pub proof fn lemma_sgr_reset(st: ParserState)
    ensures
        sgr_apply(st, seq![0u16]) == initial_state(),
{
    reveal_with_fuel(sgr_from, 2);
}

} // verus!
