//! Cursor-control sequences as the grid receives them.

use vstd::prelude::*;

verus! {

/// A CSI sequence as the grid acts on it.
#[derive(Debug, Clone)]
pub enum CsiAction {
    /// Select Graphic Rendition with its parameters.
    Sgr(Vec<u16>),
    /// Cursor up by this many rows.
    CursorUp(u16),
    /// Cursor down by this many rows.
    CursorDown(u16),
    /// Cursor right by this many columns.
    CursorForward(u16),
    /// Cursor left by this many columns.
    CursorBackward(u16),
    /// Start of the line this many rows down.
    CursorNextLine(u16),
    /// Start of the line this many rows up.
    CursorPreviousLine(u16),
    /// To this column (0-based).
    CursorHorizontalAbsolute(u16),
    /// To this row and column (0-based).
    CursorPosition(u16, u16),
    /// Any other command.
    Other {
        /// The final character.
        command: char,
        /// The parameters.
        params: Vec<u16>,
    },
}

/// The parameter at `i`, or `d` when it is missing or 0.
pub open spec fn param_or(p: Seq<u16>, i: int, d: u16) -> u16 {
    if i < p.len() && p[i] != 0 { p[i] } else { d }
}

/// A 1-based position parameter turned 0-based; missing or 0 means the
/// first.
pub open spec fn position_param(p: Seq<u16>, i: int) -> u16 {
    (param_or(p, i, 1) - 1) as u16
}

/// Whether `a` is the action of a CSI sequence with final character
/// `command` and wire parameters `params`.
pub open spec fn wire_action(command: char, params: Seq<u16>, a: CsiAction) -> bool {
    &&& command == 'A' ==> a == CsiAction::CursorUp(param_or(params, 0, 1))
    &&& command == 'B' ==> a == CsiAction::CursorDown(param_or(params, 0, 1))
    &&& command == 'C' ==> a == CsiAction::CursorForward(param_or(params, 0, 1))
    &&& command == 'D' ==> a == CsiAction::CursorBackward(param_or(params, 0, 1))
    &&& command == 'E' ==> a == CsiAction::CursorNextLine(param_or(params, 0, 1))
    &&& command == 'F' ==> a == CsiAction::CursorPreviousLine(param_or(params, 0, 1))
    &&& command == 'G' ==> a == CsiAction::CursorHorizontalAbsolute(position_param(params, 0))
    &&& command == 'H' || command == 'f' ==> a == CsiAction::CursorPosition(position_param(params, 0), position_param(params, 1))
    &&& command == 'm' ==> (a matches CsiAction::Sgr(p) && p@ == params)
    &&& !(command == 'A' || command == 'B' || command == 'C' || command == 'D' || command == 'E' || command == 'F'
        || command == 'G' || command == 'H' || command == 'f' || command == 'm')
        ==> (a matches CsiAction::Other { command: c, params: p } && c == command && p@ == params)
}

/// The parameter at `i`, or `d` when it is missing or 0.
fn param_at(params: &Vec<u16>, i: usize, d: u16) -> (r: u16)
    ensures
        r == param_or(params@, i as int, d),
{
    if i < params.len() && params[i] != 0 { params[i] } else { d }
}

impl CsiAction {
    /// The action of a CSI sequence with final character `command` and
    /// parameters `params` as they came on the wire: `A` to `D`, `E`, `F`
    /// move by a count (missing or 0 means 1); `G` and `H`/`f` take 1-based
    /// positions, made 0-based; `m` is SGR; anything else is passed on.
    pub fn from_wire(command: char, params: Vec<u16>) -> (a: CsiAction)
        ensures
            wire_action(command, params@, a),
    {
        if command == 'A' {
            CsiAction::CursorUp(param_at(&params, 0, 1))
        } else if command == 'B' {
            CsiAction::CursorDown(param_at(&params, 0, 1))
        } else if command == 'C' {
            CsiAction::CursorForward(param_at(&params, 0, 1))
        } else if command == 'D' {
            CsiAction::CursorBackward(param_at(&params, 0, 1))
        } else if command == 'E' {
            CsiAction::CursorNextLine(param_at(&params, 0, 1))
        } else if command == 'F' {
            CsiAction::CursorPreviousLine(param_at(&params, 0, 1))
        } else if command == 'G' {
            CsiAction::CursorHorizontalAbsolute(param_at(&params, 0, 1) - 1)
        } else if command == 'H' || command == 'f' {
            let row = param_at(&params, 0, 1) - 1;
            let col = param_at(&params, 1, 1) - 1;
            CsiAction::CursorPosition(row, col)
        } else if command == 'm' {
            CsiAction::Sgr(params)
        } else {
            CsiAction::Other { command, params }
        }
    }
}

} // verus!
