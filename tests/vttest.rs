//! A subset of the VTTest SGR checks, run through the parser's dispatch
//! logic and the grid.

use quantaterm::cell::{CellAttrs, Color};
use quantaterm::grid::TerminalGrid;
use quantaterm::parser::{CsiAction, ParseAction, ParserState};

/// Splits a complete `ESC [ params m` sequence into its parameters and
/// hands it to the state's CSI dispatch, as the byte-level parser does.
fn feed(state: &mut ParserState, seq: &[u8]) -> ParseAction {
    assert_eq!(&seq[..2], b"\x1b[");
    let command = *seq.last().unwrap() as char;
    let body = std::str::from_utf8(&seq[2..seq.len() - 1]).unwrap();
    let params: Vec<u16> = if body.is_empty() {
        vec![]
    } else {
        body.split(';').map(|p| p.parse::<u16>().unwrap_or(0)).collect()
    };
    state.dispatch_csi(params, command)
}

fn run_attrs(cases: &[(&[u8], CellAttrs)]) -> usize {
    let mut state = ParserState::new();
    let mut grid = TerminalGrid::new(80, 24);
    let mut passed = 0;
    for (i, (sequence, expected)) in cases.iter().enumerate() {
        state.reset();
        grid.reset_formatting();
        grid.set_cursor_position(0, i as u16);
        if let ParseAction::CsiDispatch(CsiAction::Sgr(_)) = feed(&mut state, sequence) {
            grid.apply_sgr(state.fg_color, state.bg_color, state.attrs);
        }
        grid.print_char('T');
        if grid.get_cell(0, i as u16).unwrap().attrs == *expected {
            passed += 1;
        }
    }
    passed * 100 / cases.len()
}

fn run_colors(cases: &[(&[u8], Color)]) -> usize {
    let mut state = ParserState::new();
    let mut grid = TerminalGrid::new(80, 24);
    let mut passed = 0;
    for (i, (sequence, expected)) in cases.iter().enumerate() {
        state.reset();
        grid.reset_formatting();
        grid.set_cursor_position(0, i as u16);
        if let ParseAction::CsiDispatch(CsiAction::Sgr(_)) = feed(&mut state, sequence) {
            grid.apply_sgr(state.fg_color, state.bg_color, state.attrs);
        }
        grid.print_char('T');
        if grid.get_cell(0, i as u16).unwrap().fg_color == *expected {
            passed += 1;
        }
    }
    passed * 100 / cases.len()
}

fn attr_cases() -> Vec<(&'static [u8], CellAttrs)> {
    vec![
        (b"\x1b[0m", CellAttrs::empty()),
        (b"\x1b[1m", CellAttrs::bold()),
        (b"\x1b[3m", CellAttrs::italic()),
        (b"\x1b[4m", CellAttrs::underline()),
        (b"\x1b[7m", CellAttrs::reverse()),
        (b"\x1b[9m", CellAttrs::strikethrough()),
        (b"\x1b[1;4m", CellAttrs::bold() | CellAttrs::underline()),
        (b"\x1b[1;3;4m", CellAttrs::bold() | CellAttrs::italic() | CellAttrs::underline()),
    ]
}

fn color_cases() -> Vec<(&'static [u8], Color)> {
    vec![
        (b"\x1b[30m", Color::rgb(0, 0, 0)),
        (b"\x1b[31m", Color::rgb(128, 0, 0)),
        (b"\x1b[32m", Color::rgb(0, 128, 0)),
        (b"\x1b[33m", Color::rgb(128, 128, 0)),
        (b"\x1b[34m", Color::rgb(0, 0, 128)),
        (b"\x1b[35m", Color::rgb(128, 0, 128)),
        (b"\x1b[36m", Color::rgb(0, 128, 128)),
        (b"\x1b[37m", Color::rgb(192, 192, 192)),
        (b"\x1b[90m", Color::rgb(128, 128, 128)),
        (b"\x1b[91m", Color::rgb(255, 0, 0)),
        (b"\x1b[92m", Color::rgb(0, 255, 0)),
        (b"\x1b[93m", Color::rgb(255, 255, 0)),
        (b"\x1b[94m", Color::rgb(0, 0, 255)),
        (b"\x1b[95m", Color::rgb(255, 0, 255)),
        (b"\x1b[96m", Color::rgb(0, 255, 255)),
        (b"\x1b[97m", Color::rgb(255, 255, 255)),
    ]
}

#[test]
fn vttest_sgr_basic_attributes() {
    assert!(run_attrs(&attr_cases()) >= 90);
}

#[test]
fn vttest_sgr_colors() {
    assert!(run_colors(&color_cases()) >= 90);
}

#[test]
fn vttest_comprehensive() {
    assert!(run_attrs(&attr_cases()) >= 90);
    assert!(run_colors(&color_cases()) >= 90);
}
