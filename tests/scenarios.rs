//! End-to-end scenarios across the parser state, the grid and the plugin
//! registry, and the smaller pieces.

use quantaterm::actions::{Action, ActionRegistry};
use quantaterm::cell::{Cell, CellAttrs, Color, Position};
use quantaterm::components::{PtyCommand, PtyEvent, RendererColor, VERSION};
use quantaterm::font::{build_fallback_chain, first_covering_font};
use quantaterm::session::{default_shell, output_events, session_step, SessionAction, SessionInput, SessionState};
use quantaterm::control::CsiAction;
use quantaterm::grid::TerminalGrid;
use quantaterm::parser::{bright_color, color_256, parse_extended_color, standard_color, CsiAction as ParsedCsi, ParseAction, ParserState};

fn feed_sgr(state: &mut ParserState, grid: &mut TerminalGrid, params: &[u16]) {
    state.apply_sgr(params);
    grid.apply_sgr(state.fg_color, state.bg_color, state.attrs);
}

fn label_row(text: &str, cols: usize) -> Vec<Cell> {
    let mut row: Vec<Cell> = text.chars().map(|c| Cell::new(c as u32)).collect();
    row.resize(cols, Cell::empty());
    row
}

fn row_text(grid: &TerminalGrid, row: u16) -> String {
    (0..grid.cols)
        .map(|c| char::from_u32(grid.get_cell(c, row).unwrap().glyph_id).unwrap())
        .collect()
}

#[test]
fn test_version_info() {
    assert_eq!(VERSION, "0.1.0");
}

#[test]
fn test_renderer_module_exists() {
    let c = RendererColor::rgb(1, 2, 3);
    assert_eq!(c, RendererColor::new(1, 2, 3, 255));
}

#[test]
fn test_pty_event_handling() {
    let event_data = PtyEvent::Data(b"Hello World\n".to_vec());
    let event_exit = PtyEvent::ProcessExit(0);
    let event_error = PtyEvent::Error("Test error".to_string());

    match event_data {
        PtyEvent::Data(data) => {
            let text = String::from_utf8(data).unwrap();
            assert!(text.contains("Hello World"));
        }
        _ => panic!("Expected Data event"),
    }

    match event_exit {
        PtyEvent::ProcessExit(code) => assert_eq!(code, 0),
        _ => panic!("Expected ProcessExit event"),
    }

    match event_error {
        PtyEvent::Error(err) => assert_eq!(err, "Test error"),
        _ => panic!("Expected Error event"),
    }
}

#[test]
fn sgr_bold_red_then_reset_styles_cells() {
    let mut state = ParserState::new();
    let mut grid = TerminalGrid::new(10, 3);
    feed_sgr(&mut state, &mut grid, &[1, 31]);
    for c in "Red".chars() {
        grid.print_char(c);
    }
    feed_sgr(&mut state, &mut grid, &[0]);
    grid.print_char(' ');
    grid.print_char('X');
    for col in 0..3 {
        let cell = grid.get_cell(col, 0).unwrap();
        assert_eq!(cell.fg_color, Color::rgb(128, 0, 0));
        assert!(cell.attrs.contains(CellAttrs::bold()));
    }
    let space = grid.get_cell(3, 0).unwrap();
    assert!(space.is_empty());
    assert_eq!(grid.get_cell(4, 0).unwrap().glyph_id, 'X' as u32);
    assert_eq!(grid.get_cell(4, 0).unwrap().fg_color, Color::default_fg());
}

#[test]
fn palette_index_196_is_pure_red() {
    let mut state = ParserState::new();
    let mut grid = TerminalGrid::new(10, 3);
    feed_sgr(&mut state, &mut grid, &[38, 5, 196]);
    grid.print_char('A');
    assert_eq!(grid.get_cell(0, 0).unwrap().fg_color, Color::rgb(255, 0, 0));
}

#[test]
fn palette_regions() {
    assert_eq!(color_256(1), Color::rgb(128, 0, 0));
    assert_eq!(color_256(9), Color::rgb(255, 0, 0));
    assert_eq!(color_256(16), Color::rgb(0, 0, 0));
    assert_eq!(color_256(21), Color::rgb(0, 0, 255));
    assert_eq!(color_256(231), Color::rgb(255, 255, 255));
    assert_eq!(color_256(232), Color::rgb(8, 8, 8));
    assert_eq!(color_256(255), Color::rgb(238, 238, 238));
    assert_eq!(color_256(300), Color::default_fg());
}

#[test]
fn direct_color_channels_are_clamped() {
    let mut state = ParserState::new();
    state.apply_sgr(&[38, 2, 300, 0, 500]);
    assert_eq!(state.fg_color, Color::rgb(255, 0, 255));
    state.apply_sgr(&[48, 2, 10, 20, 30]);
    assert_eq!(state.bg_color, Color::rgb(10, 20, 30));
}

#[test]
fn incomplete_extended_color_is_ignored() {
    let mut state = ParserState::new();
    state.apply_sgr(&[38, 2, 10]);
    assert_eq!(state.fg_color, Color::default_fg());
    state.apply_sgr(&[38]);
    assert_eq!(state, ParserState::new());
}

#[test]
fn sgr_reset_restores_initial_state() {
    let mut state = ParserState::new();
    state.apply_sgr(&[1, 3, 4, 5, 7, 9, 31, 42]);
    assert_ne!(state, ParserState::new());
    state.apply_sgr(&[0]);
    assert_eq!(state, ParserState::new());
}

#[test]
fn sgr_attribute_toggles() {
    let mut state = ParserState::new();
    state.apply_sgr(&[1, 3, 4]);
    assert!(state.attrs.contains(CellAttrs::bold() | CellAttrs::italic() | CellAttrs::underline()));
    state.apply_sgr(&[22, 24]);
    assert!(!state.attrs.contains(CellAttrs::bold()));
    assert!(state.attrs.contains(CellAttrs::italic()));
    assert!(!state.attrs.contains(CellAttrs::underline()));
    state.apply_sgr(&[92, 104, 39]);
    assert_eq!(state.fg_color, Color::default_fg());
    assert_eq!(state.bg_color, Color::rgb(0, 0, 255));
}

#[test]
fn csi_and_esc_dispatch() {
    let mut state = ParserState::new();
    let a = state.dispatch_csi(vec![1], 'm');
    assert!(matches!(a, ParseAction::CsiDispatch(ParsedCsi::Sgr(ref p)) if p == &vec![1]));
    assert!(state.attrs.contains(CellAttrs::bold()));
    let b = state.dispatch_csi(vec![2], 'J');
    assert!(matches!(b, ParseAction::CsiDispatch(ParsedCsi::Other { command: 'J', .. })));
    let c = state.dispatch_esc(b'c');
    assert!(matches!(c, ParseAction::EscDispatch(quantaterm::parser::EscAction::Reset)));
    assert_eq!(state, ParserState::new());
}

#[test]
fn wire_csi_becomes_cursor_actions() {
    assert!(matches!(CsiAction::from_wire('A', vec![]), CsiAction::CursorUp(1)));
    assert!(matches!(CsiAction::from_wire('B', vec![0]), CsiAction::CursorDown(1)));
    assert!(matches!(CsiAction::from_wire('C', vec![4]), CsiAction::CursorForward(4)));
    assert!(matches!(CsiAction::from_wire('H', vec![3, 7]), CsiAction::CursorPosition(2, 6)));
    assert!(matches!(CsiAction::from_wire('G', vec![]), CsiAction::CursorHorizontalAbsolute(0)));
    assert!(matches!(CsiAction::from_wire('m', vec![1]), CsiAction::Sgr(_)));
    assert!(matches!(CsiAction::from_wire('J', vec![2]), CsiAction::Other { command: 'J', .. }));
}

#[test]
fn reflow_repacks_wrapped_text() {
    let mut grid = TerminalGrid::new(5, 3);
    for c in "ABCDEFGH".chars() {
        grid.print_char(c);
    }
    grid.resize(3, 3);
    assert_eq!(grid.total_lines(), 3);
    assert_eq!(row_text(&grid, 0), "ABC");
    assert_eq!(row_text(&grid, 1), "DEF");
    assert_eq!(row_text(&grid, 2), "GH ");
}

#[test]
fn scrollback_navigation_shows_older_rows() {
    let mut grid = TerminalGrid::with_scrollback(4, 3, 5);
    for n in 1..=10 {
        grid.add_line(label_row(&format!("L{}", n), 4));
    }
    assert_eq!(grid.total_lines(), 8);
    grid.scroll_up(3);
    assert_eq!(grid.viewport_offset, 3);
    assert_eq!(row_text(&grid, 0), "L5  ");
}

#[test]
fn scroll_up_then_down_restores_offset() {
    let mut grid = TerminalGrid::with_scrollback(4, 3, 20);
    for n in 0..10 {
        grid.add_line(label_row(&format!("{}", n), 4));
    }
    grid.scroll_up(2);
    grid.scroll_up(3);
    grid.scroll_down(3);
    assert_eq!(grid.viewport_offset, 2);
}

#[test]
fn resize_twice_equals_once() {
    let mut grid = TerminalGrid::new(8, 4);
    for c in "hello world again".chars() {
        grid.print_char(c);
    }
    grid.start_selection(Position::new(6, 3));
    grid.resize(5, 3);
    let once = (grid.get_viewport(), grid.total_lines(), grid.cursor_position(), grid.get_selection().copied());
    grid.resize(5, 3);
    let twice = (grid.get_viewport(), grid.total_lines(), grid.cursor_position(), grid.get_selection().copied());
    assert_eq!(once, twice);
}

#[test]
fn resize_to_zero_clamps_to_one_by_one() {
    let mut grid = TerminalGrid::new(10, 5);
    grid.resize(0, 0);
    assert_eq!(grid.cols, 1);
    assert_eq!(grid.rows, 1);
    assert_eq!(grid.cursor_position(), (0, 0));
    assert!(grid.get_cell(0, 0).is_some());
}

#[test]
fn select_all_on_empty_grid_extracts_no_character() {
    let mut grid = TerminalGrid::new(10, 1);
    grid.select_all();
    assert_eq!(grid.get_selected_text(), None);
    let mut tall = TerminalGrid::new(10, 5);
    tall.select_all();
    assert_eq!(tall.get_selected_text(), None);
}

#[test]
fn selected_lines_drop_trailing_spaces() {
    let mut grid = TerminalGrid::new(10, 3);
    grid.set_cell(0, 1, Cell::new('H' as u32));
    grid.set_cell(1, 1, Cell::new('i' as u32));
    grid.start_selection(Position::new(0, 1));
    grid.extend_selection(Position::new(3, 1));
    assert_eq!(grid.get_selected_text(), Some("Hi".to_string()));
    grid.start_selection(Position::new(0, 0));
    grid.extend_selection(Position::new(3, 1));
    assert_eq!(grid.get_selected_text(), Some("\nHi".to_string()));
}

#[test]
fn plugin_actions_are_removed_together() {
    let mut registry = ActionRegistry::new();
    for (id, plugin) in [("x.a", "x"), ("x.b", "x"), ("y.a", "y")] {
        let action = Action::new(id.to_string(), id.to_string(), String::new(), "c".to_string(), plugin.to_string());
        registry.register_action(action).unwrap();
    }
    registry.unregister_plugin_actions("x").unwrap();
    assert_eq!(registry.action_count(), 1);
    let left = registry.list_actions();
    assert_eq!(left.len(), 1);
    assert_eq!(left[0].id, "y.a");
    assert_eq!(registry.plugin_count(), 1);
}

#[test]
fn session_decisions_follow_commands_and_exit() {
    let (s, a) = session_step(SessionState::Running, SessionInput::Command(Some(PtyCommand::WriteData(b"ls\n".to_vec()))));
    assert_eq!(s, SessionState::Running);
    assert!(matches!(&a[0], SessionAction::Write(b) if b == b"ls\n"));
    let (s, a) = session_step(s, SessionInput::IoFailed("broken pipe".to_string()));
    assert_eq!(s, SessionState::Running);
    assert!(matches!(&a[0], SessionAction::Emit(PtyEvent::Error(m)) if m == "broken pipe"));
    let (s, a) = session_step(s, SessionInput::Tick(Some(3)));
    assert_eq!(s, SessionState::Stopped);
    assert!(matches!(&a[0], SessionAction::Emit(PtyEvent::ProcessExit(3))));
    let (_, a) = session_step(s, SessionInput::Command(Some(PtyCommand::Shutdown)));
    assert!(a.is_empty());
    assert_eq!(output_events(b"x".to_vec(), vec![]).len(), 1);
    assert_eq!(default_shell(false, None).0, "/bin/sh");
    assert_eq!(default_shell(true, None), ("cmd.exe".to_string(), vec!["/k".to_string()]));
}

#[test]
fn fallback_chain_and_covering_font() {
    let chain = build_fallback_chain();
    assert!(chain.len() > 5);
    assert_eq!(chain[0].family, "JetBrains Mono");
    assert!(chain.iter().any(|f| f.family == "Courier New"));
    assert_eq!(first_covering_font(&vec![None, Some(0), Some(12), Some(4)]), Some(2));
    assert_eq!(first_covering_font(&vec![Some(0), None]), None);
}

#[test]
fn test_color_256() {
    assert_eq!(color_256(1), standard_color(1));
    assert_eq!(color_256(9), bright_color(1));

    let cube_color = color_256(16);
    assert_eq!(cube_color, Color::rgb(0, 0, 0));

    let gray_color = color_256(232);
    assert_eq!(gray_color, Color::rgb(8, 8, 8));
}

#[test]
fn test_extended_color_parsing() {
    let result = parse_extended_color(&[38, 5, 196], 0);
    assert!(result.is_some());
    let (_color, consumed) = result.unwrap();
    assert_eq!(consumed, 2);

    let result = parse_extended_color(&[38, 2, 255, 128, 64], 0);
    assert!(result.is_some());
    let (color, consumed) = result.unwrap();
    assert_eq!(color, Color::rgb(255, 128, 64));
    assert_eq!(consumed, 4);
}

#[test]
fn test_default_shell_unix() {
    let (program, args) = default_shell(false, Some("/bin/zsh".to_string()));
    assert_eq!(program, "/bin/zsh");
    assert!(args.is_empty());
}

#[test]
fn test_default_shell_windows() {
    let (program, args) = default_shell(true, Some("/bin/zsh".to_string()));
    assert_eq!(program, "cmd.exe");
    assert_eq!(args, vec!["/k".to_string()]);
}

#[test]
fn parsed_actions_drive_the_grid() {
    let mut state = ParserState::new();
    let mut grid = TerminalGrid::new(10, 3);
    let actions = vec![
        state.dispatch_csi(vec![1, 31], 'm'),
        ParseAction::Print('R'),
        ParseAction::Print('e'),
        ParseAction::Print('d'),
        ParseAction::CsiDispatch(ParsedCsi::Sgr(vec![0])),
        ParseAction::Print(' '),
        ParseAction::Print('X'),
        ParseAction::Execute(b'\n'),
        ParseAction::CsiDispatch(ParsedCsi::Other { command: 'H', params: vec![3, 4] }),
    ];
    let mut mirror = ParserState::new();
    for a in actions {
        grid.apply_action(&mut mirror, a);
    }
    for col in 0..3 {
        let cell = grid.get_cell(col, 0).unwrap();
        assert_eq!(cell.fg_color, Color::rgb(128, 0, 0));
        assert!(cell.attrs.contains(CellAttrs::bold()));
    }
    assert!(grid.get_cell(3, 0).unwrap().is_empty());
    assert_eq!(grid.get_cell(4, 0).unwrap().fg_color, Color::default_fg());
    assert_eq!(grid.cursor_position(), (3, 2));
    assert_eq!(mirror, ParserState::new());
}
