//! Tests of cells, selections and the terminal grid.

use quantaterm::cell::{Cell, CellAttrs, Color, Position, Selection};
use quantaterm::control::CsiAction;
use quantaterm::grid::TerminalGrid;


#[test]
fn test_color_creation() {
    let color = Color::new(255, 128, 64, 255);
    assert_eq!(color.r, 255);
    assert_eq!(color.g, 128);
    assert_eq!(color.b, 64);
    assert_eq!(color.a, 255);

    let rgb_color = Color::rgb(200, 100, 50);
    assert_eq!(rgb_color.a, 255);
}

#[test]
fn test_cell_creation_and_properties() {
    let cell = Cell::new(b'A' as u32);
    assert_eq!(cell.glyph_id, b'A' as u32);
    assert_eq!(cell.fg_color, Color::default_fg());
    assert_eq!(cell.bg_color, Color::default_bg());
    assert_eq!(cell.attrs, CellAttrs::empty());

    let styled_cell = Cell::with_style(
        b'B' as u32,
        Color::rgb(255, 0, 0),
        Color::rgb(0, 255, 0),
        CellAttrs::bold() | CellAttrs::italic(),
    );
    assert_eq!(styled_cell.glyph_id, b'B' as u32);
    assert_eq!(styled_cell.fg_color, Color::rgb(255, 0, 0));
    assert_eq!(styled_cell.bg_color, Color::rgb(0, 255, 0));
    assert!(styled_cell.attrs.contains(CellAttrs::bold()));
    assert!(styled_cell.attrs.contains(CellAttrs::italic()));

    let empty_cell = Cell::empty();
    assert!(empty_cell.is_empty());
    assert_eq!(empty_cell.glyph_id, b' ' as u32);
}

#[test]
fn test_cell_attrs_flags() {
    let mut attrs = CellAttrs::empty();
    assert!(attrs.is_empty());

    attrs = attrs | CellAttrs::bold();
    assert!(attrs.contains(CellAttrs::bold()));
    assert!(!attrs.contains(CellAttrs::italic()));

    attrs = attrs | CellAttrs::underline() | CellAttrs::italic();
    assert!(attrs.contains(CellAttrs::bold()));
    assert!(attrs.contains(CellAttrs::italic()));
    assert!(attrs.contains(CellAttrs::underline()));
    assert!(!attrs.contains(CellAttrs::blink()));
}

#[test]
fn test_grid_creation() {
    let grid = TerminalGrid::new(80, 24);
    assert_eq!(grid.cols, 80);
    assert_eq!(grid.rows, 24);
    assert_eq!(grid.viewport_offset, 0);
    assert_eq!(grid.cursor_position(), (0, 0));
    assert_eq!(grid.total_lines(), 24);
}

#[test]
fn test_grid_cell_access() {
    let mut grid = TerminalGrid::new(10, 5);

    // Test getting empty cell
    let cell = grid.get_cell(5, 2).unwrap();
    assert!(cell.is_empty());

    // Test setting and getting cell
    let test_cell = Cell::new(b'X' as u32);
    assert!(grid.set_cell(5, 2, test_cell.clone()));
    let retrieved_cell = grid.get_cell(5, 2).unwrap();
    assert_eq!(retrieved_cell.glyph_id, b'X' as u32);

    // Test out of bounds
    assert!(grid.get_cell(10, 2).is_none());
    assert!(grid.get_cell(5, 5).is_none());
    assert!(!grid.set_cell(10, 2, test_cell.clone()));
    assert!(!grid.set_cell(5, 5, test_cell));
}

#[test]
fn test_grid_resize_expand() {
    let mut grid = TerminalGrid::new(10, 5);

    // Set a test cell
    let test_cell = Cell::new(b'T' as u32);
    grid.set_cell(5, 2, test_cell.clone());

    // Expand grid
    grid.resize(15, 8);
    assert_eq!(grid.cols, 15);
    assert_eq!(grid.rows, 8);
    assert_eq!(grid.total_lines(), 8);

    // Check that existing content is preserved
    let retrieved_cell = grid.get_cell(5, 2).unwrap();
    assert_eq!(retrieved_cell.glyph_id, b'T' as u32);

    // Check that new cells are empty
    let new_cell = grid.get_cell(12, 2).unwrap();
    assert!(new_cell.is_empty());

    // Check new rows are added
    let new_row_cell = grid.get_cell(5, 7).unwrap();
    assert!(new_row_cell.is_empty());
}

#[test]
fn test_grid_resize_shrink() {
    let mut grid = TerminalGrid::new(15, 8);

    // Set test cells: the written rows' contents are joined and re-cut at the new width
    let test_cell = Cell::new(b'T' as u32);
    grid.set_cell(5, 2, test_cell.clone());
    grid.set_cell(12, 2, Cell::new(b'X' as u32));
    grid.set_cell(5, 7, Cell::new(b'Y' as u32));

    // Shrink grid
    grid.resize(10, 5);
    assert_eq!(grid.cols, 10);
    assert_eq!(grid.rows, 5);

    // The joined contents are row 2's first 13 cells, then row 7's first 6:
    // 'T' starts the first re-cut row at column 5
    let retrieved_cell = grid.get_cell(5, 0).unwrap();
    assert_eq!(retrieved_cell.glyph_id, b'T' as u32);

    // 'X' (cell 12 of the joined contents) lands at (2,1), and 'Y' at (8,1)
    let wrapped_cell = grid.get_cell(2, 1).unwrap();
    assert_eq!(wrapped_cell.glyph_id, b'X' as u32);
    assert_eq!(grid.get_cell(8, 1).unwrap().glyph_id, b'Y' as u32);

    // Check that content outside new bounds is inaccessible
    assert!(grid.get_cell(12, 2).is_none()); // Column out of bounds
    assert!(grid.get_cell(5, 7).is_none()); // Row out of bounds (was removed)
}

#[test]
fn test_line_wrapping_basic() {
    let mut grid = TerminalGrid::new(5, 3);

    // Fill a row with content
    for i in 0..5 {
        grid.set_cell(i, 0, Cell::new((b'A' + i as u8) as u32));
    }

    // Add more content that should wrap to next line
    for i in 0..3 {
        grid.set_cell(i, 1, Cell::new((b'F' + i as u8) as u32));
    }

    // Shrink width to force rewrapping
    grid.resize(3, 3);

    // Check that content was rewrapped correctly: the rows' contents
    // "ABCDE" and "FGH" are joined and re-cut: Row 0="ABC", Row 1="DEF", Row 2="GH "
    assert_eq!(grid.get_cell(0, 0).unwrap().glyph_id, b'A' as u32);
    assert_eq!(grid.get_cell(1, 0).unwrap().glyph_id, b'B' as u32);
    assert_eq!(grid.get_cell(2, 0).unwrap().glyph_id, b'C' as u32);

    assert_eq!(grid.get_cell(0, 1).unwrap().glyph_id, b'D' as u32);
    assert_eq!(grid.get_cell(1, 1).unwrap().glyph_id, b'E' as u32);
    assert_eq!(grid.get_cell(2, 1).unwrap().glyph_id, b'F' as u32);

    assert_eq!(grid.get_cell(0, 2).unwrap().glyph_id, b'G' as u32);
    assert_eq!(grid.get_cell(1, 2).unwrap().glyph_id, b'H' as u32);
    assert!(grid.get_cell(2, 2).unwrap().is_empty());
}

#[test]
fn test_scrollback_functionality() {
    let mut grid = TerminalGrid::new(5, 3);

    // Add several lines of content
    for line_num in 0..10 {
        let line: Vec<Cell> = (0..5)
            .map(|i| Cell::new((b'0' + ((line_num + i) % 10) as u8) as u32))
            .collect();
        grid.add_line(line);
    }

    // Should have scrollback content now
    assert!(grid.scrollback_len() > 0);

    // Test scrolling up
    grid.scroll_up(2);
    assert_eq!(grid.viewport_offset, 2);

    // Test scrolling down
    grid.scroll_down(1);
    assert_eq!(grid.viewport_offset, 1);

    // Test reset viewport
    grid.reset_viewport();
    assert_eq!(grid.viewport_offset, 0);
}

#[test]
fn test_cursor_operations() {
    let mut grid = TerminalGrid::new(10, 5);

    // Test initial cursor position
    assert_eq!(grid.cursor_position(), (0, 0));

    // Test setting cursor position
    grid.set_cursor_position(5, 3);
    assert_eq!(grid.cursor_position(), (5, 3));

    // Test cursor bounds checking
    grid.set_cursor_position(15, 10);
    assert_eq!(grid.cursor_position(), (9, 4)); // Should be clamped to grid bounds
}

#[test]
fn test_grid_clear() {
    let mut grid = TerminalGrid::new(5, 3);

    // Add some content
    grid.set_cell(2, 1, Cell::new(b'X' as u32));
    grid.set_cursor_position(3, 2);

    // Clear grid
    grid.clear();

    // Verify everything is reset
    assert!(grid.get_cell(2, 1).unwrap().is_empty());
    assert_eq!(grid.cursor_position(), (0, 0));
    assert_eq!(grid.viewport_offset, 0);
    assert_eq!(grid.total_lines(), 3);
}

#[test]
fn test_viewport_operations() {
    let mut grid = TerminalGrid::new(5, 3);

    // Add content
    for i in 0..5 {
        grid.set_cell(i, 1, Cell::new((b'A' + i as u8) as u32));
    }

    // Get viewport
    let viewport = grid.get_viewport();
    assert_eq!(viewport.len(), 3);
    assert_eq!(viewport[1].len(), 5);
    assert_eq!(viewport[1][0].glyph_id, b'A' as u32);
    assert_eq!(viewport[1][4].glyph_id, b'E' as u32);
}

#[test]
fn test_sgr_formatting() {
    let mut grid = TerminalGrid::new(10, 5);

    // Test default formatting
    let (fg, bg, attrs) = grid.current_formatting();
    assert_eq!(fg, Color::default_fg());
    assert_eq!(bg, Color::default_bg());
    assert!(attrs.is_empty());

    // Apply bold red formatting
    grid.apply_sgr(Color::rgb(255, 0, 0), Color::default_bg(), CellAttrs::bold());
    let (fg, bg, attrs) = grid.current_formatting();
    assert_eq!(fg, Color::rgb(255, 0, 0));
    assert_eq!(bg, Color::default_bg());
    assert!(attrs.contains(CellAttrs::bold()));

    // Print a character with formatting
    grid.print_char('A');
    let cell = grid.get_cell(0, 0).unwrap();
    assert_eq!(cell.glyph_id, b'A' as u32);
    assert_eq!(cell.fg_color, Color::rgb(255, 0, 0));
    assert!(cell.attrs.contains(CellAttrs::bold()));

    // Reset formatting
    grid.reset_formatting();
    let (fg, bg, attrs) = grid.current_formatting();
    assert_eq!(fg, Color::default_fg());
    assert_eq!(bg, Color::default_bg());
    assert!(attrs.is_empty());
}

#[test]
fn test_control_characters() {
    let mut grid = TerminalGrid::new(10, 5);

    // Test printing and cursor advancement
    grid.print_char('H');
    grid.print_char('i');
    assert_eq!(grid.cursor_position(), (2, 0));

    // Test carriage return
    grid.execute_control(b'\r');
    assert_eq!(grid.cursor_position(), (0, 0));

    // Test newline
    grid.execute_control(b'\n');
    assert_eq!(grid.cursor_position(), (0, 1));

    // Test tab
    grid.execute_control(b'\t');
    assert_eq!(grid.cursor_position(), (8, 1));

    // Test backspace
    grid.execute_control(b'\x08');
    assert_eq!(grid.cursor_position(), (7, 1));
}

#[test]
fn test_line_wrapping_with_formatting() {
    let mut grid = TerminalGrid::new(3, 3);

    // Apply formatting
    grid.apply_sgr(Color::rgb(0, 255, 0), Color::default_bg(), CellAttrs::italic());

    // Print characters that will wrap
    grid.print_char('A');
    grid.print_char('B');
    grid.print_char('C');
    grid.print_char('D'); // Should wrap to next line

    assert_eq!(grid.cursor_position(), (1, 1));

    // Check that formatting is preserved across wrapping
    let cell_a = grid.get_cell(0, 0).unwrap();
    let cell_d = grid.get_cell(0, 1).unwrap();
    assert_eq!(cell_a.fg_color, Color::rgb(0, 255, 0));
    assert_eq!(cell_d.fg_color, Color::rgb(0, 255, 0));
    assert!(cell_a.attrs.contains(CellAttrs::italic()));
    assert!(cell_d.attrs.contains(CellAttrs::italic()));
}

#[test]
fn test_line_wrapping_edge_cases() {
    let mut grid = TerminalGrid::new(4, 2);

    // Test wrapping with empty trailing cells
    grid.set_cell(0, 0, Cell::new(b'A' as u32));
    grid.set_cell(1, 0, Cell::new(b'B' as u32));
    // Leave cells 2,3 empty

    grid.set_cell(0, 1, Cell::new(b'C' as u32));

    // Shrink to width 2 - should not create unnecessary empty lines
    grid.resize(2, 3);

    // Should have: "AB" on line 1, "C" on line 2, empty line 3
    assert_eq!(grid.get_cell(0, 0).unwrap().glyph_id, b'A' as u32);
    assert_eq!(grid.get_cell(1, 0).unwrap().glyph_id, b'B' as u32);
    assert_eq!(grid.get_cell(0, 1).unwrap().glyph_id, b'C' as u32);
    assert!(grid.get_cell(1, 1).unwrap().is_empty());
    assert!(grid.get_cell(0, 2).unwrap().is_empty());
}

#[test]
fn test_scrollback_limits() {
    let mut grid = TerminalGrid::with_scrollback(3, 2, 5); // Small scrollback for testing

    // Add many lines to exceed scrollback limit
    for line_num in 0..20 {
        let line: Vec<Cell> = (0..3)
            .map(|_| Cell::new((b'0' + (line_num % 10) as u8) as u32))
            .collect();
        grid.add_line(line);
    }

    // Should be limited to max_scrollback + rows
    assert!(grid.total_lines() <= 7); // 5 scrollback + 2 viewport rows
}

#[test]
fn lib_test_viewport_text_conversion() {
    let mut grid = TerminalGrid::new(5, 3);

    // Add some text content
    grid.set_cell(0, 0, Cell::new(b'H' as u32));
    grid.set_cell(1, 0, Cell::new(b'e' as u32));
    grid.set_cell(2, 0, Cell::new(b'l' as u32));
    grid.set_cell(3, 0, Cell::new(b'l' as u32));
    grid.set_cell(4, 0, Cell::new(b'o' as u32));

    grid.set_cell(0, 1, Cell::new(b'W' as u32));
    grid.set_cell(1, 1, Cell::new(b'o' as u32));
    grid.set_cell(2, 1, Cell::new(b'r' as u32));
    grid.set_cell(3, 1, Cell::new(b'l' as u32));
    grid.set_cell(4, 1, Cell::new(b'd' as u32));

    // Row 2 left empty

    let text_lines = grid.get_viewport_text();
    assert_eq!(text_lines.len(), 3);
    assert_eq!(text_lines[0], "Hello");
    assert_eq!(text_lines[1], "World");
    assert_eq!(text_lines[2], "     "); // Empty row should be spaces
}

#[test]
fn test_scrollback_ring_buffer_integration() {
    let mut grid = TerminalGrid::with_scrollback(5, 3, 10);

    // Fill beyond scrollback capacity to test ring buffer behavior
    for line_num in 0..20 {
        let line: Vec<Cell> = (0..5)
            .map(|i| Cell::new((b'A' + ((line_num + i) % 26) as u8) as u32))
            .collect();
        grid.add_line(line);
    }

    // Should be limited to max_scrollback + viewport rows (10 + 3 = 13)
    assert!(grid.total_lines() <= 13);

    // Test scrolling through the entire buffer
    let max_scroll = grid.scrollback_len();
    grid.scroll_up(max_scroll);
    assert_eq!(grid.viewport_offset, max_scroll);

    // Should be able to see oldest available content
    grid.scroll_down(max_scroll);
    assert_eq!(grid.viewport_offset, 0);

    // Test that viewport is at bottom by default
    let viewport = grid.get_viewport();
    assert_eq!(viewport.len(), 3);
}

#[test]
fn test_scrollback_with_resize_stress() {
    let mut grid = TerminalGrid::with_scrollback(10, 5, 20);

    // Add content with known pattern
    for line_num in 0..30 {
        let line: Vec<Cell> = (0..10)
            .map(|_col| Cell::new((b'0' + (line_num % 10) as u8) as u32))
            .collect();
        grid.add_line(line);
    }

    // Scroll up to see older content
    grid.scroll_up(5);
    let _offset_before = grid.viewport_offset;

    // Resize while scrolled up
    grid.resize(8, 4);

    // Should maintain reasonable viewport position after resize
    assert!(grid.viewport_offset <= grid.scrollback_len());

    // Should still be able to navigate properly
    grid.scroll_down(2);
    grid.scroll_up(1);
    assert!(grid.viewport_offset <= grid.scrollback_len());
}

#[test]
fn test_scrollback_performance_large_buffer() {


    let mut grid = TerminalGrid::with_scrollback(80, 24, 10000);

    // Measure time to add many lines
    let start = std::time::Instant::now();
    for line_num in 0..5000 {
        let line: Vec<Cell> = (0..80)
            .map(|col| Cell::new((b'0' + ((line_num + col) % 10) as u8) as u32))
            .collect();
        grid.add_line(line);
    }
    let add_duration = start.elapsed();

    // Should complete in reasonable time (< 100ms for 5k lines)
    assert!(
        add_duration.as_millis() < 100,
        "Adding lines took too long: {:?}",
        add_duration
    );

    // Measure scrolling performance
    let start = std::time::Instant::now();
    for _ in 0..100 {
        grid.scroll_up(10);
        grid.scroll_down(5);
    }
    let scroll_duration = start.elapsed();

    // Scrolling should be very fast (< 10ms for 100 operations)
    assert!(
        scroll_duration.as_millis() < 10,
        "Scrolling took too long: {:?}",
        scroll_duration
    );

    // Buffer should respect size limits
    assert!(grid.total_lines() <= 10024); // 10000 + 24 viewport rows
}

#[test]
fn test_scrollback_edge_cases() {
    let mut grid = TerminalGrid::new(5, 3);

    // Test scrolling on empty buffer
    grid.scroll_up(10);
    assert_eq!(grid.viewport_offset, 0);

    grid.scroll_down(5);
    assert_eq!(grid.viewport_offset, 0);

    // Add one line - should still be no scrollback (3 rows viewport, now 4 total = 1 scrollback)
    let line: Vec<Cell> = vec![Cell::new(b'X' as u32); 5];
    grid.add_line(line);

    // Now we have 1 line of scrollback available, so scrolling should work
    grid.scroll_up(1);
    assert_eq!(grid.viewport_offset, 1);

    // But can't scroll more than available
    grid.scroll_up(10);
    assert_eq!(grid.viewport_offset, 1); // Still just 1 line available

    // Add enough lines to enable more scrolling
    for i in 0..5 {
        let line: Vec<Cell> = vec![Cell::new((b'A' + i) as u32); 5];
        grid.add_line(line);
    }

    // Now scrolling should work with more range
    grid.scroll_up(2);
    assert_eq!(grid.viewport_offset, 2);

    // Test scrolling beyond limits
    grid.scroll_up(100);
    let max_offset = grid.total_lines().saturating_sub(grid.rows as usize);
    assert_eq!(grid.viewport_offset, max_offset);

    // Test scrolling down beyond limits
    grid.scroll_down(200);
    assert_eq!(grid.viewport_offset, 0);
}

#[test]
fn test_viewport_consistency_during_updates() {
    let mut grid = TerminalGrid::with_scrollback(4, 2, 8);

    // Add initial content
    for i in 0..6 {
        let line: Vec<Cell> = vec![Cell::new((b'0' + i) as u32); 4];
        grid.add_line(line);
    }

    // Scroll up to view older content
    grid.scroll_up(2);
    let _initial_offset = grid.viewport_offset;

    // Add more content while scrolled up
    let line: Vec<Cell> = vec![Cell::new(b'X' as u32); 4];
    grid.add_line(line);

    // Viewport should reset to bottom when new content is added
    assert_eq!(grid.viewport_offset, 0);

    // But scrollback history should be preserved
    grid.scroll_up(1);
    assert!(grid.viewport_offset > 0);
}

#[test]
fn test_memory_efficiency() {
    let mut grid = TerminalGrid::with_scrollback(10, 3, 100);

    // Add exactly the limit amount of content
    for i in 0..103 {
        // 100 scrollback + 3 viewport
        let line: Vec<Cell> = vec![Cell::new((b'0' + (i % 10) as u8) as u32); 10];
        grid.add_line(line);
    }

    assert_eq!(grid.total_lines(), 103);

    // Add one more line to trigger limit
    let line: Vec<Cell> = vec![Cell::new(b'Z' as u32); 10];
    grid.add_line(line);

    // Should maintain exactly the target size
    assert_eq!(grid.total_lines(), 103);

    // Verify the oldest content was removed (no longer see first line)
    grid.scroll_up(grid.scrollback_len());
    let viewport = grid.get_viewport();
    // The first character should not be '0' anymore
    assert_ne!(viewport[0][0].glyph_id, b'0' as u32);
}

#[test]
fn test_smooth_paging_operations() {
    let mut grid = TerminalGrid::with_scrollback(5, 4, 20);

    // Add substantial content for paging tests
    for i in 0..25 {
        let line: Vec<Cell> = (0..5)
            .map(|_col| Cell::new((b'A' + (i % 26) as u8) as u32))
            .collect();
        grid.add_line(line);
    }

    // Test page-up equivalent (scroll by viewport height)
    let viewport_height = grid.rows as usize;
    grid.scroll_up(viewport_height);
    assert_eq!(grid.viewport_offset, viewport_height);

    // Test page-down equivalent
    grid.scroll_down(viewport_height);
    assert_eq!(grid.viewport_offset, 0);

    // Test partial scrolling for smooth navigation
    grid.scroll_up(1);
    assert_eq!(grid.viewport_offset, 1);

    grid.scroll_up(2);
    assert_eq!(grid.viewport_offset, 3);

    grid.scroll_down(1);
    assert_eq!(grid.viewport_offset, 2);

    // Test rapid scrolling doesn't break consistency
    for _ in 0..10 {
        grid.scroll_up(3);
        grid.scroll_down(1);
    }

    // Should still be in valid state
    assert!(grid.viewport_offset <= grid.scrollback_len());
    let viewport = grid.get_viewport();
    assert_eq!(viewport.len(), grid.rows as usize);
}

#[test]
fn test_page_operations() {
    let mut grid = TerminalGrid::with_scrollback(5, 4, 20);

    // Add substantial content for paging tests
    for i in 0..30 {
        let line: Vec<Cell> = (0..5)
            .map(|_col| Cell::new((b'A' + (i % 26) as u8) as u32))
            .collect();
        grid.add_line(line);
    }

    // Test page up
    grid.page_up();
    assert_eq!(grid.viewport_offset, 4); // Should scroll by viewport height

    // Test page down
    grid.page_down();
    assert_eq!(grid.viewport_offset, 0);

    // Test scroll to top
    grid.scroll_to_top();
    let max_offset = grid.scrollback_len();
    assert_eq!(grid.viewport_offset, max_offset);

    // Test multiple page operations
    grid.page_down();
    grid.page_down();
    assert_eq!(grid.viewport_offset, max_offset.saturating_sub(8));

    // Test page up at top (should not go beyond limit)
    grid.scroll_to_top();
    grid.page_up();
    assert_eq!(grid.viewport_offset, max_offset);
}

#[test]
fn test_scrollback_state_queries() {
    let mut grid = TerminalGrid::with_scrollback(5, 3, 10);

    // Test initial state
    assert!(grid.is_at_bottom());
    assert_eq!(grid.viewport_offset(), 0);
    assert_eq!(grid.max_scrollback(), 10);

    // Add content and test
    for i in 0..8 {
        let line: Vec<Cell> = vec![Cell::new((b'0' + i) as u32); 5];
        grid.add_line(line);
    }

    // Should still be at bottom after adding content
    assert!(grid.is_at_bottom());
    assert_eq!(grid.total_lines(), 11); // 8 added + 3 initial

    // Scroll up and test
    grid.scroll_up(3);
    assert!(!grid.is_at_bottom());
    assert_eq!(grid.viewport_offset(), 3);

    // Reset and test
    grid.reset_viewport();
    assert!(grid.is_at_bottom());
    assert_eq!(grid.viewport_offset(), 0);
}

// Text Selection Tests

#[test]
fn test_position_creation_and_comparison() {
    let pos1 = Position::new(5, 10);
    let pos2 = Position::new(5, 10);
    let pos3 = Position::new(6, 10);
    let pos4 = Position::new(5, 11);

    assert_eq!(pos1, pos2);
    assert!(pos1 < pos3); // Same row, earlier column
    assert!(pos1 < pos4); // Earlier row
    assert!(pos3 < pos4); // Earlier row beats later column
}

#[test]
fn test_selection_creation_and_normalization() {
    let start = Position::new(5, 2);
    let end = Position::new(10, 2);

    // Normal order
    let selection = Selection::new(start, end);
    assert_eq!(selection.start, start);
    assert_eq!(selection.end, end);

    // Reverse order should be normalized
    let selection_rev = Selection::new(end, start);
    assert_eq!(selection_rev.start, start);
    assert_eq!(selection_rev.end, end);
}

#[test]
fn test_selection_contains() {
    let selection = Selection::new(Position::new(2, 1), Position::new(5, 3));

    // Test positions inside selection
    assert!(selection.contains(Position::new(2, 1))); // start
    assert!(selection.contains(Position::new(5, 3))); // end
    assert!(selection.contains(Position::new(3, 2))); // middle

    // Test positions outside selection
    assert!(!selection.contains(Position::new(1, 1))); // before start on same row
    assert!(!selection.contains(Position::new(6, 3))); // after end on same row
    assert!(!selection.contains(Position::new(3, 0))); // above (earlier row)
    assert!(!selection.contains(Position::new(3, 4))); // below (later row)
}

#[test]
fn test_selection_multiline() {
    let single_line = Selection::new(Position::new(2, 1), Position::new(5, 1));
    let multi_line = Selection::new(Position::new(2, 1), Position::new(5, 3));

    assert!(!single_line.is_multiline());
    assert!(multi_line.is_multiline());
}

#[test]
fn test_start_and_clear_selection() {
    let mut grid = TerminalGrid::new(10, 5);

    // Initially no selection
    assert!(!grid.has_selection());
    assert!(grid.get_selection().is_none());

    // Start selection
    grid.start_selection(Position::new(3, 2));
    assert!(grid.has_selection());
    let selection = grid.get_selection().unwrap();
    assert_eq!(selection.start, Position::new(3, 2));
    assert_eq!(selection.end, Position::new(3, 2));

    // Clear selection
    grid.clear_selection();
    assert!(!grid.has_selection());
    assert!(grid.get_selection().is_none());
}

#[test]
fn test_extend_selection() {
    let mut grid = TerminalGrid::new(10, 5);

    // Start selection
    grid.start_selection(Position::new(2, 1));
    
    // Extend selection
    grid.extend_selection(Position::new(6, 3));
    
    let selection = grid.get_selection().unwrap();
    assert_eq!(selection.start, Position::new(2, 1));
    assert_eq!(selection.end, Position::new(6, 3));
    assert!(selection.is_multiline());
}

#[test]
fn test_extend_selection_reverse() {
    let mut grid = TerminalGrid::new(10, 5);

    // Start selection
    grid.start_selection(Position::new(6, 3));
    
    // Extend selection backwards (should normalize)
    grid.extend_selection(Position::new(2, 1));
    
    let selection = grid.get_selection().unwrap();
    assert_eq!(selection.start, Position::new(2, 1));
    assert_eq!(selection.end, Position::new(6, 3));
}

#[test]
fn test_position_clamping() {
    let mut grid = TerminalGrid::new(10, 5);

    // Test clamping when starting selection out of bounds
    grid.start_selection(Position::new(15, 10));
    let selection = grid.get_selection().unwrap();
    assert_eq!(selection.start, Position::new(9, 4)); // Clamped to grid bounds
}

#[test]
fn test_position_in_selection() {
    let mut grid = TerminalGrid::new(10, 5);

    grid.start_selection(Position::new(2, 1));
    grid.extend_selection(Position::new(6, 3));

    assert!(grid.position_in_selection(Position::new(2, 1))); // start
    assert!(grid.position_in_selection(Position::new(6, 3))); // end
    assert!(grid.position_in_selection(Position::new(4, 2))); // middle
    assert!(!grid.position_in_selection(Position::new(1, 1))); // outside
    assert!(!grid.position_in_selection(Position::new(7, 3))); // outside
}

#[test]
fn test_select_all() {
    let mut grid = TerminalGrid::new(10, 5);

    grid.select_all();
    
    let selection = grid.get_selection().unwrap();
    assert_eq!(selection.start, Position::new(0, 0));
    assert_eq!(selection.end, Position::new(9, 4));
    assert!(selection.is_multiline());
}

#[test]
fn test_get_selected_text_single_line() {
    let mut grid = TerminalGrid::new(10, 5);

    // Add some text content
    grid.set_cell(2, 1, Cell::new(b'H' as u32));
    grid.set_cell(3, 1, Cell::new(b'e' as u32));
    grid.set_cell(4, 1, Cell::new(b'l' as u32));
    grid.set_cell(5, 1, Cell::new(b'l' as u32));
    grid.set_cell(6, 1, Cell::new(b'o' as u32));

    // Select the word "Hello"
    grid.start_selection(Position::new(2, 1));
    grid.extend_selection(Position::new(6, 1));

    let selected_text = grid.get_selected_text().unwrap();
    assert_eq!(selected_text, "Hello");
}

#[test]
fn test_get_selected_text_multiline() {
    let mut grid = TerminalGrid::new(10, 5);

    // Line 1: "Hello"
    grid.set_cell(0, 1, Cell::new(b'H' as u32));
    grid.set_cell(1, 1, Cell::new(b'e' as u32));
    grid.set_cell(2, 1, Cell::new(b'l' as u32));
    grid.set_cell(3, 1, Cell::new(b'l' as u32));
    grid.set_cell(4, 1, Cell::new(b'o' as u32));

    // Line 2: "World"
    grid.set_cell(0, 2, Cell::new(b'W' as u32));
    grid.set_cell(1, 2, Cell::new(b'o' as u32));
    grid.set_cell(2, 2, Cell::new(b'r' as u32));
    grid.set_cell(3, 2, Cell::new(b'l' as u32));
    grid.set_cell(4, 2, Cell::new(b'd' as u32));

    // Select from "ello" on first line to "Wor" on second line
    grid.start_selection(Position::new(1, 1));
    grid.extend_selection(Position::new(2, 2));

    let selected_text = grid.get_selected_text().unwrap();
    assert_eq!(selected_text, "ello\nWor");
}

#[test]
fn test_get_selected_text_empty_selection() {
    let mut grid = TerminalGrid::new(10, 5);

    // No selection
    assert!(grid.get_selected_text().is_none());

    // Empty selection (same start and end)
    grid.start_selection(Position::new(0, 0));
    let selected_text = grid.get_selected_text();
    // Should return single character or be empty depending on cell content
    if let Some(text) = selected_text {
        assert!(text.len() <= 1);
    }
}

#[test]
fn test_select_word_at_position() {
    let mut grid = TerminalGrid::new(20, 5);

    // Add text: "Hello World Test"
    let text = "Hello World Test";
    for (i, ch) in text.chars().enumerate() {
        grid.set_cell(i as u16, 1, Cell::new(ch as u32));
    }

    // Select word at position within "Hello"
    grid.select_word_at(Position::new(2, 1)); // Should select "Hello"
    let selected = grid.get_selected_text().unwrap();
    assert_eq!(selected, "Hello");

    // Select word at position within "World"
    grid.select_word_at(Position::new(8, 1)); // Should select "World"
    let selected = grid.get_selected_text().unwrap();
    assert_eq!(selected, "World");

    // Select word at position within "Test"
    grid.select_word_at(Position::new(14, 1)); // Should select "Test"
    let selected = grid.get_selected_text().unwrap();
    assert_eq!(selected, "Test");
}

#[test]
fn test_word_boundary_detection() {
    let mut grid = TerminalGrid::new(25, 5);

    // Add text with various boundaries: "hello_world test-case"
    let text = "hello_world test-case";
    for (i, ch) in text.chars().enumerate() {
        grid.set_cell(i as u16, 1, Cell::new(ch as u32));
    }

    // Select within "hello_world" (underscore should be included)
    grid.select_word_at(Position::new(3, 1));
    let selected = grid.get_selected_text().unwrap();
    assert_eq!(selected, "hello_world");

    // Select within "test" (should stop at hyphen)
    grid.select_word_at(Position::new(13, 1));
    let selected = grid.get_selected_text().unwrap();
    assert_eq!(selected, "test");

    // Select within "case"
    grid.select_word_at(Position::new(18, 1));
    let selected = grid.get_selected_text().unwrap();
    assert_eq!(selected, "case");
}

#[test]
fn test_selection_edge_cases() {
    let mut grid = TerminalGrid::new(5, 3);

    // Test selection at grid boundaries
    grid.start_selection(Position::new(0, 0));
    grid.extend_selection(Position::new(4, 2));

    let selection = grid.get_selection().unwrap();
    assert_eq!(selection.start, Position::new(0, 0));
    assert_eq!(selection.end, Position::new(4, 2));

    // Test selection with empty cells
    let selected_text = grid.get_selected_text();
    if let Some(text) = selected_text {
        // Should handle empty cells gracefully
        assert!(text.len() > 0 || text.is_empty()); // Just ensure it's valid
    }
}

#[test]
fn test_selection_survives_clear() {
    let mut grid = TerminalGrid::new(10, 5);

    // Start a selection
    grid.start_selection(Position::new(2, 1));
    grid.extend_selection(Position::new(6, 3));
    assert!(grid.has_selection());

    // Clear the grid (should also clear selection)
    grid.clear();
    assert!(!grid.has_selection());
}

#[test]
fn test_cursor_movement_methods() {
    let mut grid = TerminalGrid::new(10, 5);

    // Test initial position
    assert_eq!(grid.cursor_position(), (0, 0));

    // Test moving cursor up (should not go below 0)
    grid.move_cursor_up(2);
    assert_eq!(grid.cursor_position(), (0, 0));

    // Set cursor to middle and test movements
    grid.set_cursor_position(5, 2);
    assert_eq!(grid.cursor_position(), (5, 2));

    // Test moving up
    grid.move_cursor_up(1);
    assert_eq!(grid.cursor_position(), (5, 1));

    // Test moving down
    grid.move_cursor_down(2);
    assert_eq!(grid.cursor_position(), (5, 3));

    // Test moving left
    grid.move_cursor_left(2);
    assert_eq!(grid.cursor_position(), (3, 3));

    // Test moving right
    grid.move_cursor_right(3);
    assert_eq!(grid.cursor_position(), (6, 3));

    // Test boundary checks - moving too far right
    grid.move_cursor_right(10);
    assert_eq!(grid.cursor_position(), (9, 3)); // Should clamp to max col

    // Test boundary checks - moving too far down
    grid.move_cursor_down(10);
    assert_eq!(grid.cursor_position(), (9, 4)); // Should clamp to max row

    // Test moving to specific column
    grid.move_cursor_to_column(2);
    assert_eq!(grid.cursor_position(), (2, 4));

    // Test moving to specific row
    grid.move_cursor_to_row(1);
    assert_eq!(grid.cursor_position(), (2, 1));

    // Test moving to line start and end
    grid.move_cursor_to_line_start();
    assert_eq!(grid.cursor_position(), (0, 1));

    grid.move_cursor_to_line_end();
    assert_eq!(grid.cursor_position(), (9, 1));
}

#[test]
fn test_cursor_movement_bounds() {
    let mut grid = TerminalGrid::new(5, 3);

    // Test moving left from origin
    grid.set_cursor_position(0, 0);
    grid.move_cursor_left(5);
    assert_eq!(grid.cursor_position(), (0, 0));

    // Test moving up from origin
    grid.move_cursor_up(5);
    assert_eq!(grid.cursor_position(), (0, 0));

    // Test moving beyond right boundary
    grid.move_cursor_right(10);
    assert_eq!(grid.cursor_position(), (4, 0)); // Max col is 4 for 5-column grid

    // Test moving beyond bottom boundary
    grid.move_cursor_down(10);
    assert_eq!(grid.cursor_position(), (4, 2)); // Max row is 2 for 3-row grid
}

#[test]
fn test_csi_cursor_movement_integration() {
    
    let mut grid = TerminalGrid::new(10, 5);

    // Set initial cursor position
    grid.set_cursor_position(5, 2);
    assert_eq!(grid.cursor_position(), (5, 2));

    // Test cursor up
    grid.handle_csi_action(&CsiAction::CursorUp(1));
    assert_eq!(grid.cursor_position(), (5, 1));

    // Test cursor down
    grid.handle_csi_action(&CsiAction::CursorDown(2));
    assert_eq!(grid.cursor_position(), (5, 3));

    // Test cursor forward
    grid.handle_csi_action(&CsiAction::CursorForward(2));
    assert_eq!(grid.cursor_position(), (7, 3));

    // Test cursor backward
    grid.handle_csi_action(&CsiAction::CursorBackward(3));
    assert_eq!(grid.cursor_position(), (4, 3));

    // Test cursor next line
    grid.handle_csi_action(&CsiAction::CursorNextLine(1));
    assert_eq!(grid.cursor_position(), (0, 4)); // Should move to start of next line

    // Test cursor previous line
    grid.handle_csi_action(&CsiAction::CursorPreviousLine(2));
    assert_eq!(grid.cursor_position(), (0, 2)); // Should move to start of line 2 lines up

    // Test cursor horizontal absolute
    grid.handle_csi_action(&CsiAction::CursorHorizontalAbsolute(7));
    assert_eq!(grid.cursor_position(), (7, 2));

    // Test cursor position (absolute)
    grid.handle_csi_action(&CsiAction::CursorPosition(1, 3)); // 1-based in escape sequence, 0-based internally
    assert_eq!(grid.cursor_position(), (3, 1));

    // Test cursor position bounds checking
    grid.handle_csi_action(&CsiAction::CursorPosition(10, 15)); // Beyond grid bounds
    assert_eq!(grid.cursor_position(), (9, 4)); // Should be clamped
}
