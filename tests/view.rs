//! Tests of the renderer's view of rows.

use quantaterm::cell::{Cell, CellAttrs};
use quantaterm::components::RendererColor;
use quantaterm::grid::TerminalGrid;
use quantaterm::view::{RendererCell, TextView};

#[test]
fn text_lines_become_rows_without_blank_ones() {
    let mut view = TextView::new();
    view.add_text("hello\r\nworld\n\n   \nx\r");
    let text = view.get_viewport_text();
    assert_eq!(text, vec!["hello".to_string(), "world".to_string(), "x\r".to_string()]);
}

#[test]
fn only_the_last_hundred_rows_are_kept() {
    let mut view = TextView::new();
    let text: Vec<String> = (0..150).map(|i| format!("line{}", i)).collect();
    view.add_text(&text.join("\n"));
    let rows = view.get_viewport_text();
    assert_eq!(rows.len(), 100);
    assert_eq!(rows[0], "line50");
    assert_eq!(rows[99], "line149");
}

#[test]
fn formatted_rows_replace_the_view() {
    let mut view = TextView::new();
    let mut cell = RendererCell::new('A' as u32);
    cell.fg_color = RendererColor::rgb(1, 2, 3);
    cell.attrs = CellAttrs::bold();
    view.update_viewport(vec![vec![cell, RendererCell::new(' ' as u32)], vec![RendererCell::new(0)]]);
    assert_eq!(view.get_cell_colors(0, 0), Some((RendererColor::rgb(1, 2, 3), RendererColor::rgb(0, 0, 0))));
    assert_eq!(view.get_cell_attributes(0, 0), Some(CellAttrs::bold()));
    assert_eq!(view.get_cell_colors(1, 1), None);
    assert_eq!(view.content_counts(), (1, 3));
    assert_eq!(view.get_viewport_text(), vec!["A ".to_string(), " ".to_string()]);
}

#[test]
fn grid_viewport_reaches_the_view() {
    let mut grid = TerminalGrid::new(4, 2);
    grid.set_cell(0, 0, Cell::new('h' as u32));
    grid.set_cell(1, 0, Cell::new('i' as u32));
    let mut view = TextView::new();
    grid.update_renderer(&mut view);
    assert_eq!(view.get_viewport_text(), vec!["hi  ".to_string()]);
}
