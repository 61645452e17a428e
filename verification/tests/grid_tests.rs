use neuterm::color::{Color, NamedColor};
use neuterm::grid::{named_from_index, parse_extended_color, TerminalGrid};

fn write(g: &mut TerminalGrid, s: &str) {
    for c in s.chars() {
        g.put_char(c);
    }
}

#[test]
fn new_grid_is_blank_and_at_least_one_cell() {
    let g = TerminalGrid::new(0, 0, 10);
    assert_eq!((g.cols(), g.rows()), (1, 1));
    let g = TerminalGrid::new(4, 2, 10);
    let snap = g.snapshot();
    assert_eq!(snap.cells.len(), 8);
    assert!(snap.cells.iter().all(|c| c.ch == ' '));
    assert_eq!(g.visible_lines(), vec![String::new(), String::new()]);
}

#[test]
fn printing_advances_and_wraps() {
    let mut g = TerminalGrid::new(3, 2, 10);
    write(&mut g, "abcd");
    assert_eq!(g.visible_lines(), vec!["abc".to_string(), "d".to_string()]);
    assert_eq!((g.cursor_col(), g.cursor_row()), (1, 1));
}

#[test]
fn scrolling_keeps_bounded_history() {
    let mut g = TerminalGrid::new(2, 2, 1);
    write(&mut g, "a\r\nb\r\nc\r\nd");
    assert_eq!(g.visible_lines(), vec!["c".to_string(), "d".to_string()]);
}

#[test]
fn tab_moves_to_next_stop() {
    let mut g = TerminalGrid::new(20, 2, 10);
    write(&mut g, "ab\tc");
    assert_eq!(g.visible_lines()[0], "ab      c");
    assert_eq!(g.cursor_col(), 9);
}

#[test]
fn cursor_moves_clamp() {
    let mut g = TerminalGrid::new(10, 5, 10);
    g.cursor_goto(3, 4);
    assert_eq!((g.cursor_row(), g.cursor_col()), (2, 3));
    g.cursor_up(10);
    assert_eq!(g.cursor_row(), 0);
    g.cursor_down(0);
    assert_eq!(g.cursor_row(), 1);
    g.cursor_forward(50);
    assert_eq!(g.cursor_col(), 9);
    g.cursor_back(4);
    assert_eq!(g.cursor_col(), 5);
    g.cursor_goto(0, 99);
    assert_eq!((g.cursor_row(), g.cursor_col()), (0, 9));
    g.carriage_return();
    assert_eq!(g.cursor_col(), 0);
    g.backspace();
    assert_eq!(g.cursor_col(), 0);
}

#[test]
fn erase_in_line_and_display() {
    let mut g = TerminalGrid::new(4, 2, 10);
    write(&mut g, "abcdefgh");
    g.cursor_goto(1, 2);
    g.erase_in_line(0);
    assert_eq!(g.visible_lines(), vec!["a".to_string(), "efgh".to_string()]);
    g.cursor_goto(2, 2);
    g.erase_in_display(1);
    assert_eq!(g.visible_lines(), vec![String::new(), "  gh".to_string()]);
    g.erase_in_display(2);
    assert_eq!(g.visible_lines(), vec![String::new(), String::new()]);
}

#[test]
fn sgr_sets_pen_for_new_cells() {
    let mut g = TerminalGrid::new(6, 1, 0);
    g.sgr(&[1, 31]);
    write(&mut g, "x");
    g.sgr(&[0]);
    write(&mut g, "y");
    g.sgr(&[38, 5, 200, 48, 2, 1, 2, 3]);
    write(&mut g, "z");
    let snap = g.snapshot();
    assert!(snap.cells[0].attr.bold);
    assert!(matches!(snap.cells[0].fg, Color::Named(NamedColor::Red)));
    assert!(!snap.cells[1].attr.bold);
    assert!(matches!(snap.cells[1].fg, Color::Named(NamedColor::Foreground)));
    assert!(matches!(snap.cells[2].fg, Color::Indexed(200)));
    assert!(matches!(snap.cells[2].bg, Color::Rgb(1, 2, 3)));
}

#[test]
fn save_then_restore_returns_cursor() {
    let mut g = TerminalGrid::new(10, 5, 10);
    g.cursor_goto(4, 6);
    g.save_cursor();
    g.cursor_goto(1, 1);
    g.restore_cursor();
    assert_eq!((g.cursor_row(), g.cursor_col()), (3, 5));
}

#[test]
fn saved_cursor_past_last_column_comes_back_clamped() {
    let mut g = TerminalGrid::new(3, 2, 10);
    write(&mut g, "abc");
    assert_eq!(g.cursor_col(), 3);
    g.save_cursor();
    g.restore_cursor();
    assert_eq!(g.cursor_col(), 2);
}

#[test]
fn resize_keeps_content_and_clamps_cursor() {
    let mut g = TerminalGrid::new(5, 3, 10);
    write(&mut g, "hello");
    g.resize(3, 2);
    assert_eq!((g.cols(), g.rows()), (3, 2));
    assert!(g.cursor_col() <= 2);
    g.resize(8, 4);
    assert_eq!(g.snapshot().cells.len(), 32);
}

#[test]
fn text_range_is_order_independent() {
    let mut g = TerminalGrid::new(4, 3, 10);
    write(&mut g, "abcdefghij");
    let snap = g.snapshot();
    assert_eq!(snap.text_range(1, 0, 2, 1), "bcd\nefg");
    assert_eq!(snap.text_range(2, 1, 1, 0), "bcd\nefg");
    assert_eq!(snap.text_range(0, 2, 1, 2), "ij");
}

#[test]
fn title_round_trip() {
    let mut g = TerminalGrid::new(4, 1, 0);
    assert_eq!(g.title(), "");
    g.set_title("vim".to_string());
    assert_eq!(g.title(), "vim");
}

#[test]
fn palette_index_names() {
    assert!(matches!(named_from_index(1, false), NamedColor::Red));
    assert!(matches!(named_from_index(7, true), NamedColor::BrightWhite));
    assert!(matches!(named_from_index(9, false), NamedColor::Foreground));
}

#[test]
fn extended_colors() {
    let mut i = 0usize;
    assert!(matches!(parse_extended_color(&[38, 5, 300], &mut i), Some(Color::Indexed(255))));
    assert_eq!(i, 2);
    let mut i = 0usize;
    assert!(matches!(parse_extended_color(&[38, 2, -5, 128, 999], &mut i), Some(Color::Rgb(0, 128, 255))));
    assert_eq!(i, 4);
    let mut i = 0usize;
    assert!(parse_extended_color(&[38, 2, 1], &mut i).is_none());
    assert_eq!(i, 0);
}

#[test]
fn colors_resolve_against_palette() {
    let mut ansi = [[0u8; 3]; 16];
    ansi[1] = [200, 0, 0];
    let fg = [1, 2, 3];
    let bg = [4, 5, 6];
    assert_eq!(Color::Named(NamedColor::Red).to_rgb(&ansi, fg, bg), [200, 0, 0]);
    assert_eq!(Color::Named(NamedColor::Background).to_rgb(&ansi, fg, bg), bg);
    assert_eq!(Color::Indexed(16).to_rgb(&ansi, fg, bg), [0, 0, 0]);
    assert_eq!(Color::Indexed(231).to_rgb(&ansi, fg, bg), [255, 255, 255]);
    assert_eq!(Color::Indexed(232).to_rgb(&ansi, fg, bg), [8, 8, 8]);
    assert_eq!(Color::Rgb(9, 8, 7).to_rgb(&ansi, fg, bg), [9, 8, 7]);
}

#[test]
fn cursor_motion_stops_at_the_edges_whatever_the_count() {
    let mut g = TerminalGrid::new(10, 5, 0);
    g.cursor_down(65535);
    assert_eq!(g.snapshot().cursor_row, 4);
    g.cursor_forward(65535);
    assert_eq!(g.snapshot().cursor_col, 9);
    let mut wide = TerminalGrid::new(65535, 2, 0);
    wide.cursor_forward(65535);
    assert_eq!(wide.snapshot().cursor_col, 65534);
    wide.put_char('x');
    assert_eq!(wide.cursor_col(), 65535);
    // A tab from the last column, past every 16-bit tab stop, wraps to the next line.
    wide.put_char('\t');
    let s = wide.snapshot();
    assert_eq!((s.cursor_col, s.cursor_row), (0, 1));
}

#[test]
fn erase_to_cursor_with_a_pending_wrap_clears_the_row() {
    let mut g = TerminalGrid::new(3, 2, 0);
    write(&mut g, "abc");
    assert_eq!(g.cursor_col(), 3);
    g.erase_in_display(1);
    let s = g.snapshot();
    assert!(s.cells[0..3].iter().all(|c| c.ch == ' '));
}

#[test]
fn restore_after_other_operations_returns_to_the_saved_cursor() {
    let mut g = TerminalGrid::new(10, 4, 0);
    write(&mut g, "abc\r\nde");
    g.save_cursor();
    write(&mut g, "xyz\n\n\n\n\tq");
    g.cursor_goto(1, 1);
    g.cursor_down(2);
    g.cursor_forward(7);
    g.erase_in_display(2);
    g.erase_in_line(0);
    g.sgr(&[1, 31]);
    g.backspace();
    g.carriage_return();
    g.line_feed();
    g.cursor_up(1);
    g.cursor_back(1);
    g.restore_cursor();
    let s = g.snapshot();
    assert_eq!((s.cursor_col, s.cursor_row), (2, 1));
}

#[test]
fn text_range_lines_carry_no_trailing_spaces() {
    let mut g = TerminalGrid::new(6, 3, 0);
    write(&mut g, "ab    cd  \t ef");
    let snap = g.snapshot();
    let text = snap.text_range(0, 0, 5, 2);
    for line in text.split('\n') {
        assert_eq!(line, line.trim_end());
    }
    assert_eq!(text, "ab\ncd\n ef");
}
