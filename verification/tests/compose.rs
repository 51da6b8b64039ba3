use gridui::buffer::ScreenBuffer;
use gridui::ui::{Align, BorderKind, StretchHint, Ui};

const PREFIX: &str = "\u{1b}[2J\u{1b}[H";

fn row(buf: &ScreenBuffer, y: usize) -> String {
    let mut s = String::new();
    let mut x = 0;
    while x < buf.width() {
        s.push(buf.get(x, y));
        x += 1;
    }
    s
}

#[test]
fn label_then_render_fills_first_row() {
    let mut buf = ScreenBuffer::new(10, 3);
    let mut ui = Ui::new(0, 0);
    ui.label(&mut buf, "hi", None, Align::Left);
    let s: String = buf.render().iter().collect();
    assert!(s.starts_with(PREFIX));
    let body = &s[PREFIX.len()..];
    assert_eq!(body.lines().next().unwrap(), "hi        ");
}

#[test]
fn label_truncates_to_its_field() {
    let mut buf = ScreenBuffer::new(10, 2);
    let mut ui = Ui::new(0, 0);
    ui.label(&mut buf, "abcdef", Some(3), Align::Left);
    assert_eq!(row(&buf, 0), "abc       ");
}

#[test]
fn right_aligned_label_sits_at_field_end() {
    let mut buf = ScreenBuffer::new(10, 2);
    let mut ui = Ui::new(0, 0);
    ui.label(&mut buf, "ab", Some(5), Align::Right);
    assert_eq!(row(&buf, 0), "   ab     ");
}

#[test]
fn outer_right_alignment_ends_at_the_budget_edge() {
    let mut buf = ScreenBuffer::new(20, 2);
    buf.put_char(2, 0, 'Z');
    buf.put_char(6, 0, 'Q');
    let mut ui = Ui::new(0, 0);
    ui.available_x = Some(10);
    ui.label_align(&mut buf, "x", Some(5), Align::Right, Align::Right);
    assert_eq!(buf.get(9, 0), 'x');
    for x in 5..9 {
        assert_eq!(buf.get(x, 0), ' ');
    }
    assert_eq!(buf.get(2, 0), 'Z');
    assert_eq!(row(&buf, 1), "                    ");
}

#[test]
fn vertical_scope_folds_heights_and_max_width() {
    let mut buf = ScreenBuffer::new(30, 10);
    let mut ui = Ui::new(0, 0);
    ui.spacing = 2;
    let mut child = ui.vertical();
    child.label(&mut buf, "abc", None, Align::Left);
    child.label(&mut buf, "abcde", None, Align::Left);
    assert_eq!(child.used_x, 5);
    assert_eq!(child.max_y - child.start_y, 4);
    ui.end_child(child);
    assert_eq!(ui.max_y, 4);
    assert_eq!(ui.used_x, 5);
    assert_eq!(ui.cursor_y, 6);
}

#[test]
fn horizontal_scope_folds_widths() {
    let mut buf = ScreenBuffer::new(30, 5);
    let mut ui = Ui::new(0, 0);
    let mut child = ui.horizontal();
    child.label(&mut buf, "ab", None, Align::Left);
    child.label(&mut buf, "cd", None, Align::Left);
    ui.end_child(child);
    assert_eq!(ui.max_x, 4);
    assert_eq!(row(&buf, 0), "abcd                          ");
}

#[test]
fn space_advances_without_drawing() {
    let mut buf = ScreenBuffer::new(10, 5);
    let mut ui = Ui::new(0, 0);
    ui.space(3);
    ui.label(&mut buf, "lo", None, Align::Left);
    assert_eq!(row(&buf, 3), "lo        ");
    assert_eq!(row(&buf, 0), "          ");
}

#[test]
fn numbers_render_at_the_cursor() {
    let mut buf = ScreenBuffer::new(12, 3);
    let mut ui = Ui::new(0, 0);
    ui.number_i64(&mut buf, -47, 6);
    ui.number_fixed(&mut buf, 314, 2, 6);
    assert_eq!(row(&buf, 0), "   -47      ");
    assert_eq!(row(&buf, 1), "  3.14      ");
    assert_eq!(ui.cursor_y, 2);
}

#[test]
fn budget_exhaustion_turns_unbounded() {
    let mut buf = ScreenBuffer::new(10, 10);
    let mut ui = Ui::new(0, 0);
    ui.available_y = Some(3);
    ui.label(&mut buf, "a", None, Align::Left);
    assert_eq!(ui.available_y, Some(2));
    ui.label(&mut buf, "b", None, Align::Left);
    assert_eq!(ui.available_y, Some(1));
    ui.space(5);
    assert_eq!(ui.available_y, None);
    ui.label(&mut buf, "c", None, Align::Left);
    assert_eq!(ui.available_y, None);
}

#[test]
fn bordered_frame_strokes_its_box() {
    let mut buf = ScreenBuffer::new(12, 6);
    let mut ui = Ui::new(0, 0);
    let mut inner = ui.frame_begin(1);
    inner.label(&mut buf, "hi", None, Align::Left);
    ui.frame_end(&mut buf, inner, 1, BorderKind::Full, StretchHint::Compact);
    assert_eq!(row(&buf, 0), "+--+        ");
    assert_eq!(row(&buf, 1), "|hi|        ");
    assert_eq!(row(&buf, 2), "+--+        ");
    assert_eq!(ui.max_x, 4);
    assert_eq!(ui.max_y, 3);
}

#[test]
fn stretched_frame_fills_the_budget() {
    let mut buf = ScreenBuffer::new(12, 6);
    let mut ui = Ui::new(0, 0);
    ui.available_x = Some(9);
    ui.available_y = Some(4);
    let mut inner = ui.frame_begin(0);
    inner.label(&mut buf, "a", None, Align::Left);
    ui.frame_end(&mut buf, inner, 0, BorderKind::Full, StretchHint::Full);
    assert_eq!(ui.max_x, 9);
    assert_eq!(ui.max_y, 4);
    assert_eq!(buf.get(0, 0), '+');
    assert_eq!(buf.get(8, 0), '+');
    assert_eq!(buf.get(0, 3), '+');
    assert_eq!(buf.get(8, 3), '+');
}

#[test]
fn frame_shrinks_the_child_budget_by_its_padding() {
    let ui = {
        let mut u = Ui::new(0, 0);
        u.available_x = Some(10);
        u.available_y = Some(2);
        u
    };
    let inner = ui.frame_begin(1);
    assert_eq!(inner.available_x, Some(8));
    assert_eq!(inner.available_y, None);
    assert_eq!(inner.cursor_x, 1);
    assert_eq!(inner.cursor_y, 1);
}

#[test]
fn grid_measures_columns_then_draws() {
    let texts = ["abc", "abcde", "ab", "abcdefg"];
    let mut buf = ScreenBuffer::new(20, 5);
    let mut ui = Ui::new(0, 0);
    let mut g = ui.grid_begin(2, 1);
    for text in texts {
        let mut cell = g.cell_begin();
        cell.label(&mut buf, text, None, Align::Left);
        g.cell_end(cell);
    }
    assert_eq!(g.max_col_width, vec![3, 7]);
    assert_eq!(g.max_row_height, vec![1, 1]);
    assert_eq!(row(&buf, 0), "                    ");
    let mut g = ui.grid_draw_begin(g);
    for text in texts {
        let mut cell = g.cell_begin();
        cell.label(&mut buf, text, None, Align::Left);
        g.cell_end(cell);
    }
    ui.grid_end(g);
    assert_eq!(ui.max_x, 11);
    assert_eq!(ui.max_y, 3);
    assert_eq!(row(&buf, 0), "abc abcde           ");
    assert_eq!(row(&buf, 2), "ab  abcdefg         ");
    assert_eq!(row(&buf, 1), "                    ");
}

#[test]
fn empty_label_advances_one_row() {
    let mut buf = ScreenBuffer::new(6, 3);
    let mut ui = Ui::new(0, 0);
    ui.label(&mut buf, "", None, Align::Left);
    ui.label(&mut buf, "at", None, Align::Left);
    assert_eq!(ui.cursor_y, 2);
    assert_eq!(row(&buf, 0), "      ");
    assert_eq!(row(&buf, 1), "at    ");
}

#[test]
fn clear_resets_scope_and_grid() {
    let mut buf = ScreenBuffer::new(6, 2);
    let mut ui = Ui::new(0, 0);
    ui.spacing = 3;
    ui.label(&mut buf, "abc", None, Align::Left);
    ui.clear(&mut buf);
    assert_eq!(row(&buf, 0), "      ");
    assert_eq!(ui.cursor_y, 0);
    assert_eq!(ui.spacing, 0);
    assert!(ui.draw);
}
