use gridui::buffer::ScreenBuffer;

const PREFIX: &str = "\u{1b}[2J\u{1b}[H";

fn row(buf: &ScreenBuffer, y: usize) -> String {
    let mut s = String::new();
    let mut x = 0;
    while x < buf.width() {
        s.push(buf.get(x, y));
        x += 1;
    }
    s
}

#[test]
fn put_char_then_read_back() {
    let mut buf = ScreenBuffer::new(4, 3);
    buf.put_char(2, 1, 'x');
    assert_eq!(buf.get(2, 1), 'x');
    assert_eq!(buf.get(1, 1), ' ');
}

#[test]
fn put_char_out_of_bounds_changes_nothing() {
    let mut buf = ScreenBuffer::new(4, 3);
    buf.put_char(1, 0, 'a');
    let before = buf.render();
    buf.put_char(4, 0, 'q');
    buf.put_char(0, 3, 'q');
    buf.put_char(usize::MAX, usize::MAX, 'q');
    assert_eq!(buf.render(), before);
}

#[test]
fn write_str_clips_at_right_edge() {
    let mut buf = ScreenBuffer::new(5, 2);
    buf.write_str(3, 0, "abcd");
    assert_eq!(row(&buf, 0), "   ab");
    assert_eq!(row(&buf, 1), "     ");
    buf.write_str(0, 2, "zz");
    assert_eq!(row(&buf, 0), "   ab");
}

#[test]
fn zero_renders_right_justified() {
    for width in 1..6 {
        let mut buf = ScreenBuffer::new(8, 1);
        buf.write_i64_right(0, 0, 0, width);
        for x in 0..width - 1 {
            assert_eq!(buf.get(x, 0), ' ');
        }
        assert_eq!(buf.get(width - 1, 0), '0');
    }
}

#[test]
fn integers_render_right_justified() {
    let mut buf = ScreenBuffer::new(10, 1);
    buf.write_i64_right(0, 0, 1234, 6);
    assert_eq!(row(&buf, 0), "  1234    ");
    buf.write_i64_right(0, 0, -56, 6);
    assert_eq!(row(&buf, 0), "   -56    ");
}

#[test]
fn integer_overflowing_its_field_keeps_low_digits() {
    let mut buf = ScreenBuffer::new(6, 1);
    buf.write_i64_right(0, 0, 123456, 4);
    assert_eq!(row(&buf, 0), "3456  ");
    buf.write_i64_right(0, 0, -123, 3);
    assert_eq!(row(&buf, 0), "1236  ");
}

#[test]
fn integer_field_blanks_stale_content() {
    let mut buf = ScreenBuffer::new(8, 1);
    buf.write_i64_right(0, 0, 987654, 8);
    buf.write_i64_right(0, 0, 3, 8);
    assert_eq!(row(&buf, 0), "       3");
}

#[test]
fn writing_a_number_twice_equals_writing_it_once() {
    let mut once = ScreenBuffer::new(10, 2);
    once.write_i64_right(1, 0, -470, 6);
    once.write_fixed_right(0, 1, 2525, 7, 2);
    let mut twice = ScreenBuffer::new(10, 2);
    twice.write_i64_right(1, 0, -470, 6);
    twice.write_i64_right(1, 0, -470, 6);
    twice.write_fixed_right(0, 1, 2525, 7, 2);
    twice.write_fixed_right(0, 1, 2525, 7, 2);
    assert_eq!(twice.render(), once.render());
}

#[test]
fn fixed_point_renders_scaled_value() {
    let mut buf = ScreenBuffer::new(10, 1);
    buf.write_fixed_right(0, 0, 12345, 8, 3);
    assert_eq!(row(&buf, 0), "  12.345  ");
    buf.write_fixed_right(0, 0, -2050, 8, 2);
    assert_eq!(row(&buf, 0), "  -20.50  ");
    buf.write_fixed_right(0, 0, 7, 8, 0);
    assert_eq!(row(&buf, 0), "       7  ");
}

#[test]
fn fixed_point_parses_back_when_wide_enough() {
    let cases: [(f64, usize); 5] = [(12.345, 3), (-47.06, 2), (0.25, 4), (1900.5, 1), (-0.5, 1)];
    for (value, precision) in cases {
        let scale = 10i64.pow(precision as u32) as f64;
        let scaled = (value * scale).round() as i64;
        let mut buf = ScreenBuffer::new(16, 1);
        buf.write_fixed_right(0, 0, scaled, 16, precision);
        let text = row(&buf, 0);
        let parsed: f64 = text.trim().parse().unwrap();
        assert_eq!(parsed, (scaled as f64) / scale);
    }
}

#[test]
fn fixed_point_keeps_its_sign_between_minus_one_and_zero() {
    let mut buf = ScreenBuffer::new(6, 1);
    buf.write_fixed_right(0, 0, -5, 5, 1);
    assert_eq!(row(&buf, 0), " -0.5 ");
}

#[test]
fn lines_clip_each_cell() {
    let mut buf = ScreenBuffer::new(4, 3);
    buf.draw_hline(2, 1, 5, '=');
    assert_eq!(row(&buf, 1), "  ==");
    buf.draw_vline(0, 1, 7, '#');
    assert_eq!(buf.get(0, 1), '#');
    assert_eq!(buf.get(0, 2), '#');
    assert_eq!(buf.get(0, 0), ' ');
}

#[test]
fn frame_strokes_corners_and_edges() {
    let mut buf = ScreenBuffer::new(6, 4);
    buf.draw_frame(0, 0, 5, 3);
    assert_eq!(row(&buf, 0), "┌---┐ ");
    assert_eq!(row(&buf, 1), "|   | ");
    assert_eq!(row(&buf, 2), "└---┘ ");
    assert_eq!(row(&buf, 3), "      ");
}

#[test]
fn degenerate_frame_overlaps_corners_without_failing() {
    let mut buf = ScreenBuffer::new(4, 4);
    buf.draw_frame(1, 1, 1, 1);
    assert_eq!(buf.get(1, 1), '┘');
}

#[test]
fn clear_blanks_every_cell() {
    let mut buf = ScreenBuffer::new(3, 2);
    buf.write_str(0, 0, "abc");
    buf.write_str(0, 1, "def");
    buf.clear();
    assert_eq!(row(&buf, 0), "   ");
    assert_eq!(row(&buf, 1), "   ");
}

#[test]
fn most_negative_integer_renders_whole() {
    let mut buf = ScreenBuffer::new(20, 1);
    buf.write_i64_right(0, 0, i64::MIN, 20);
    assert_eq!(row(&buf, 0), "-9223372036854775808");
}

#[test]
fn zero_width_field_changes_nothing() {
    let mut buf = ScreenBuffer::new(4, 1);
    buf.write_str(0, 0, "abcd");
    let before = buf.render();
    buf.write_i64_right(1, 0, 5, 0);
    buf.write_fixed_right(1, 0, 5, 0, 2);
    assert_eq!(buf.render(), before);
}

#[test]
fn render_serializes_rows_with_control_prefix() {
    let mut buf = ScreenBuffer::new(3, 2);
    buf.write_str(0, 0, "ab");
    buf.put_char(2, 1, 'z');
    let s: String = buf.render().iter().collect();
    assert_eq!(s, format!("{}ab \n  z\n", PREFIX));
}
