use gridui::buffer::ScreenBuffer;
use gridui::widgets::{GridLayout, HLayout, VLayout};

fn row(buf: &ScreenBuffer, y: usize) -> String {
    let mut s = String::new();
    let mut x = 0;
    while x < buf.width() {
        s.push(buf.get(x, y));
        x += 1;
    }
    s
}

#[test]
fn vertical_flow_stacks_lines() {
    let mut buf = ScreenBuffer::new(8, 5);
    let mut v = VLayout::new(1, 0, 1);
    v.write_str(&mut buf, "one");
    v.write_str(&mut buf, "three");
    assert_eq!(row(&buf, 0), " one    ");
    assert_eq!(row(&buf, 1), "        ");
    assert_eq!(row(&buf, 2), " three  ");
    assert_eq!(v.width(), 5);
    assert_eq!(v.height(), 3);
}

#[test]
fn horizontal_flow_places_side_by_side() {
    let mut buf = ScreenBuffer::new(12, 2);
    let mut h = HLayout::new(0, 1, 2);
    h.write_str(&mut buf, "ab");
    h.write_str(&mut buf, "cde");
    assert_eq!(row(&buf, 1), "ab  cde     ");
    assert_eq!(h.width(), 7);
    assert_eq!(h.height(), 1);
}

#[test]
fn grid_flow_wraps_and_tracks_column_widths() {
    let mut buf = ScreenBuffer::new(16, 4);
    let mut g = GridLayout::new(0, 0, 2, 1, 0);
    g.write_str(&mut buf, "abc");
    g.write_str(&mut buf, "de");
    g.write_str(&mut buf, "f");
    g.write_str(&mut buf, "ghij");
    assert_eq!(row(&buf, 0), "abc de          ");
    assert_eq!(row(&buf, 1), "f   ghij        ");
    assert_eq!(g.col_widths, vec![3, 4]);
    assert_eq!(g.row_heights, vec![1, 1]);
    assert_eq!(g.width(), 8);
    assert_eq!(g.height(), 2);
}
