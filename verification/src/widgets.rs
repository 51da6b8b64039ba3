//! A single-pass positioning utility: independent vertical, horizontal
//! and grid accumulators over a minimal text-widget abstraction. Unlike
//! the scoped compositor in [`crate::ui`], these place each widget as it
//! arrives, with no budget negotiation and no measure pass.

use vstd::prelude::*;
use crate::buffer::{ScreenBuffer, place_row};
use crate::ui::{sum_prefix, lemma_sum_prefix_mono, sum_cells};

verus! {

/// A renderable unit with a known footprint and a known rendering.
pub trait Widget {
    /// The widget's width in cells.
    spec fn spec_width(&self) -> nat;

    /// The widget's height in cells.
    spec fn spec_height(&self) -> nat;

    /// What the widget leaves on a grid of contents `g` and width `gw`
    /// when drawn with its top-left corner at `(x, y)`.
    spec fn spec_render(&self, g: Seq<char>, gw: nat, x: int, y: int) -> Seq<char>;

    /// The width in cells.
    fn width(&self) -> (r: usize)
        ensures
            r == self.spec_width(),
    ;

    /// The height in cells.
    fn height(&self) -> (r: usize)
        ensures
            r == self.spec_height(),
    ;

    /// Draws the widget with its top-left corner at `(x, y)`, clipped to
    /// the grid.
    fn render(&self, buf: &mut ScreenBuffer, x: usize, y: usize)
        requires
            old(buf).wf(),
        ensures
            final(buf).wf(),
            final(buf).spec_width() == old(buf).spec_width(),
            final(buf).spec_height() == old(buf).spec_height(),
            final(buf).contents() == self.spec_render(
                old(buf).contents(),
                old(buf).spec_width(),
                x as int,
                y as int,
            ),
    ;
}

/// One line of text as a widget.
pub struct TextWidget<'a> {
    pub text: &'a str,
}

impl<'a> Widget for TextWidget<'a> {
    open spec fn spec_width(&self) -> nat {
        self.text@.len()
    }

    open spec fn spec_height(&self) -> nat {
        1
    }

    open spec fn spec_render(&self, g: Seq<char>, gw: nat, x: int, y: int) -> Seq<char> {
        place_row(g, gw, x, y, self.text@)
    }

    fn width(&self) -> (r: usize) {
        self.text.unicode_len()
    }

    fn height(&self) -> (r: usize) {
        1
    }

    fn render(&self, buf: &mut ScreenBuffer, x: usize, y: usize) {
        buf.write_str(x, y, self.text);
    }
}

/// A top-to-bottom accumulator: each widget is rendered at the running
/// y position, which then moves down by the widget's height plus the gap.
pub struct VLayout {
    pub x: usize,
    pub y: usize,
    pub gap: usize,
    pub current_y: usize,
    pub width: usize,
}

impl VLayout {
    /// A fresh vertical accumulator at `(x, y)`.
    pub fn new(x: usize, y: usize, gap: usize) -> (r: VLayout)
        ensures
            r == (VLayout { x, y, gap, current_y: y, width: 0 }),
    {
        VLayout { x, y, gap, current_y: y, width: 0 }
    }

    /// Renders one widget at the running position and accumulates its
    /// footprint.
    pub fn widget<W: Widget>(&mut self, buf: &mut ScreenBuffer, widget: &W)
        requires
            old(buf).wf(),
            old(self).current_y + widget.spec_height() + old(self).gap <= usize::MAX,
        ensures
            final(buf).wf(),
            final(buf).spec_width() == old(buf).spec_width(),
            final(buf).spec_height() == old(buf).spec_height(),
            final(buf).contents() == widget.spec_render(
                old(buf).contents(),
                old(buf).spec_width(),
                old(self).x as int,
                old(self).current_y as int,
            ),
            *final(self) == (VLayout {
                current_y: (old(self).current_y + widget.spec_height() + old(self).gap) as usize,
                width: if widget.spec_width() > old(self).width {
                    widget.spec_width() as usize
                } else {
                    old(self).width
                },
                ..*old(self)
            }),
    {
        widget.render(buf, self.x, self.current_y);
        let w = widget.width();
        if w > self.width {
            self.width = w;
        }
        self.current_y = self.current_y + widget.height() + self.gap;
    }

    /// Renders one line of text at the running position.
    pub fn write_str(&mut self, buf: &mut ScreenBuffer, text: &str)
        requires
            old(buf).wf(),
            old(self).current_y + 1 + old(self).gap <= usize::MAX,
        ensures
            final(buf).wf(),
            final(buf).spec_width() == old(buf).spec_width(),
            final(buf).spec_height() == old(buf).spec_height(),
            final(buf).contents() == place_row(
                old(buf).contents(),
                old(buf).spec_width(),
                old(self).x as int,
                old(self).current_y as int,
                text@,
            ),
            *final(self) == (VLayout {
                current_y: (old(self).current_y + 1 + old(self).gap) as usize,
                width: if text@.len() > old(self).width {
                    text@.len() as usize
                } else {
                    old(self).width
                },
                ..*old(self)
            }),
    {
        let widget = TextWidget { text };
        self.widget(buf, &widget);
    }

    /// The accumulated width: the widest widget so far.
    pub fn width(&self) -> (r: usize)
        ensures
            r == self.width,
    {
        self.width
    }

    /// The accumulated height: the running travel less the trailing gap,
    /// saturating at zero.
    pub fn height(&self) -> (r: usize)
        requires
            self.current_y >= self.y,
        ensures
            r == (if self.current_y - self.y >= self.gap {
                self.current_y - self.y - self.gap
            } else {
                0
            }),
    {
        (self.current_y - self.y).saturating_sub(self.gap)
    }
}

/// A left-to-right accumulator: each widget is rendered at the running
/// x position, which then moves right by the widget's width plus the gap.
pub struct HLayout {
    pub x: usize,
    pub y: usize,
    pub gap: usize,
    pub current_x: usize,
    pub height: usize,
}

impl HLayout {
    /// A fresh horizontal accumulator at `(x, y)`.
    pub fn new(x: usize, y: usize, gap: usize) -> (r: HLayout)
        ensures
            r == (HLayout { x, y, gap, current_x: x, height: 0 }),
    {
        HLayout { x, y, gap, current_x: x, height: 0 }
    }

    /// Renders one widget at the running position and accumulates its
    /// footprint.
    pub fn widget<W: Widget>(&mut self, buf: &mut ScreenBuffer, widget: &W)
        requires
            old(buf).wf(),
            old(self).current_x + widget.spec_width() + old(self).gap <= usize::MAX,
        ensures
            final(buf).wf(),
            final(buf).spec_width() == old(buf).spec_width(),
            final(buf).spec_height() == old(buf).spec_height(),
            final(buf).contents() == widget.spec_render(
                old(buf).contents(),
                old(buf).spec_width(),
                old(self).current_x as int,
                old(self).y as int,
            ),
            *final(self) == (HLayout {
                current_x: (old(self).current_x + widget.spec_width() + old(self).gap) as usize,
                height: if widget.spec_height() > old(self).height {
                    widget.spec_height() as usize
                } else {
                    old(self).height
                },
                ..*old(self)
            }),
    {
        widget.render(buf, self.current_x, self.y);
        let h = widget.height();
        if h > self.height {
            self.height = h;
        }
        self.current_x = self.current_x + widget.width() + self.gap;
    }

    /// Renders one line of text at the running position.
    pub fn write_str(&mut self, buf: &mut ScreenBuffer, text: &str)
        requires
            old(buf).wf(),
            old(self).current_x + text@.len() + old(self).gap <= usize::MAX,
        ensures
            final(buf).wf(),
            final(buf).spec_width() == old(buf).spec_width(),
            final(buf).spec_height() == old(buf).spec_height(),
            final(buf).contents() == place_row(
                old(buf).contents(),
                old(buf).spec_width(),
                old(self).current_x as int,
                old(self).y as int,
                text@,
            ),
            *final(self) == (HLayout {
                current_x: (old(self).current_x + text@.len() + old(self).gap) as usize,
                height: if old(self).height == 0 {
                    1usize
                } else {
                    old(self).height
                },
                ..*old(self)
            }),
    {
        let widget = TextWidget { text };
        self.widget(buf, &widget);
    }

    /// The accumulated width: the running travel less the trailing gap,
    /// saturating at zero.
    pub fn width(&self) -> (r: usize)
        requires
            self.current_x >= self.x,
        ensures
            r == (if self.current_x - self.x >= self.gap {
                self.current_x - self.x - self.gap
            } else {
                0
            }),
    {
        (self.current_x - self.x).saturating_sub(self.gap)
    }

    /// The accumulated height: the tallest widget so far.
    pub fn height(&self) -> (r: usize)
        ensures
            r == self.height,
    {
        self.height
    }
}

/// A fixed-column accumulator: widgets flow left-to-right and wrap into
/// new rows, and each column's width and each row's height grow to the
/// largest widget placed there.
pub struct GridLayout {
    pub x: usize,
    pub y: usize,
    pub cols: usize,
    pub gap_x: usize,
    pub gap_y: usize,
    pub current_col: usize,
    pub current_row: usize,
    pub col_widths: Vec<usize>,
    pub row_heights: Vec<usize>,
}

/// The accumulator's structural invariant: a positive column count, one
/// width slot per column, the flow position inside the vectors.
pub open spec fn grid_layout_wf(g: GridLayout) -> bool {
    &&& g.cols >= 1
    &&& g.col_widths@.len() == g.cols
    &&& g.current_col < g.cols
    &&& g.current_row <= g.row_heights@.len()
}

/// The x position of the accumulator's next widget.
pub open spec fn grid_layout_x(g: GridLayout) -> int {
    g.x + sum_prefix(g.col_widths@, g.current_col as int) + g.current_col * g.gap_x
}

/// The y position of the accumulator's next widget.
pub open spec fn grid_layout_y(g: GridLayout) -> int {
    g.y + sum_prefix(g.row_heights@, g.current_row as int) + g.current_row * g.gap_y
}

impl GridLayout {
    /// A fresh grid accumulator at `(x, y)`.
    pub fn new(x: usize, y: usize, cols: usize, gap_x: usize, gap_y: usize) -> (r: GridLayout)
        requires
            cols >= 1,
        ensures
            grid_layout_wf(r),
            r.x == x,
            r.y == y,
            r.cols == cols,
            r.gap_x == gap_x,
            r.gap_y == gap_y,
            r.current_col == 0,
            r.current_row == 0,
            r.col_widths@ == Seq::new(cols as nat, |i: int| 0usize),
            r.row_heights@ == Seq::<usize>::empty(),
    {
        let mut wv: Vec<usize> = Vec::new();
        while wv.len() < cols
            invariant
                wv@.len() <= cols,
                forall|i: int| 0 <= i < wv@.len() ==> wv@[i] == 0usize,
            decreases cols - wv@.len(),
        {
            wv.push(0);
        }
        proof {
            assert(wv@ =~= Seq::new(cols as nat, |i: int| 0usize));
        }
        GridLayout {
            x,
            y,
            cols,
            gap_x,
            gap_y,
            current_col: 0,
            current_row: 0,
            col_widths: wv,
            row_heights: Vec::new(),
        }
    }

    /// Where the next widget will be rendered: the origin plus the widths
    /// of the previous columns and heights of the previous rows, with the
    /// gaps between them.
    pub fn current_position(&self) -> (r: (usize, usize))
        requires
            grid_layout_wf(*self),
            self.current_row <= self.row_heights@.len(),
            grid_layout_x(*self) <= usize::MAX,
            grid_layout_y(*self) <= usize::MAX,
        ensures
            r.0 == grid_layout_x(*self),
            r.1 == grid_layout_y(*self),
    {
        let mut wx: usize = self.x;
        let mut col: usize = 0;
        proof {
            lemma_sum_prefix_mono(self.col_widths@, 0, self.current_col as int);
            assert(0 <= self.current_col as int * self.gap_x as int) by (nonlinear_arith);
        }
        while col < self.current_col
            invariant
                col <= self.current_col,
                self.current_col <= self.col_widths@.len(),
                wx == self.x + sum_prefix(self.col_widths@, col as int) + col * self.gap_x,
                grid_layout_x(*self) <= usize::MAX,
                0 <= sum_prefix(self.col_widths@, col as int),
            decreases self.current_col - col,
        {
            proof {
                lemma_sum_prefix_mono(self.col_widths@, col as int, col as int + 1);
                lemma_sum_prefix_mono(self.col_widths@, col as int + 1, self.current_col as int);
                assert((col as int + 1) * self.gap_x as int <= self.current_col as int
                    * self.gap_x as int && col as int * self.gap_x as int + self.gap_x as int == (
                col as int + 1) * self.gap_x as int) by (nonlinear_arith)
                    requires
                        col as int + 1 <= self.current_col as int,
                        0 <= self.gap_x as int,
                ;
            }
            wx = wx + self.col_widths[col] + self.gap_x;
            col = col + 1;
        }
        let mut wy: usize = self.y;
        let mut row: usize = 0;
        proof {
            lemma_sum_prefix_mono(self.row_heights@, 0, self.current_row as int);
            assert(0 <= self.current_row as int * self.gap_y as int) by (nonlinear_arith);
        }
        while row < self.current_row
            invariant
                row <= self.current_row,
                self.current_row <= self.row_heights@.len(),
                wy == self.y + sum_prefix(self.row_heights@, row as int) + row * self.gap_y,
                grid_layout_y(*self) <= usize::MAX,
                0 <= sum_prefix(self.row_heights@, row as int),
            decreases self.current_row - row,
        {
            proof {
                lemma_sum_prefix_mono(self.row_heights@, row as int, row as int + 1);
                lemma_sum_prefix_mono(self.row_heights@, row as int + 1, self.current_row as int);
                assert((row as int + 1) * self.gap_y as int <= self.current_row as int
                    * self.gap_y as int && row as int * self.gap_y as int + self.gap_y as int == (
                row as int + 1) * self.gap_y as int) by (nonlinear_arith)
                    requires
                        row as int + 1 <= self.current_row as int,
                        0 <= self.gap_y as int,
                ;
            }
            wy = wy + self.row_heights[row] + self.gap_y;
            row = row + 1;
        }
        (wx, wy)
    }

    /// Renders one widget at the flow position, grows its column's width
    /// and row's height to cover it, and moves the flow on, wrapping at
    /// the column count.
    pub fn widget<W: Widget>(&mut self, buf: &mut ScreenBuffer, widget: &W)
        requires
            old(buf).wf(),
            grid_layout_wf(*old(self)),
            old(self).current_row < usize::MAX,
            grid_layout_x(*old(self)) <= usize::MAX,
            grid_layout_y(*old(self)) <= usize::MAX,
        ensures
            final(buf).wf(),
            final(buf).spec_width() == old(buf).spec_width(),
            final(buf).spec_height() == old(buf).spec_height(),
            final(buf).contents() == widget.spec_render(
                old(buf).contents(),
                old(buf).spec_width(),
                grid_layout_x(*old(self)),
                grid_layout_y(*old(self)),
            ),
            grid_layout_wf(*final(self)),
            final(self).x == old(self).x,
            final(self).y == old(self).y,
            final(self).cols == old(self).cols,
            final(self).gap_x == old(self).gap_x,
            final(self).gap_y == old(self).gap_y,
            final(self).col_widths@ == old(self).col_widths@.update(
                old(self).current_col as int,
                (if widget.spec_width() > old(self).col_widths@[old(self).current_col as int] {
                    widget.spec_width() as usize
                } else {
                    old(self).col_widths@[old(self).current_col as int]
                }),
            ),
            final(self).row_heights@ == (if old(self).current_row
                < old(self).row_heights@.len() {
                old(self).row_heights@.update(
                    old(self).current_row as int,
                    (if widget.spec_height() > old(self).row_heights@[old(
                        self,
                    ).current_row as int] {
                        widget.spec_height() as usize
                    } else {
                        old(self).row_heights@[old(self).current_row as int]
                    }),
                )
            } else {
                old(self).row_heights@.push(widget.spec_height() as usize)
            }),
            final(self).current_col == (if old(self).current_col + 1 >= old(self).cols {
                0int
            } else {
                old(self).current_col + 1
            }),
            final(self).current_row == (if old(self).current_col + 1 >= old(self).cols {
                old(self).current_row + 1
            } else {
                old(self).current_row as int
            }),
    {
        let (wx, wy) = self.current_position();
        widget.render(buf, wx, wy);
        let w = widget.width();
        if w > self.col_widths[self.current_col] {
            self.col_widths[self.current_col] = w;
        } else {
            proof {
                assert(self.col_widths@ =~= old(self).col_widths@.update(
                    old(self).current_col as int,
                    old(self).col_widths@[old(self).current_col as int],
                ));
            }
        }
        let h = widget.height();
        if self.row_heights.len() <= self.current_row {
            self.row_heights.push(h);
        } else {
            if h > self.row_heights[self.current_row] {
                self.row_heights[self.current_row] = h;
            } else {
                proof {
                    assert(self.row_heights@ =~= old(self).row_heights@.update(
                        old(self).current_row as int,
                        old(self).row_heights@[old(self).current_row as int],
                    ));
                }
            }
        }
        self.current_col = self.current_col + 1;
        if self.current_col >= self.cols {
            self.current_col = 0;
            self.current_row = self.current_row + 1;
        }
    }

    /// The accumulated width: every column plus the gaps between the
    /// columns.
    pub fn width(&self) -> (r: usize)
        requires
            grid_layout_wf(*self),
            sum_prefix(self.col_widths@, self.col_widths@.len() as int) + (self.cols - 1)
                * self.gap_x <= usize::MAX,
        ensures
            r == sum_prefix(self.col_widths@, self.col_widths@.len() as int) + (self.cols - 1)
                * self.gap_x,
    {
        proof {
            assert(0 <= (self.cols - 1) * self.gap_x) by (nonlinear_arith)
                requires
                    self.cols >= 1,
                    self.gap_x >= 0,
            ;
        }
        let ghost bound = sum_prefix(self.col_widths@, self.col_widths@.len() as int) + (
        self.cols - 1) * self.gap_x;
        let s = sum_cells(&self.col_widths, Ghost(bound));
        s + (self.cols - 1) * self.gap_x
    }

    /// The accumulated height: every row plus the gaps between the rows.
    pub fn height(&self) -> (r: usize)
        requires
            sum_prefix(self.row_heights@, self.row_heights@.len() as int) + (
            if self.row_heights@.len() >= 1 {
                self.row_heights@.len() - 1
            } else {
                0int
            }) * self.gap_y <= usize::MAX,
        ensures
            r == sum_prefix(self.row_heights@, self.row_heights@.len() as int) + (
            if self.row_heights@.len() >= 1 {
                self.row_heights@.len() - 1
            } else {
                0int
            }) * self.gap_y,
    {
        let rows = self.row_heights.len();
        let gaps = if rows >= 1 {
            rows - 1
        } else {
            0
        };
        proof {
            assert(0 <= gaps * self.gap_y) by (nonlinear_arith)
                requires
                    gaps >= 0,
                    self.gap_y >= 0,
            ;
        }
        let ghost bound = sum_prefix(self.row_heights@, self.row_heights@.len() as int)
            + gaps as int * self.gap_y;
        let s = sum_cells(&self.row_heights, Ghost(bound));
        s + gaps * self.gap_y
    }

    /// Renders one line of text at the flow position.
    pub fn write_str(&mut self, buf: &mut ScreenBuffer, text: &str)
        requires
            old(buf).wf(),
            grid_layout_wf(*old(self)),
            old(self).current_row < usize::MAX,
            grid_layout_x(*old(self)) <= usize::MAX,
            grid_layout_y(*old(self)) <= usize::MAX,
        ensures
            final(buf).wf(),
            final(buf).spec_width() == old(buf).spec_width(),
            final(buf).spec_height() == old(buf).spec_height(),
            final(buf).contents() == place_row(
                old(buf).contents(),
                old(buf).spec_width(),
                grid_layout_x(*old(self)),
                grid_layout_y(*old(self)),
                text@,
            ),
            grid_layout_wf(*final(self)),
    {
        let widget = TextWidget { text };
        self.widget(buf, &widget);
    }
}

} // verus!
