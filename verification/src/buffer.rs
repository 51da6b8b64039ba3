//! A fixed-size character grid with bounds-clipped writes.
//!
//! The grid is a dense row-major sequence of cells; every write primitive
//! silently drops the cells that fall outside the grid. The effect of each
//! write is stated with [`place_row`] and [`place_col`], which overlay a
//! horizontal or vertical run of characters onto the grid, clipped to it.

use vstd::prelude::*;
use crate::fields::{blanks, repeat_char, right_field, int_field, fixed_field, int_rep, fixed_rep,
    push_dec, push_frac, pow10_u64};

verus! {

/// Does the flat index `j` of a grid `w` cells wide fall on row `y`, in
/// the column span `[x, x + n)`?
pub open spec fn in_row_span(w: nat, x: int, y: int, n: int, j: int) -> bool {
    w > 0 && j / (w as int) == y && x <= j % (w as int) < x + n
}

/// Does the flat index `j` of a grid `w` cells wide fall on column `x`,
/// in the row span `[y, y + n)`?
pub open spec fn in_col_span(w: nat, x: int, y: int, n: int, j: int) -> bool {
    w > 0 && j % (w as int) == x && y <= j / (w as int) < y + n
}

/// The grid `g`, of width `w`, with `field` laid left-to-right from
/// `(x, y)`; cells that fall outside the grid are dropped.
pub open spec fn place_row(g: Seq<char>, w: nat, x: int, y: int, field: Seq<char>) -> Seq<char> {
    Seq::new(
        g.len(),
        |j: int|
            if in_row_span(w, x, y, field.len() as int, j) {
                field[j % (w as int) - x]
            } else {
                g[j]
            },
    )
}

/// The grid `g`, of width `w`, with `seg` laid top-to-bottom from
/// `(x, y)`; cells that fall outside the grid are dropped.
pub open spec fn place_col(g: Seq<char>, w: nat, x: int, y: int, seg: Seq<char>) -> Seq<char> {
    Seq::new(
        g.len(),
        |j: int|
            if in_col_span(w, x, y, seg.len() as int, j) {
                seg[j / (w as int) - y]
            } else {
                g[j]
            },
    )
}

/// A flat index splits into its row and column.
proof fn lemma_index_split(w: int, j: int)
    requires
        1 <= w,
        0 <= j,
    ensures
        j == (j / w) * w + j % w,
        0 <= j % w < w,
        0 <= j / w,
{
    vstd::arithmetic::div_mod::lemma_fundamental_div_mod(j, w);
    vstd::arithmetic::div_mod::lemma_mod_bound(j, w);
    vstd::arithmetic::div_mod::lemma_div_pos_is_pos(j, w);
    assert((j / w) * w == w * (j / w)) by (nonlinear_arith);
}

/// The flat index of the cell at `(x, y)`.
proof fn lemma_cell_index(w: int, x: int, y: int)
    requires
        1 <= w,
        0 <= x < w,
        0 <= y,
    ensures
        (y * w + x) / w == y,
        (y * w + x) % w == x,
        y * w + x >= 0,
{
    assert(y * w + x >= 0 && y * w + x == y * w + x) by (nonlinear_arith)
        requires
            0 <= x,
            0 <= y,
            w >= 1,
    ;
    vstd::arithmetic::div_mod::lemma_fundamental_div_mod_converse(y * w + x, w, y, x);
}

/// Every flat index of a `w` by `h` grid lies on a row below `h`.
proof fn lemma_index_row_bound(w: int, h: int, j: int)
    requires
        1 <= w,
        0 <= j < w * h,
    ensures
        j / w < h,
{
    lemma_index_split(w, j);
    assert(j / w < h) by (nonlinear_arith)
        requires
            j == (j / w) * w + j % w,
            0 <= j % w,
            j < w * h,
            w >= 1,
    ;
}

/// A run placed wholly outside the grid changes nothing.
proof fn lemma_place_row_clip(g: Seq<char>, w: nat, h: nat, x: int, y: int, field: Seq<char>)
    requires
        g.len() == w * h,
        x >= w || y < 0 || y >= h,
    ensures
        place_row(g, w, x, y, field) =~= g,
{
    assert forall|j: int| 0 <= j < g.len() implies !in_row_span(
        w,
        x,
        y,
        field.len() as int,
        j,
    ) by {
        if w > 0 {
            lemma_index_split(w as int, j);
            lemma_index_row_bound(w as int, h as int, j);
        }
    }
}

/// Writing the same run at the same place twice leaves the grid exactly as
/// writing it once: each write blanks and refills the whole span, so the
/// second pass reproduces the first.
pub proof fn lemma_place_row_idempotent(g: Seq<char>, w: nat, x: int, y: int, field: Seq<char>)
    ensures
        place_row(place_row(g, w, x, y, field), w, x, y, field) =~= place_row(g, w, x, y, field),
{
}

/// A zero written right-justified into a field of positive width leaves
/// its first `width - 1` cells blank and a `0` in its last cell, read
/// back cell by cell from the placed grid.
pub proof fn lemma_zero_field_cells(g: Seq<char>, w: nat, h: nat, x: int, y: int, width: nat)
    requires
        g.len() == w * h,
        width >= 1,
        0 <= x,
        x + width <= w,
        0 <= y < h,
    ensures
        forall|i: int|
            0 <= i < width - 1 ==> #[trigger] place_row(g, w, x, y, int_field(0, width))[y * w + x
                + i] == ' ',
        place_row(g, w, x, y, int_field(0, width))[y * w + x + (width - 1)] == '0',
{
    crate::fields::lemma_zero_int_field(width);
    assert((y + 1) * w <= h * w && y * w >= 0) by (nonlinear_arith)
        requires
            0 <= y < h,
            w >= 1,
    ;
    assert forall|i: int| 0 <= i < width implies place_row(g, w, x, y, int_field(0, width))[y * w
        + x + i] == int_field(0, width)[i] by {
        lemma_cell_index(w as int, x + i, y);
        assert(y * w + x + i < g.len()) by (nonlinear_arith)
            requires
                g.len() == w * h,
                (y + 1) * w <= h * w,
                0 <= y * w,
                x + i < w,
                0 <= x + i,
                0 <= y,
        ;
    }
    assert forall|i: int| 0 <= i < width - 1 implies int_field(0, width)[i] == ' ' by {
        assert(blanks((width - 1) as nat)[i] == ' ');
    }
    assert forall|i: int| 0 <= i < width - 1 implies #[trigger] place_row(
        g,
        w,
        x,
        y,
        int_field(0, width),
    )[y * w + x + i] == ' ' by {
        assert(place_row(g, w, x, y, int_field(0, width))[y * w + x + i] == int_field(0, width)[i]);
    }
    assert(int_field(0, width)[width - 1] == '0');
    assert(place_row(g, w, x, y, int_field(0, width))[y * w + x + (width - 1)] == int_field(
        0,
        width,
    )[width - 1]);
}

/// A fixed-size grid of display cells, each holding one character; blank
/// cells hold a space.
pub struct ScreenBuffer {
    width: usize,
    height: usize,
    cells: Vec<char>,
}

impl ScreenBuffer {
    /// The grid's width in cells.
    pub closed spec fn spec_width(&self) -> nat {
        self.width as nat
    }

    /// The grid's height in cells.
    pub closed spec fn spec_height(&self) -> nat {
        self.height as nat
    }

    /// The cells, row-major.
    pub closed spec fn contents(&self) -> Seq<char> {
        self.cells@
    }

    /// The cell store covers exactly the grid.
    pub open spec fn wf(&self) -> bool {
        self.contents().len() == self.spec_width() * self.spec_height()
    }

    /// The character at `(x, y)`.
    pub open spec fn char_at(&self, x: int, y: int) -> char {
        self.contents()[y * self.spec_width() + x]
    }

    /// A fresh grid of the given size, all cells blank.
    pub fn new(width: usize, height: usize) -> (r: ScreenBuffer)
        requires
            width * height <= usize::MAX,
        ensures
            r.wf(),
            r.spec_width() == width,
            r.spec_height() == height,
            r.contents() == blanks((width * height) as nat),
    {
        let n = width * height;
        let mut cells: Vec<char> = Vec::new();
        while cells.len() < n
            invariant
                cells@.len() <= n,
                forall|j: int| 0 <= j < cells@.len() ==> cells@[j] == ' ',
            decreases n - cells@.len(),
        {
            cells.push(' ');
        }
        proof {
            assert(cells@ =~= blanks((width * height) as nat));
        }
        ScreenBuffer { width, height, cells }
    }

    /// The width in cells.
    pub fn width(&self) -> (r: usize)
        ensures
            r == self.spec_width(),
    {
        self.width
    }

    /// The height in cells.
    pub fn height(&self) -> (r: usize)
        ensures
            r == self.spec_height(),
    {
        self.height
    }

    /// The character at an in-bounds cell.
    pub fn get(&self, x: usize, y: usize) -> (c: char)
        requires
            self.wf(),
            x < self.spec_width(),
            y < self.spec_height(),
        ensures
            c == self.char_at(x as int, y as int),
    {
        proof {
            lemma_cell_index(self.spec_width() as int, x as int, y as int);
            assert(y * self.spec_width() + x < self.spec_width() * self.spec_height())
                by (nonlinear_arith)
                requires
                    x < self.spec_width(),
                    y < self.spec_height(),
            ;
        }
        let n = self.cells.len();
        let idx = y * self.width + x;
        self.cells[idx]
    }

    /// Resets every cell to blank.
    pub fn clear(&mut self)
        requires
            old(self).wf(),
        ensures
            final(self).wf(),
            final(self).spec_width() == old(self).spec_width(),
            final(self).spec_height() == old(self).spec_height(),
            final(self).contents() == blanks(old(self).contents().len() as nat),
    {
        let n = self.cells.len();
        let mut i: usize = 0;
        while i < n
            invariant
                i <= n,
                n == self.cells@.len(),
                self.width == old(self).width,
                self.height == old(self).height,
                forall|j: int| 0 <= j < i ==> self.cells@[j] == ' ',
            decreases n - i,
        {
            self.cells[i] = ' ';
            i = i + 1;
        }
        proof {
            assert(self.contents() =~= blanks(old(self).contents().len() as nat));
        }
    }

    /// Writes one character; a no-op when `(x, y)` is out of bounds.
    pub fn put_char(&mut self, x: usize, y: usize, ch: char)
        requires
            old(self).wf(),
        ensures
            final(self).wf(),
            final(self).spec_width() == old(self).spec_width(),
            final(self).spec_height() == old(self).spec_height(),
            final(self).contents() == place_row(
                old(self).contents(),
                old(self).spec_width(),
                x as int,
                y as int,
                seq![ch],
            ),
            x < old(self).spec_width() && y < old(self).spec_height() ==> final(self).contents()
                == old(self).contents().update(
                y as int * old(self).spec_width() as int + x as int,
                ch,
            ),
            !(x < old(self).spec_width() && y < old(self).spec_height()) ==> final(self).contents()
                == old(self).contents(),
    {
        let ghost g0 = self.contents();
        let ghost w = self.spec_width();
        let ghost h = self.spec_height();
        if x >= self.width || y >= self.height {
            proof {
                lemma_place_row_clip(g0, w, h, x as int, y as int, seq![ch]);
            }
            return ;
        }
        proof {
            lemma_cell_index(w as int, x as int, y as int);
            assert(y * w + x < w * h) by (nonlinear_arith)
                requires
                    x < w,
                    y < h,
            ;
        }
        let n = self.cells.len();
        let idx = y * self.width + x;
        self.cells[idx] = ch;
        proof {
            assert forall|j: int|
                0 <= j < g0.len() && j != y * w + x implies !in_row_span(
                w,
                x as int,
                y as int,
                1,
                j,
            ) by {
                if in_row_span(w, x as int, y as int, 1, j) {
                    lemma_index_split(w as int, j);
                }
            }
            assert(self.contents() =~= place_row(g0, w, x as int, y as int, seq![ch]));
        }
    }

    /// Writes `text` left-to-right from `(x, y)`, stopping silently at the
    /// grid's right edge; a no-op when `y` is out of bounds.
    pub fn write_str(&mut self, x: usize, y: usize, text: &str)
        requires
            old(self).wf(),
        ensures
            final(self).wf(),
            final(self).spec_width() == old(self).spec_width(),
            final(self).spec_height() == old(self).spec_height(),
            final(self).contents() == place_row(
                old(self).contents(),
                old(self).spec_width(),
                x as int,
                y as int,
                text@,
            ),
    {
        let ghost g0 = self.contents();
        let ghost w = self.spec_width();
        let ghost h = self.spec_height();
        if y >= self.height || x >= self.width {
            proof {
                lemma_place_row_clip(g0, w, h, x as int, y as int, text@);
            }
            return ;
        }
        let n = text.unicode_len();
        let lim = self.width - x;
        let m = if n < lim {
            n
        } else {
            lim
        };
        let mut i: usize = 0;
        while i < m
            invariant
                i <= m,
                m <= n,
                n == text@.len(),
                m <= w - x,
                x < w,
                y < h,
                self.wf(),
                self.spec_width() == w,
                self.spec_height() == h,
                self.contents().len() == g0.len(),
                g0.len() == w * h,
                forall|j: int|
                    0 <= j < g0.len() ==> self.contents()[j] == (if in_row_span(
                        w,
                        x as int,
                        y as int,
                        i as int,
                        j,
                    ) {
                        text@[j % (w as int) - x]
                    } else {
                        g0[j]
                    }),
            decreases m - i,
        {
            let c = text.get_char(i);
            let ghost prev = self.contents();
            self.put_char(x + i, y, c);
            proof {
                lemma_cell_index(w as int, x as int + i, y as int);
                assert forall|j: int| 0 <= j < g0.len() implies self.contents()[j] == (
                if in_row_span(w, x as int, y as int, i + 1, j) {
                    text@[j % (w as int) - x]
                } else {
                    g0[j]
                }) by {
                    lemma_index_split(w as int, j);
                }
            }
            i = i + 1;
        }
        proof {
            assert forall|j: int| 0 <= j < g0.len() implies (in_row_span(
                w,
                x as int,
                y as int,
                m as int,
                j,
            ) == in_row_span(w, x as int, y as int, text@.len() as int, j)) by {
                lemma_index_split(w as int, j);
            }
            assert(self.contents() =~= place_row(g0, w, x as int, y as int, text@));
        }
    }

    /// Writes `rep`, right-justified, into the `width` cells from `(x, y)`:
    /// blanks, then the representation, its leading characters dropped when
    /// it is longer than the field.
    fn write_field_right(&mut self, x: usize, y: usize, rep: &Vec<char>, width: usize)
        requires
            old(self).wf(),
            x + width <= usize::MAX,
        ensures
            final(self).wf(),
            final(self).spec_width() == old(self).spec_width(),
            final(self).spec_height() == old(self).spec_height(),
            final(self).contents() == place_row(
                old(self).contents(),
                old(self).spec_width(),
                x as int,
                y as int,
                right_field(rep@, width as nat),
            ),
    {
        let ghost g0 = self.contents();
        let ghost w = self.spec_width();
        let ghost h = self.spec_height();
        let ghost fld = right_field(rep@, width as nat);
        proof {
            assert(fld.len() == width);
        }
        let k = if rep.len() >= width {
            width
        } else {
            rep.len()
        };
        let mut i: usize = 0;
        while i < width
            invariant
                i <= width,
                x + width <= usize::MAX,
                k == if rep@.len() >= width {
                    width as int
                } else {
                    rep@.len() as int
                },
                fld == right_field(rep@, width as nat),
                fld.len() == width,
                self.wf(),
                self.spec_width() == w,
                self.spec_height() == h,
                self.contents().len() == g0.len(),
                g0.len() == w * h,
                forall|j: int|
                    0 <= j < g0.len() ==> self.contents()[j] == (if in_row_span(
                        w,
                        x as int,
                        y as int,
                        i as int,
                        j,
                    ) {
                        fld[j % (w as int) - x]
                    } else {
                        g0[j]
                    }),
            decreases width - i,
        {
            let c = if i < width - k {
                ' '
            } else {
                let idx = (rep.len() - k) + (i - (width - k));
                rep[idx]
            };
            proof {
                assert(c == fld[i as int]);
            }
            let ghost prev = self.contents();
            self.put_char(x + i, y, c);
            proof {
                if x + i < w && y < h {
                    lemma_cell_index(w as int, x as int + i, y as int);
                }
                assert forall|j: int| 0 <= j < g0.len() implies self.contents()[j] == (
                if in_row_span(w, x as int, y as int, i + 1, j) {
                    fld[j % (w as int) - x]
                } else {
                    g0[j]
                }) by {
                    if w > 0 {
                        lemma_index_split(w as int, j);
                        if h > 0 {
                            lemma_index_row_bound(w as int, h as int, j);
                        }
                    }
                }
            }
            i = i + 1;
        }
        proof {
            assert(self.contents() =~= place_row(g0, w, x as int, y as int, fld));
        }
    }

    /// Writes a right-justified signed decimal integer into the `width`
    /// cells from `(x, y)`: the field is blanked, zero renders as a single
    /// `0` in the rightmost cell, and when the digits outgrow the field the
    /// most significant ones (and the sign) are silently dropped.
    pub fn write_i64_right(&mut self, x: usize, y: usize, value: i64, width: usize)
        requires
            old(self).wf(),
            x + width <= usize::MAX,
        ensures
            final(self).wf(),
            final(self).spec_width() == old(self).spec_width(),
            final(self).spec_height() == old(self).spec_height(),
            final(self).contents() == place_row(
                old(self).contents(),
                old(self).spec_width(),
                x as int,
                y as int,
                int_field(value as int, width as nat),
            ),
    {
        let mut rep: Vec<char> = Vec::new();
        if value < 0 {
            rep.push('-');
        }
        let m: u64 = if value < 0 {
            (-(value as i128)) as u64
        } else {
            value as u64
        };
        push_dec(&mut rep, m);
        proof {
            assert(rep@ =~= int_rep(value as int));
        }
        self.write_field_right(x, y, &rep, width);
    }

    /// Writes a right-justified fixed-point number into the `width` cells
    /// from `(x, y)`. `scaled` is the value already multiplied by ten to
    /// the `precision` and rounded to an integer; the field shows a sign
    /// for a negative value, its truncated integer part, a point, and
    /// exactly `precision` fraction digits, blanked and truncated like
    /// the integer writer.
    pub fn write_fixed_right(&mut self, x: usize, y: usize, scaled: i64, width: usize, precision: usize)
        requires
            old(self).wf(),
            x + width <= usize::MAX,
            precision <= 18,
        ensures
            final(self).wf(),
            final(self).spec_width() == old(self).spec_width(),
            final(self).spec_height() == old(self).spec_height(),
            final(self).contents() == place_row(
                old(self).contents(),
                old(self).spec_width(),
                x as int,
                y as int,
                fixed_field(scaled as int, width as nat, precision as nat),
            ),
    {
        let scale: u64 = pow10_u64(precision);
        let m: u64 = if scaled < 0 {
            (-(scaled as i128)) as u64
        } else {
            scaled as u64
        };
        proof {
            crate::fields::lemma_pow10_pos(precision as nat);
        }
        let ip: u64 = m / scale;
        let fr: u64 = m % scale;
        let mut rep: Vec<char> = Vec::new();
        if scaled < 0 {
            rep.push('-');
        }
        push_dec(&mut rep, ip);
        if precision > 0 {
            rep.push('.');
            push_frac(&mut rep, fr, precision);
        }
        proof {
            assert(rep@ =~= fixed_rep(scaled as int, precision as nat));
        }
        self.write_field_right(x, y, &rep, width);
    }

    /// Strokes up to `len` cells of `ch` rightwards from `(x, y)`, each
    /// cell clipped to the grid independently.
    pub fn draw_hline(&mut self, x: usize, y: usize, len: usize, ch: char)
        requires
            old(self).wf(),
        ensures
            final(self).wf(),
            final(self).spec_width() == old(self).spec_width(),
            final(self).spec_height() == old(self).spec_height(),
            final(self).contents() == place_row(
                old(self).contents(),
                old(self).spec_width(),
                x as int,
                y as int,
                repeat_char(ch, len as nat),
            ),
    {
        let ghost g0 = self.contents();
        let ghost w = self.spec_width();
        let ghost h = self.spec_height();
        if y >= self.height || x >= self.width {
            proof {
                lemma_place_row_clip(g0, w, h, x as int, y as int, repeat_char(ch, len as nat));
            }
            return ;
        }
        let lim = self.width - x;
        let m = if len < lim {
            len
        } else {
            lim
        };
        let mut i: usize = 0;
        while i < m
            invariant
                i <= m,
                m <= len,
                m <= w - x,
                x < w,
                y < h,
                self.wf(),
                self.spec_width() == w,
                self.spec_height() == h,
                self.contents().len() == g0.len(),
                g0.len() == w * h,
                forall|j: int|
                    0 <= j < g0.len() ==> self.contents()[j] == (if in_row_span(
                        w,
                        x as int,
                        y as int,
                        i as int,
                        j,
                    ) {
                        ch
                    } else {
                        g0[j]
                    }),
            decreases m - i,
        {
            self.put_char(x + i, y, ch);
            proof {
                lemma_cell_index(w as int, x as int + i, y as int);
                assert forall|j: int| 0 <= j < g0.len() implies self.contents()[j] == (
                if in_row_span(w, x as int, y as int, i + 1, j) {
                    ch
                } else {
                    g0[j]
                }) by {
                    lemma_index_split(w as int, j);
                }
            }
            i = i + 1;
        }
        proof {
            assert forall|j: int| 0 <= j < g0.len() implies (in_row_span(
                w,
                x as int,
                y as int,
                m as int,
                j,
            ) == in_row_span(w, x as int, y as int, len as int, j)) by {
                lemma_index_split(w as int, j);
            }
            assert(self.contents() =~= place_row(
                g0,
                w,
                x as int,
                y as int,
                repeat_char(ch, len as nat),
            ));
        }
    }

    /// Strokes up to `len` cells of `ch` downwards from `(x, y)`, each
    /// cell clipped to the grid independently.
    pub fn draw_vline(&mut self, x: usize, y: usize, len: usize, ch: char)
        requires
            old(self).wf(),
        ensures
            final(self).wf(),
            final(self).spec_width() == old(self).spec_width(),
            final(self).spec_height() == old(self).spec_height(),
            final(self).contents() == place_col(
                old(self).contents(),
                old(self).spec_width(),
                x as int,
                y as int,
                repeat_char(ch, len as nat),
            ),
    {
        let ghost g0 = self.contents();
        let ghost w = self.spec_width();
        let ghost h = self.spec_height();
        if y >= self.height || x >= self.width {
            proof {
                assert forall|j: int| 0 <= j < g0.len() implies !in_col_span(
                    w,
                    x as int,
                    y as int,
                    len as int,
                    j,
                ) by {
                    if w > 0 {
                        lemma_index_split(w as int, j);
                        lemma_index_row_bound(w as int, h as int, j);
                    }
                }
                assert(place_col(g0, w, x as int, y as int, repeat_char(ch, len as nat)) =~= g0);
            }
            return ;
        }
        let lim = self.height - y;
        let m = if len < lim {
            len
        } else {
            lim
        };
        let mut i: usize = 0;
        while i < m
            invariant
                i <= m,
                m <= len,
                m <= h - y,
                x < w,
                y < h,
                self.wf(),
                self.spec_width() == w,
                self.spec_height() == h,
                self.contents().len() == g0.len(),
                g0.len() == w * h,
                forall|j: int|
                    0 <= j < g0.len() ==> self.contents()[j] == (if in_col_span(
                        w,
                        x as int,
                        y as int,
                        i as int,
                        j,
                    ) {
                        ch
                    } else {
                        g0[j]
                    }),
            decreases m - i,
        {
            self.put_char(x, y + i, ch);
            proof {
                lemma_cell_index(w as int, x as int, y as int + i);
                assert forall|j: int| 0 <= j < g0.len() implies self.contents()[j] == (
                if in_col_span(w, x as int, y as int, i + 1, j) {
                    ch
                } else {
                    g0[j]
                }) by {
                    lemma_index_split(w as int, j);
                }
            }
            i = i + 1;
        }
        proof {
            assert forall|j: int| 0 <= j < g0.len() implies (in_col_span(
                w,
                x as int,
                y as int,
                m as int,
                j,
            ) == in_col_span(w, x as int, y as int, len as int, j)) by {
                lemma_index_split(w as int, j);
                lemma_index_row_bound(w as int, h as int, j);
            }
            assert(self.contents() =~= place_col(
                g0,
                w,
                x as int,
                y as int,
                repeat_char(ch, len as nat),
            ));
        }
    }
    /// Draws a rectangular frame with corner glyphs and stroked edges:
    /// corners first, then the top and bottom interiors, then the left and
    /// right interiors. With a width or height below two the interiors are
    /// empty and the corners overlap.
    pub fn draw_frame(&mut self, x: usize, y: usize, w: usize, h: usize)
        requires
            old(self).wf(),
            w >= 1,
            h >= 1,
            x + w <= usize::MAX,
            y + h <= usize::MAX,
        ensures
            final(self).wf(),
            final(self).spec_width() == old(self).spec_width(),
            final(self).spec_height() == old(self).spec_height(),
            final(self).contents() == frame_glyphs(
                old(self).contents(),
                old(self).spec_width(),
                x as int,
                y as int,
                w as nat,
                h as nat,
            ),
    {
        self.put_char(x, y, '┌');
        self.put_char(x + w - 1, y, '┐');
        self.put_char(x, y + h - 1, '└');
        self.put_char(x + w - 1, y + h - 1, '┘');
        let iw = if w >= 2 {
            w - 2
        } else {
            0
        };
        let ih = if h >= 2 {
            h - 2
        } else {
            0
        };
        self.draw_hline(x + 1, y, iw, '-');
        self.draw_hline(x + 1, y + h - 1, iw, '-');
        self.draw_vline(x, y + 1, ih, '|');
        self.draw_vline(x + w - 1, y + 1, ih, '|');
    }

    /// The full serialized form of the grid: a terminal clear-and-home
    /// control sequence, then each row's `width` characters followed by a
    /// line break, top to bottom.
    pub open spec fn render_spec(&self) -> Seq<char> {
        clear_code() + rows_text(self.contents(), self.spec_width(), self.spec_height())
    }

    /// Serializes the grid row-major, one newline-terminated line per row,
    /// prefixed by the terminal clear-and-home control sequence.
    pub fn render(&self) -> (out: Vec<char>)
        requires
            self.wf(),
        ensures
            out@ == self.render_spec(),
    {
        let ghost g = self.contents();
        let ghost w = self.spec_width();
        let ghost h = self.spec_height();
        let mut out: Vec<char> = Vec::new();
        out.push('\u{1b}');
        out.push('[');
        out.push('2');
        out.push('J');
        out.push('\u{1b}');
        out.push('[');
        out.push('H');
        proof {
            assert(out@ =~= clear_code());
        }
        let n = self.cells.len();
        let mut y: usize = 0;
        while y < self.height
            invariant
                y <= h,
                self.wf(),
                self.spec_width() == w,
                self.spec_height() == h,
                self.contents() == g,
                n == g.len(),
                out@ == clear_code() + rows_text(g, w, y as nat),
            decreases h - y,
        {
            let mut x: usize = 0;
            proof {
                assert(0 <= y as int * w as int && y as int * w as int + w as int <= g.len())
                    by (nonlinear_arith)
                    requires
                        y < h,
                        0 <= w,
                        g.len() == w * h,
                ;
                assert(g.subrange(y as int * w as int, y as int * w as int) =~= Seq::<
                    char,
                >::empty());
            }
            while x < self.width
                invariant
                    x <= w,
                    y < h,
                    self.wf(),
                    self.spec_width() == w,
                    self.spec_height() == h,
                    self.contents() == g,
                    n == g.len(),
                    out@ == clear_code() + rows_text(g, w, y as nat) + g.subrange(
                        y as int * w as int,
                        y as int * w as int + x as int,
                    ),
                decreases w - x,
            {
                proof {
                    assert(y * w + x < w * h) by (nonlinear_arith)
                        requires
                            x < w,
                            y < h,
                    ;
                    assert((y * w + w) <= w * h) by (nonlinear_arith)
                        requires
                            y < h,
                            0 <= w,
                    ;
                }
                let idx = y * self.width + x;
                out.push(self.cells[idx]);
                proof {
                    assert(g.subrange(y as int * w as int, y as int * w as int + x as int + 1)
                        =~= g.subrange(y as int * w as int, y as int * w as int + x as int).push(
                        g[y as int * w as int + x as int],
                    ));
                }
                x = x + 1;
            }
            out.push('\n');
            proof {
                assert(out@ =~= clear_code() + rows_text(g, w, (y + 1) as nat));
            }
            y = y + 1;
        }
        out
    }
}

/// The terminal clear-and-home control sequence that precedes a rendered
/// grid.
pub open spec fn clear_code() -> Seq<char> {
    seq!['\u{1b}', '[', '2', 'J', '\u{1b}', '[', 'H']
}

/// The first `n` rows of the grid `g`, each followed by a line break.
pub open spec fn rows_text(g: Seq<char>, w: nat, n: nat) -> Seq<char>
    decreases n,
{
    if n == 0 {
        Seq::<char>::empty()
    } else {
        rows_text(g, w, (n - 1) as nat) + g.subrange(
            (n - 1) as int * w as int,
            (n - 1) as int * w as int + w as int,
        ) + seq!['\n']
    }
}

/// The grid after a rectangular frame is drawn on it: the four corner
/// glyphs, then the top and bottom interior strokes, then the left and
/// right interior strokes, in that order.
pub open spec fn frame_glyphs(g: Seq<char>, w: nat, x: int, y: int, fw: nat, fh: nat) -> Seq<
    char,
> {
    let iw: nat = if fw >= 2 {
        (fw - 2) as nat
    } else {
        0nat
    };
    let ih: nat = if fh >= 2 {
        (fh - 2) as nat
    } else {
        0nat
    };
    let g1 = place_row(g, w, x, y, seq!['┌']);
    let g2 = place_row(g1, w, x + fw - 1, y, seq!['┐']);
    let g3 = place_row(g2, w, x, y + fh - 1, seq!['└']);
    let g4 = place_row(g3, w, x + fw - 1, y + fh - 1, seq!['┘']);
    let g5 = place_row(g4, w, x + 1, y, repeat_char('-', iw));
    let g6 = place_row(g5, w, x + 1, y + fh - 1, repeat_char('-', iw));
    let g7 = place_col(g6, w, x, y + 1, repeat_char('|', ih));
    place_col(g7, w, x + fw - 1, y + 1, repeat_char('|', ih))
}

} // verus!
