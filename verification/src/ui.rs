//! The cursor-driven layout compositor.
//!
//! A [`Ui`] is a layout scope over one [`ScreenBuffer`]: it carries an
//! absolute cursor, high-water-mark extents that only grow, an optional
//! remaining-space budget per axis, the accumulated cross-axis size, a
//! main axis, inter-item spacing and a draw flag. Nested scopes are opened
//! with the `vertical`, `horizontal`, `frame_begin` and grid methods and
//! folded back into their parent with the matching `end` call, which adds
//! the child's footprint along the parent's main axis.
//!
//! Every state change is mirrored by a spec function — [`spec_advance`],
//! [`spec_scope`], [`spec_frame_scope`] — so a caller can compute a whole
//! composition's layout in its proofs.

use vstd::prelude::*;
use crate::buffer::{ScreenBuffer, place_row, in_row_span, in_col_span};
use crate::fields::{blanks, int_field, fixed_field};

verus! {

/// The direction along which a scope places successive items.
#[derive(Clone, Copy, PartialEq, Eq, Structural, Debug)]
pub enum LayoutKind {
    Vertical,
    Horizontal,
}

/// Whether a frame draws a border.
#[derive(Clone, Copy, PartialEq, Eq, Structural, Debug)]
pub enum BorderKind {
    Full,
    No,
}

/// Whether a frame grows to fill the remaining budget.
#[derive(Clone, Copy, PartialEq, Eq, Structural, Debug)]
pub enum StretchHint {
    Full,
    Compact,
}

/// Whether content sits flush to the start or the end of its field.
#[derive(Clone, Copy, PartialEq, Eq, Structural, Debug)]
pub enum Align {
    Left,
    Right,
}

/// A layout scope: cursor, growing extents, per-axis budget, accumulated
/// cross-axis size, main axis, spacing and draw flag. `start_x`/`start_y`
/// remember where the scope was opened, so that its footprint can be
/// folded into the parent.
#[derive(Clone, Copy)]
pub struct Ui {
    pub cursor_x: usize,
    pub cursor_y: usize,
    pub start_x: usize,
    pub start_y: usize,
    pub max_x: usize,
    pub max_y: usize,
    pub available_x: Option<usize>,
    pub available_y: Option<usize>,
    pub used_x: usize,
    pub used_y: usize,
    pub layout: LayoutKind,
    pub spacing: usize,
    pub draw: bool,
}

/// The budget left on an axis after consuming `used` cells: once a
/// consumption would exceed the budget, the budget becomes permanently
/// unbounded.
pub open spec fn next_avail(a: Option<usize>, used: int) -> Option<usize> {
    match a {
        Some(v) => if used <= v {
            Some((v - used) as usize)
        } else {
            None
        },
        None => None,
    }
}

/// The machine bounds under which an advance by `(w, h)` stays within
/// `usize`.
pub open spec fn advance_fits(u: Ui, w: int, h: int) -> bool {
    &&& 0 <= w
    &&& 0 <= h
    &&& u.cursor_x + w <= usize::MAX
    &&& u.cursor_y + h <= usize::MAX
    &&& (u.layout is Vertical ==> u.cursor_y + h + u.spacing <= usize::MAX)
    &&& (u.layout is Horizontal ==> u.cursor_x + w + u.spacing <= usize::MAX)
}

/// The scope after placing an item of footprint `(w, h)` at its cursor:
/// the extents grow to cover the item, the cross-axis used size and the
/// main-axis budget are updated, and the cursor moves along the main axis
/// by the footprint plus spacing.
pub open spec fn spec_advance(u: Ui, w: int, h: int) -> Ui {
    let mx = if u.cursor_x + w > u.max_x {
        (u.cursor_x + w) as usize
    } else {
        u.max_x
    };
    let my = if u.cursor_y + h > u.max_y {
        (u.cursor_y + h) as usize
    } else {
        u.max_y
    };
    match u.layout {
        LayoutKind::Vertical => Ui {
            max_x: mx,
            max_y: my,
            used_x: if w > u.used_x {
                w as usize
            } else {
                u.used_x
            },
            available_y: next_avail(u.available_y, h),
            cursor_y: (u.cursor_y + h + u.spacing) as usize,
            ..u
        },
        LayoutKind::Horizontal => Ui {
            max_x: mx,
            max_y: my,
            used_y: if h > u.used_y {
                h as usize
            } else {
                u.used_y
            },
            available_x: next_avail(u.available_x, w),
            cursor_x: (u.cursor_x + w + u.spacing) as usize,
            ..u
        },
    }
}

/// A child scope seeded at the parent's cursor: it inherits the budget,
/// spacing and draw flag, starts with empty extents, and runs along
/// `layout`.
pub open spec fn spec_scope(u: Ui, layout: LayoutKind) -> Ui {
    Ui {
        cursor_x: u.cursor_x,
        cursor_y: u.cursor_y,
        start_x: u.cursor_x,
        start_y: u.cursor_y,
        max_x: u.cursor_x,
        max_y: u.cursor_y,
        available_x: u.available_x,
        available_y: u.available_y,
        used_x: 0,
        used_y: 0,
        layout,
        spacing: u.spacing,
        draw: u.draw,
    }
}

/// The width a finished child scope folds into its parent: its net cursor
/// travel along its own main axis, or its cross-axis used size.
pub open spec fn scope_width(c: Ui) -> int {
    match c.layout {
        LayoutKind::Vertical => c.used_x as int,
        LayoutKind::Horizontal => c.max_x - c.start_x,
    }
}

/// The height a finished child scope folds into its parent.
pub open spec fn scope_height(c: Ui) -> int {
    match c.layout {
        LayoutKind::Vertical => c.max_y - c.start_y,
        LayoutKind::Horizontal => c.used_y as int,
    }
}

/// An axis budget reduced by a frame's padding on both sides; a
/// non-positive remainder counts as unbounded.
pub open spec fn frame_avail(a: Option<usize>, padding: int) -> Option<usize> {
    match a {
        Some(v) => if v > 2 * padding {
            Some((v - 2 * padding) as usize)
        } else {
            None
        },
        None => None,
    }
}

/// A frame's child scope: inset by `padding` on every side, vertical,
/// with the budget shrunk by the padding.
pub open spec fn spec_frame_scope(u: Ui, padding: int) -> Ui {
    Ui {
        cursor_x: (u.cursor_x + padding) as usize,
        cursor_y: (u.cursor_y + padding) as usize,
        start_x: (u.cursor_x + padding) as usize,
        start_y: (u.cursor_y + padding) as usize,
        max_x: (u.cursor_x + padding) as usize,
        max_y: (u.cursor_y + padding) as usize,
        available_x: frame_avail(u.available_x, padding),
        available_y: frame_avail(u.available_y, padding),
        used_x: 0,
        used_y: 0,
        layout: LayoutKind::Vertical,
        spacing: u.spacing,
        draw: u.draw,
    }
}

/// The value of an axis budget, or zero when unbounded.
pub open spec fn avail_or_zero(a: Option<usize>) -> int {
    match a {
        Some(v) => v as int,
        None => 0,
    }
}

/// The width of a finished frame: the child's extent plus padding on both
/// sides, raised to the parent's whole budget when the frame stretches.
pub open spec fn frame_used_w(u: Ui, child: Ui, padding: int, stretch: StretchHint) -> int {
    let base = child.max_x - u.cursor_x + padding;
    match stretch {
        StretchHint::Full => if base >= avail_or_zero(u.available_x) {
            base
        } else {
            avail_or_zero(u.available_x)
        },
        StretchHint::Compact => base,
    }
}

/// The height of a finished frame.
pub open spec fn frame_used_h(u: Ui, child: Ui, padding: int, stretch: StretchHint) -> int {
    let base = child.max_y - u.cursor_y + padding;
    match stretch {
        StretchHint::Full => if base >= avail_or_zero(u.available_y) {
            base
        } else {
            avail_or_zero(u.available_y)
        },
        StretchHint::Compact => base,
    }
}

/// The effective width of a label field: the explicit width, or the
/// text's own length.
pub open spec fn label_width(t: Seq<char>, width: Option<usize>) -> int {
    match width {
        Some(w) => w as int,
        None => t.len() as int,
    }
}

/// The field a label leaves behind: the text, truncated to the field from
/// its end, flush to the field's start or end, with blanks elsewhere.
pub open spec fn label_field(t: Seq<char>, w: nat, align: Align) -> Seq<char> {
    let vis = if t.len() <= w {
        t.len() as int
    } else {
        w as int
    };
    match align {
        Align::Left => t.take(vis) + blanks((w - vis) as nat),
        Align::Right => blanks((w - vis) as nat) + t.take(vis),
    }
}

/// Where an outer-aligned label's field begins: at the cursor, or flush
/// to the far edge of the known horizontal budget; with no known budget
/// it falls back to the cursor.
pub open spec fn label_outer_start(u: Ui, w: int, outer: Align) -> int {
    match u.available_x {
        Some(a) => match outer {
            Align::Left => u.cursor_x as int,
            Align::Right => u.cursor_x + (if a >= w {
                a - w
            } else {
                0
            }),
        },
        None => u.cursor_x as int,
    }
}

/// The scope with its cross-axis used width raised to at least `w`.
pub open spec fn bump_used_x(u: Ui, w: int) -> Ui {
    Ui {
        used_x: if w > u.used_x {
            w as usize
        } else {
            u.used_x
        },
        ..u
    }
}

impl Ui {
    /// A root scope at `(x, y)`: vertical, unbounded, no spacing, drawing
    /// enabled.
    pub fn new(x: usize, y: usize) -> (u: Ui)
        ensures
            u == (Ui {
                cursor_x: x,
                cursor_y: y,
                start_x: x,
                start_y: y,
                max_x: x,
                max_y: y,
                available_x: None,
                available_y: None,
                used_x: 0,
                used_y: 0,
                layout: LayoutKind::Vertical,
                spacing: 0,
                draw: true,
            }),
    {
        Ui {
            cursor_x: x,
            cursor_y: y,
            start_x: x,
            start_y: y,
            max_x: x,
            max_y: y,
            available_x: None,
            available_y: None,
            used_x: 0,
            used_y: 0,
            layout: LayoutKind::Vertical,
            spacing: 0,
            draw: true,
        }
    }

    /// Clears the grid and resets this scope for a fresh frame; the draw
    /// flag is kept.
    pub fn clear(&mut self, buf: &mut ScreenBuffer)
        requires
            old(buf).wf(),
        ensures
            final(buf).wf(),
            final(buf).spec_width() == old(buf).spec_width(),
            final(buf).spec_height() == old(buf).spec_height(),
            final(buf).contents() == blanks(old(buf).contents().len() as nat),
            *final(self) == (Ui {
                cursor_x: 0,
                cursor_y: 0,
                start_x: 0,
                start_y: 0,
                max_x: 0,
                max_y: 0,
                available_x: None,
                available_y: None,
                used_x: 0,
                used_y: 0,
                layout: LayoutKind::Vertical,
                spacing: 0,
                draw: old(self).draw,
            }),
    {
        buf.clear();
        self.cursor_x = 0;
        self.cursor_y = 0;
        self.start_x = 0;
        self.start_y = 0;
        self.max_x = 0;
        self.max_y = 0;
        self.available_x = None;
        self.available_y = None;
        self.used_x = 0;
        self.used_y = 0;
        self.layout = LayoutKind::Vertical;
        self.spacing = 0;
    }

    /// Folds an item of footprint `(w, h)` placed at the cursor into this
    /// scope.
    fn advance(&mut self, w: usize, h: usize)
        requires
            advance_fits(*old(self), w as int, h as int),
        ensures
            *final(self) == spec_advance(*old(self), w as int, h as int),
    {
        let nx = self.cursor_x + w;
        if nx > self.max_x {
            self.max_x = nx;
        }
        let ny = self.cursor_y + h;
        if ny > self.max_y {
            self.max_y = ny;
        }
        match self.layout {
            LayoutKind::Vertical => {
                if w > self.used_x {
                    self.used_x = w;
                }
                self.available_y = match self.available_y {
                    Some(a) => a.checked_sub(h),
                    None => None,
                };
                self.cursor_y = self.cursor_y + h + self.spacing;
            },
            LayoutKind::Horizontal => {
                if h > self.used_y {
                    self.used_y = h;
                }
                self.available_x = match self.available_x {
                    Some(a) => a.checked_sub(w),
                    None => None,
                };
                self.cursor_x = self.cursor_x + w + self.spacing;
            },
        }
    }

    /// Advances the main axis by `amount` without drawing.
    pub fn space(&mut self, amount: usize)
        requires
            old(self).layout is Vertical ==> advance_fits(*old(self), 0, amount as int),
            old(self).layout is Horizontal ==> advance_fits(*old(self), amount as int, 0),
        ensures
            old(self).layout is Vertical ==> *final(self) == spec_advance(
                *old(self),
                0,
                amount as int,
            ),
            old(self).layout is Horizontal ==> *final(self) == spec_advance(
                *old(self),
                amount as int,
                0,
            ),
    {
        match self.layout {
            LayoutKind::Vertical => self.advance(0, amount),
            LayoutKind::Horizontal => self.advance(amount, 0),
        }
    }

    /// Opens a vertical child scope at the cursor; close it with
    /// [`Ui::end_child`].
    pub fn vertical(&self) -> (c: Ui)
        ensures
            c == spec_scope(*self, LayoutKind::Vertical),
    {
        self.scope(LayoutKind::Vertical)
    }

    /// Opens a horizontal child scope at the cursor; close it with
    /// [`Ui::end_child`].
    pub fn horizontal(&self) -> (c: Ui)
        ensures
            c == spec_scope(*self, LayoutKind::Horizontal),
    {
        self.scope(LayoutKind::Horizontal)
    }

    /// Opens a child scope along `layout` at the cursor.
    fn scope(&self, layout: LayoutKind) -> (c: Ui)
        ensures
            c == spec_scope(*self, layout),
    {
        Ui {
            cursor_x: self.cursor_x,
            cursor_y: self.cursor_y,
            start_x: self.cursor_x,
            start_y: self.cursor_y,
            max_x: self.cursor_x,
            max_y: self.cursor_y,
            available_x: self.available_x,
            available_y: self.available_y,
            used_x: 0,
            used_y: 0,
            layout,
            spacing: self.spacing,
            draw: self.draw,
        }
    }

    /// Folds a finished child scope into this one: the child contributes
    /// its net main-axis travel on its own main axis and its cross-axis
    /// used size on the other.
    pub fn end_child(&mut self, child: Ui)
        requires
            child.max_x >= child.start_x,
            child.max_y >= child.start_y,
            advance_fits(*old(self), scope_width(child), scope_height(child)),
        ensures
            *final(self) == spec_advance(*old(self), scope_width(child), scope_height(child)),
    {
        let used_w = match child.layout {
            LayoutKind::Vertical => child.used_x,
            LayoutKind::Horizontal => child.max_x - child.start_x,
        };
        let used_h = match child.layout {
            LayoutKind::Vertical => child.max_y - child.start_y,
            LayoutKind::Horizontal => child.used_y,
        };
        self.advance(used_w, used_h);
    }

    /// Opens a frame's child scope, inset by `padding` on every side, with
    /// the budget shrunk by the padding on each axis; close it with
    /// [`Ui::frame_end`].
    pub fn frame_begin(&self, padding: usize) -> (c: Ui)
        requires
            self.cursor_x + padding <= usize::MAX,
            self.cursor_y + padding <= usize::MAX,
            2 * padding <= usize::MAX,
        ensures
            c == spec_frame_scope(*self, padding as int),
    {
        let ax = match self.available_x {
            Some(v) => if v > 2 * padding {
                Some(v - 2 * padding)
            } else {
                None
            },
            None => None,
        };
        let ay = match self.available_y {
            Some(v) => if v > 2 * padding {
                Some(v - 2 * padding)
            } else {
                None
            },
            None => None,
        };
        Ui {
            cursor_x: self.cursor_x + padding,
            cursor_y: self.cursor_y + padding,
            start_x: self.cursor_x + padding,
            start_y: self.cursor_y + padding,
            max_x: self.cursor_x + padding,
            max_y: self.cursor_y + padding,
            available_x: ax,
            available_y: ay,
            used_x: 0,
            used_y: 0,
            layout: LayoutKind::Vertical,
            spacing: self.spacing,
            draw: self.draw,
        }
    }

    /// Folds a finished frame into this scope: the box is the child's
    /// extent plus padding, raised to the whole budget when stretching;
    /// with a full border and drawing enabled, the box's outline is
    /// stroked at the scope's origin.
    pub fn frame_end(
        &mut self,
        buf: &mut ScreenBuffer,
        child: Ui,
        padding: usize,
        border: BorderKind,
        stretch: StretchHint,
    )
        requires
            old(buf).wf(),
            child.start_x == old(self).cursor_x + padding,
            child.start_y == old(self).cursor_y + padding,
            child.max_x >= child.start_x,
            child.max_y >= child.start_y,
            child.max_x + padding <= usize::MAX,
            child.max_y + padding <= usize::MAX,
            advance_fits(
                *old(self),
                frame_used_w(*old(self), child, padding as int, stretch),
                frame_used_h(*old(self), child, padding as int, stretch),
            ),
            border is Full && old(self).draw ==> frame_used_w(
                *old(self),
                child,
                padding as int,
                stretch,
            ) >= 1 && frame_used_h(*old(self), child, padding as int, stretch) >= 1,
        ensures
            *final(self) == spec_advance(
                *old(self),
                frame_used_w(*old(self), child, padding as int, stretch),
                frame_used_h(*old(self), child, padding as int, stretch),
            ),
            final(buf).wf(),
            final(buf).spec_width() == old(buf).spec_width(),
            final(buf).spec_height() == old(buf).spec_height(),
            border is Full && old(self).draw ==> final(buf).contents() == plus_frame(
                old(buf).contents(),
                old(buf).spec_width(),
                old(self).cursor_x as int,
                old(self).cursor_y as int,
                frame_used_w(*old(self), child, padding as int, stretch),
                frame_used_h(*old(self), child, padding as int, stretch),
            ),
            !(border is Full && old(self).draw) ==> final(buf).contents() == old(buf).contents(),
    {
        let base_w = child.max_x - self.cursor_x + padding;
        let base_h = child.max_y - self.cursor_y + padding;
        let used_w = match stretch {
            StretchHint::Full => {
                let a = match self.available_x {
                    Some(v) => v,
                    None => 0,
                };
                if base_w >= a {
                    base_w
                } else {
                    a
                }
            },
            StretchHint::Compact => base_w,
        };
        let used_h = match stretch {
            StretchHint::Full => {
                let a = match self.available_y {
                    Some(v) => v,
                    None => 0,
                };
                if base_h >= a {
                    base_h
                } else {
                    a
                }
            },
            StretchHint::Compact => base_h,
        };
        match border {
            BorderKind::Full => if self.draw {
                stroke_plus_frame(buf, self.cursor_x, self.cursor_y, used_w, used_h);
            },
            BorderKind::No => {},
        }
        self.advance(used_w, used_h);
    }

    /// Writes a label at the cursor: the text, truncated to the field,
    /// flush to the field's start or end, over a blanked field of the
    /// given width; the scope advances by the field's footprint.
    pub fn label(&mut self, buf: &mut ScreenBuffer, text: &str, width: Option<usize>, align: Align)
        requires
            old(buf).wf(),
            advance_fits(*old(self), label_width(text@, width), 1),
        ensures
            *final(self) == spec_advance(*old(self), label_width(text@, width), 1),
            final(buf).wf(),
            final(buf).spec_width() == old(buf).spec_width(),
            final(buf).spec_height() == old(buf).spec_height(),
            old(self).draw ==> final(buf).contents() == place_row(
                old(buf).contents(),
                old(buf).spec_width(),
                old(self).cursor_x as int,
                old(self).cursor_y as int,
                label_field(text@, label_width(text@, width) as nat, align),
            ),
            !old(self).draw ==> final(buf).contents() == old(buf).contents(),
    {
        let ghost g0 = buf.contents();
        let ghost gw = buf.spec_width();
        let n = text.unicode_len();
        let w = match width {
            Some(ww) => ww,
            None => n,
        };
        let visible = if n <= w {
            n
        } else {
            w
        };
        let start_x = match align {
            Align::Left => self.cursor_x,
            Align::Right => self.cursor_x + (w - visible),
        };
        if self.draw {
            buf.draw_hline(self.cursor_x, self.cursor_y, w, ' ');
            if n > w {
                let slice = text.substring_char(0, w);
                buf.write_str(start_x, self.cursor_y, slice);
            } else {
                proof {
                    assert(text@.subrange(0, n as int) =~= text@);
                }
                buf.write_str(start_x, self.cursor_y, text);
            }
            proof {
                lemma_label_collapse(
                    g0,
                    gw,
                    self.cursor_x as int,
                    self.cursor_y as int,
                    text@,
                    w as nat,
                    align,
                );
            }
        }
        self.advance(w, 1);
    }

    /// Writes a label whose field is placed by the outer alignment —
    /// flush to the cursor, or flush to the far edge of the known
    /// horizontal budget — and whose text is placed inside the blanked
    /// field by the inner alignment. The cross-axis used width is raised
    /// to the field width even in a horizontal scope.
    pub fn label_align(
        &mut self,
        buf: &mut ScreenBuffer,
        text: &str,
        width: Option<usize>,
        align_inner: Align,
        align_outer: Align,
    )
        requires
            old(buf).wf(),
            advance_fits(*old(self), label_width(text@, width), 1),
            align_outer is Right ==> old(self).cursor_x + avail_or_zero(old(self).available_x)
                <= usize::MAX,
        ensures
            *final(self) == spec_advance(
                bump_used_x(*old(self), label_width(text@, width)),
                label_width(text@, width),
                1,
            ),
            final(buf).wf(),
            final(buf).spec_width() == old(buf).spec_width(),
            final(buf).spec_height() == old(buf).spec_height(),
            old(self).draw ==> final(buf).contents() == place_row(
                old(buf).contents(),
                old(buf).spec_width(),
                label_outer_start(*old(self), label_width(text@, width), align_outer),
                old(self).cursor_y as int,
                label_field(text@, label_width(text@, width) as nat, align_inner),
            ),
            !old(self).draw ==> final(buf).contents() == old(buf).contents(),
    {
        let ghost g0 = buf.contents();
        let ghost gw = buf.spec_width();
        let n = text.unicode_len();
        let w = match width {
            Some(ww) => ww,
            None => n,
        };
        let visible = if n <= w {
            n
        } else {
            w
        };
        let sx0 = match self.available_x {
            Some(a) => match align_outer {
                Align::Left => self.cursor_x,
                Align::Right => self.cursor_x + (if a >= w {
                    a - w
                } else {
                    0
                }),
            },
            None => self.cursor_x,
        };
        let sx = match align_inner {
            Align::Left => sx0,
            Align::Right => sx0 + (w - visible),
        };
        if self.draw {
            buf.draw_hline(sx0, self.cursor_y, w, ' ');
            if n > w {
                let slice = text.substring_char(0, w);
                buf.write_str(sx, self.cursor_y, slice);
            } else {
                proof {
                    assert(text@.subrange(0, n as int) =~= text@);
                }
                buf.write_str(sx, self.cursor_y, text);
            }
            proof {
                lemma_label_collapse(
                    g0,
                    gw,
                    sx0 as int,
                    self.cursor_y as int,
                    text@,
                    w as nat,
                    align_inner,
                );
            }
        }
        if w > self.used_x {
            self.used_x = w;
        }
        self.advance(w, 1);
    }

    /// Writes a right-justified signed integer field of the given width
    /// at the cursor and advances by its footprint.
    pub fn number_i64(&mut self, buf: &mut ScreenBuffer, value: i64, width: usize)
        requires
            old(buf).wf(),
            advance_fits(*old(self), width as int, 1),
        ensures
            *final(self) == spec_advance(*old(self), width as int, 1),
            final(buf).wf(),
            final(buf).spec_width() == old(buf).spec_width(),
            final(buf).spec_height() == old(buf).spec_height(),
            old(self).draw ==> final(buf).contents() == place_row(
                old(buf).contents(),
                old(buf).spec_width(),
                old(self).cursor_x as int,
                old(self).cursor_y as int,
                int_field(value as int, width as nat),
            ),
            !old(self).draw ==> final(buf).contents() == old(buf).contents(),
    {
        if self.draw {
            buf.write_i64_right(self.cursor_x, self.cursor_y, value, width);
        }
        self.advance(width, 1);
    }

    /// Writes a right-justified fixed-point field of the given width at
    /// the cursor and advances by its footprint. `scaled` is the value
    /// already multiplied by ten to the `precision` and rounded.
    pub fn number_fixed(
        &mut self,
        buf: &mut ScreenBuffer,
        scaled: i64,
        precision: usize,
        width: usize,
    )
        requires
            old(buf).wf(),
            precision <= 18,
            advance_fits(*old(self), width as int, 1),
        ensures
            *final(self) == spec_advance(*old(self), width as int, 1),
            final(buf).wf(),
            final(buf).spec_width() == old(buf).spec_width(),
            final(buf).spec_height() == old(buf).spec_height(),
            old(self).draw ==> final(buf).contents() == place_row(
                old(buf).contents(),
                old(buf).spec_width(),
                old(self).cursor_x as int,
                old(self).cursor_y as int,
                fixed_field(scaled as int, width as nat, precision as nat),
            ),
            !old(self).draw ==> final(buf).contents() == old(buf).contents(),
    {
        if self.draw {
            buf.write_fixed_right(self.cursor_x, self.cursor_y, scaled, width, precision);
        }
        self.advance(width, 1);
    }
}

/// What a `+`-cornered frame leaves at cell `(cx, cy)`: a `+` on a
/// corner, a `|` on a side, a `-` on the top or bottom edge, and nothing
/// elsewhere.
pub open spec fn plus_frame_overlay(cx: int, cy: int, x: int, y: int, w: int, h: int) -> Option<
    char,
> {
    if (cx == x || cx == x + w - 1) && (cy == y || cy == y + h - 1) {
        Some('+')
    } else if (cx == x || cx == x + w - 1) && y <= cy < y + h {
        Some('|')
    } else if (cy == y || cy == y + h - 1) && x <= cx < x + w {
        Some('-')
    } else {
        None
    }
}

/// The grid after a `+`-cornered frame of size `(w, h)` is stroked at
/// `(x, y)`, each cell clipped to the grid.
pub open spec fn plus_frame(g: Seq<char>, gw: nat, x: int, y: int, w: int, h: int) -> Seq<char> {
    Seq::new(
        g.len(),
        |j: int|
            if gw > 0 {
                match plus_frame_overlay(j % (gw as int), j / (gw as int), x, y, w, h) {
                    Some(c) => c,
                    None => g[j],
                }
            } else {
                g[j]
            },
    )
}

/// Strokes a `+`-cornered frame: dashes along the top and bottom, bars
/// along the left and right, `+` on the corners.
fn stroke_plus_frame(buf: &mut ScreenBuffer, x: usize, y: usize, w: usize, h: usize)
    requires
        old(buf).wf(),
        w >= 1,
        h >= 1,
        x + w <= usize::MAX,
        y + h <= usize::MAX,
    ensures
        final(buf).wf(),
        final(buf).spec_width() == old(buf).spec_width(),
        final(buf).spec_height() == old(buf).spec_height(),
        final(buf).contents() == plus_frame(
            old(buf).contents(),
            old(buf).spec_width(),
            x as int,
            y as int,
            w as int,
            h as int,
        ),
{
    let ghost g0 = buf.contents();
    let ghost gw = buf.spec_width();
    buf.draw_hline(x, y, w, '-');
    buf.draw_hline(x, y + h - 1, w, '-');
    buf.draw_vline(x, y, h, '|');
    buf.draw_vline(x + w - 1, y, h, '|');
    buf.put_char(x, y, '+');
    buf.put_char(x + w - 1, y, '+');
    buf.put_char(x, y + h - 1, '+');
    buf.put_char(x + w - 1, y + h - 1, '+');
    proof {
        assert(buf.contents() =~= plus_frame(g0, gw, x as int, y as int, w as int, h as int));
    }
}

/// Blanking a field and then writing the aligned, truncated text into it
/// leaves exactly the label's field.
proof fn lemma_label_collapse(
    g: Seq<char>,
    gw: nat,
    cx: int,
    cy: int,
    t: Seq<char>,
    w: nat,
    align: Align,
)
    ensures
        ({
            let vis = if t.len() <= w {
                t.len() as int
            } else {
                w as int
            };
            let sx = match align {
                Align::Left => cx,
                Align::Right => cx + (w - vis),
            };
            place_row(
                place_row(g, gw, cx, cy, crate::fields::repeat_char(' ', w)),
                gw,
                sx,
                cy,
                t.take(vis),
            ) == place_row(g, gw, cx, cy, label_field(t, w, align))
        }),
{
    let vis = if t.len() <= w {
        t.len() as int
    } else {
        w as int
    };
    let sx = match align {
        Align::Left => cx,
        Align::Right => cx + (w - vis),
    };
    let lhs = place_row(
        place_row(g, gw, cx, cy, crate::fields::repeat_char(' ', w)),
        gw,
        sx,
        cy,
        t.take(vis),
    );
    let rhs = place_row(g, gw, cx, cy, label_field(t, w, align));
    assert(lhs =~= rhs);
}

/// The sum of the first `n` entries of `s`; `n` is at most `s.len()`.
pub open spec fn sum_prefix(s: Seq<usize>, n: int) -> int
    decreases n,
{
    if n <= 0 {
        0
    } else {
        sum_prefix(s, n - 1) + s[n - 1]
    }
}

/// The sum of the first `n` entries of `s`, or of all of them when `s`
/// is shorter than `n`.
pub open spec fn sum_upto(s: Seq<usize>, n: int) -> int {
    if n <= s.len() {
        sum_prefix(s, n)
    } else {
        sum_prefix(s, s.len() as int)
    }
}

/// Prefix sums of machine words are non-negative and grow with the
/// prefix.
pub proof fn lemma_sum_prefix_mono(s: Seq<usize>, a: int, b: int)
    requires
        0 <= a <= b <= s.len(),
    ensures
        0 <= sum_prefix(s, a) <= sum_prefix(s, b),
    decreases b,
{
    if a < b {
        lemma_sum_prefix_mono(s, a, b - 1);
    } else if a == b && b > 0 {
        lemma_sum_prefix_mono(s, 0, b - 1);
    }
}

/// Extending a sequence with zeros does not change its prefix sums.
proof fn lemma_sum_prefix_pad(s: Seq<usize>, t: Seq<usize>, n: int)
    requires
        t.len() >= s.len(),
        forall|i: int| 0 <= i < s.len() ==> t[i] == s[i],
        forall|i: int| s.len() <= i < t.len() ==> t[i] == 0usize,
        0 <= n <= t.len(),
    ensures
        sum_prefix(t, n) == sum_upto(s, n),
    decreases n,
{
    if n > 0 {
        lemma_sum_prefix_pad(s, t, n - 1);
    }
}

/// `s` with zeros appended until it is at least `n` long.
pub open spec fn padded_zeros(s: Seq<usize>, n: int) -> Seq<usize> {
    if s.len() >= n {
        s
    } else {
        s + Seq::new((n - s.len()) as nat, |i: int| 0usize)
    }
}

/// A fixed-column grid scope in one of its two passes. The measure pass
/// runs the caller's population code with zeroed column widths and row
/// heights and drawing off, recording each cell's natural size; the draw
/// pass replays the same population with the measured sizes as per-cell
/// budgets. The population must issue the same sequence of cells on both
/// passes.
pub struct UiGrid {
    pub start_x: usize,
    pub start_y: usize,
    pub cols: usize,
    pub spacing: usize,
    pub spacing_inner: usize,
    pub cell_idx: usize,
    pub max_col_width: Vec<usize>,
    pub max_row_height: Vec<usize>,
    pub draw: bool,
}

/// The column of the grid's next cell.
pub open spec fn grid_col(g: UiGrid) -> int {
    g.cell_idx as int % g.cols as int
}

/// The row of the grid's next cell.
pub open spec fn grid_row(g: UiGrid) -> int {
    g.cell_idx as int / g.cols as int
}

/// The x position of the grid's next cell: the grid's origin plus the
/// widths of the previous columns and the inter-cell spacing.
pub open spec fn grid_cell_x(g: UiGrid) -> int {
    g.start_x + sum_prefix(g.max_col_width@, grid_col(g)) + grid_col(g) * g.spacing_inner
}

/// The y position of the grid's next cell.
pub open spec fn grid_cell_y(g: UiGrid) -> int {
    g.start_y + sum_upto(g.max_row_height@, grid_row(g)) + grid_row(g) * g.spacing_inner
}

/// The grid's total width: every column plus the inter-cell spacing
/// between columns.
pub open spec fn grid_total_w(g: UiGrid) -> int {
    sum_prefix(g.max_col_width@, g.max_col_width@.len() as int) + g.spacing_inner * (
    if g.cols >= 1 {
        g.cols - 1
    } else {
        0
    })
}

/// The grid's total height: every row plus the inter-cell spacing
/// between rows.
pub open spec fn grid_total_h(g: UiGrid) -> int {
    sum_prefix(g.max_row_height@, g.max_row_height@.len() as int) + g.spacing_inner * (
    if g.max_row_height@.len() >= 1 {
        g.max_row_height@.len() - 1
    } else {
        0
    })
}

impl Ui {
    /// Opens a fixed-column grid in its measure pass: all column widths
    /// and the single row height start at zero and drawing is off. Run
    /// the population once against it, hand it to
    /// [`Ui::grid_draw_begin`], replay the population, and close with
    /// [`Ui::grid_end`].
    pub fn grid_begin(&self, cols: usize, spacing_inner: usize) -> (g: UiGrid)
        requires
            cols >= 1,
        ensures
            g.start_x == self.cursor_x,
            g.start_y == self.cursor_y,
            g.cols == cols,
            g.spacing == self.spacing,
            g.spacing_inner == spacing_inner,
            g.cell_idx == 0,
            g.draw == false,
            g.max_col_width@ == Seq::new(cols as nat, |i: int| 0usize),
            g.max_row_height@ == seq![0usize],
    {
        let mut wv: Vec<usize> = Vec::new();
        while wv.len() < cols
            invariant
                wv@.len() <= cols,
                forall|i: int| 0 <= i < wv@.len() ==> wv@[i] == 0usize,
            decreases cols - wv@.len(),
        {
            wv.push(0);
        }
        proof {
            assert(wv@ =~= Seq::new(cols as nat, |i: int| 0usize));
        }
        let mut hv: Vec<usize> = Vec::new();
        hv.push(0);
        proof {
            assert(hv@ =~= seq![0usize]);
        }
        UiGrid {
            start_x: self.cursor_x,
            start_y: self.cursor_y,
            cols,
            spacing: self.spacing,
            spacing_inner,
            cell_idx: 0,
            max_col_width: wv,
            max_row_height: hv,
            draw: false,
        }
    }

    /// Turns a finished measure pass into the draw pass: the measured
    /// column widths and row heights become the per-cell budgets, the
    /// cell index restarts, and drawing is on.
    pub fn grid_draw_begin(&self, measured: UiGrid) -> (g: UiGrid)
        ensures
            g == (UiGrid {
                start_x: self.cursor_x,
                start_y: self.cursor_y,
                cols: measured.cols,
                spacing: self.spacing,
                spacing_inner: measured.spacing_inner,
                cell_idx: 0,
                max_col_width: measured.max_col_width,
                max_row_height: measured.max_row_height,
                draw: true,
            }),
    {
        UiGrid {
            start_x: self.cursor_x,
            start_y: self.cursor_y,
            cols: measured.cols,
            spacing: self.spacing,
            spacing_inner: measured.spacing_inner,
            cell_idx: 0,
            max_col_width: measured.max_col_width,
            max_row_height: measured.max_row_height,
            draw: true,
        }
    }

    /// Folds a finished grid into this scope: its footprint is the sum
    /// of the column widths and of the row heights, with the inter-cell
    /// spacing between them.
    pub fn grid_end(&mut self, g: UiGrid)
        requires
            advance_fits(*old(self), grid_total_w(g), grid_total_h(g)),
        ensures
            *final(self) == spec_advance(*old(self), grid_total_w(g), grid_total_h(g)),
    {
        let used_w = sum_cells(&g.max_col_width, Ghost(grid_total_w(g)))
            + g.spacing_inner * (if g.cols >= 1 {
            g.cols - 1
        } else {
            0
        });
        let used_h = sum_cells(&g.max_row_height, Ghost(grid_total_h(g)))
            + g.spacing_inner * (if g.max_row_height.len() >= 1 {
            g.max_row_height.len() - 1
        } else {
            0
        });
        self.advance(used_w, used_h);
    }
}

/// The sum of a measurement vector; `bound` carries the caller's machine
/// limit on the total it is a part of.
pub(crate) fn sum_cells(v: &Vec<usize>, bound: Ghost<int>) -> (s: usize)
    requires
        sum_prefix(v@, v@.len() as int) <= bound@,
        bound@ <= usize::MAX,
        ({
            let rest = bound@ - sum_prefix(v@, v@.len() as int);
            rest >= 0
        }),
    ensures
        s == sum_prefix(v@, v@.len() as int),
{
    let mut s: usize = 0;
    let mut i: usize = 0;
    proof {
        lemma_sum_prefix_mono(v@, 0, v@.len() as int);
    }
    while i < v.len()
        invariant
            i <= v@.len(),
            s == sum_prefix(v@, i as int),
            sum_prefix(v@, v@.len() as int) <= usize::MAX,
        decreases v@.len() - i,
    {
        proof {
            lemma_sum_prefix_mono(v@, i as int + 1, v@.len() as int);
        }
        s = s + v[i];
        i = i + 1;
    }
    s
}

impl UiGrid {
    /// Opens the grid's next cell: a horizontal scope at the position
    /// implied by the widths of the previous columns and heights of the
    /// previous rows, budgeted to the cell's column width and row height,
    /// drawing only in the draw pass. The row-height vector grows to
    /// cover the cell's row. Close the cell with [`UiGrid::cell_end`].
    pub fn cell_begin(&mut self) -> (c: Ui)
        requires
            old(self).cols >= 1,
            old(self).max_col_width@.len() == old(self).cols,
            old(self).cell_idx < usize::MAX,
            grid_cell_x(*old(self)) <= usize::MAX,
            grid_cell_y(*old(self)) <= usize::MAX,
        ensures
            *final(self) == (UiGrid {
                max_row_height: final(self).max_row_height,
                ..*old(self)
            }),
            final(self).max_row_height@ == padded_zeros(
                old(self).max_row_height@,
                grid_row(*old(self)) + 1,
            ),
            c == (Ui {
                cursor_x: grid_cell_x(*old(self)) as usize,
                cursor_y: grid_cell_y(*old(self)) as usize,
                start_x: grid_cell_x(*old(self)) as usize,
                start_y: grid_cell_y(*old(self)) as usize,
                max_x: grid_cell_x(*old(self)) as usize,
                max_y: grid_cell_y(*old(self)) as usize,
                available_x: Some(old(self).max_col_width@[grid_col(*old(self))]),
                available_y: Some(
                    if grid_row(*old(self)) < old(self).max_row_height@.len() {
                        old(self).max_row_height@[grid_row(*old(self))]
                    } else {
                        0usize
                    },
                ),
                used_x: 0,
                used_y: 0,
                layout: LayoutKind::Horizontal,
                spacing: old(self).spacing,
                draw: old(self).draw,
            }),
    {
        let col = self.cell_idx % self.cols;
        let row = self.cell_idx / self.cols;
        proof {
            vstd::arithmetic::div_mod::lemma_mod_bound(
                self.cell_idx as int,
                self.cols as int,
            );
            vstd::arithmetic::div_mod::lemma_div_pos_is_pos(
                self.cell_idx as int,
                self.cols as int,
            );
            vstd::arithmetic::div_mod::lemma_div_is_ordered_by_denominator(
                self.cell_idx as int,
                1,
                self.cols as int,
            );
        }
        let ghost h0 = self.max_row_height@;
        while self.max_row_height.len() <= row
            invariant
                self.max_row_height@.len() >= h0.len(),
                forall|i: int| 0 <= i < h0.len() ==> self.max_row_height@[i] == h0[i],
                forall|i: int|
                    h0.len() <= i < self.max_row_height@.len() ==> self.max_row_height@[i]
                        == 0usize,
                self.max_row_height@.len() <= row + 1 || self.max_row_height@ == h0,
                row < usize::MAX,
                *self == (UiGrid { max_row_height: self.max_row_height, ..*old(self) }),
            decreases row + 1 - self.max_row_height@.len(),
        {
            self.max_row_height.push(0);
        }
        proof {
            assert(self.max_row_height@ =~= padded_zeros(h0, row as int + 1));
        }
        let ox = {
            let mut acc: usize = 0;
            let mut i: usize = 0;
            proof {
                lemma_sum_prefix_mono(self.max_col_width@, 0, col as int);
            }
            while i < col
                invariant
                    i <= col,
                    col < self.max_col_width@.len(),
                    acc == sum_prefix(self.max_col_width@, i as int),
                    sum_prefix(self.max_col_width@, col as int) + self.start_x + col
                        * self.spacing_inner <= usize::MAX,
                    0 <= col * self.spacing_inner,
                decreases col - i,
            {
                proof {
                    lemma_sum_prefix_mono(self.max_col_width@, i as int + 1, col as int);
                }
                acc = acc + self.max_col_width[i];
                i = i + 1;
            }
            self.start_x + acc + col * self.spacing_inner
        };
        let oy = {
            let mut acc: usize = 0;
            let mut i: usize = 0;
            proof {
                lemma_sum_prefix_pad(h0, self.max_row_height@, row as int);
                lemma_sum_prefix_mono(self.max_row_height@, 0, row as int);
            }
            while i < row
                invariant
                    i <= row,
                    row < self.max_row_height@.len(),
                    acc == sum_prefix(self.max_row_height@, i as int),
                    sum_prefix(self.max_row_height@, row as int) + self.start_y + row
                        * self.spacing_inner <= usize::MAX,
                    0 <= row * self.spacing_inner,
                decreases row - i,
            {
                proof {
                    lemma_sum_prefix_mono(self.max_row_height@, i as int + 1, row as int);
                }
                acc = acc + self.max_row_height[i];
                i = i + 1;
            }
            self.start_y + acc + row * self.spacing_inner
        };
        Ui {
            cursor_x: ox,
            cursor_y: oy,
            start_x: ox,
            start_y: oy,
            max_x: ox,
            max_y: oy,
            available_x: Some(self.max_col_width[col]),
            available_y: Some(self.max_row_height[row]),
            used_x: 0,
            used_y: 0,
            layout: LayoutKind::Horizontal,
            spacing: self.spacing,
            draw: self.draw,
        }
    }

    /// Closes the grid's current cell: the cell's column width and row
    /// height are raised to its footprint and the cell index moves on.
    pub fn cell_end(&mut self, cell: Ui)
        requires
            old(self).cols >= 1,
            old(self).max_col_width@.len() == old(self).cols,
            grid_row(*old(self)) < old(self).max_row_height@.len(),
            cell.max_x >= cell.start_x,
            cell.max_y >= cell.start_y,
            old(self).cell_idx < usize::MAX,
        ensures
            *final(self) == (UiGrid {
                cell_idx: (old(self).cell_idx + 1) as usize,
                max_col_width: final(self).max_col_width,
                max_row_height: final(self).max_row_height,
                ..*old(self)
            }),
            final(self).max_col_width@ == old(self).max_col_width@.update(
                grid_col(*old(self)),
                (if cell.max_x - cell.start_x > old(self).max_col_width@[grid_col(*old(self))] {
                    (cell.max_x - cell.start_x) as usize
                } else {
                    old(self).max_col_width@[grid_col(*old(self))]
                }),
            ),
            final(self).max_row_height@ == old(self).max_row_height@.update(
                grid_row(*old(self)),
                (if cell.max_y - cell.start_y > old(self).max_row_height@[grid_row(*old(self))] {
                    (cell.max_y - cell.start_y) as usize
                } else {
                    old(self).max_row_height@[grid_row(*old(self))]
                }),
            ),
    {
        let col = self.cell_idx % self.cols;
        let row = self.cell_idx / self.cols;
        proof {
            vstd::arithmetic::div_mod::lemma_mod_bound(
                self.cell_idx as int,
                self.cols as int,
            );
            vstd::arithmetic::div_mod::lemma_div_pos_is_pos(
                self.cell_idx as int,
                self.cols as int,
            );
        }
        let used_w = cell.max_x - cell.start_x;
        if used_w > self.max_col_width[col] {
            self.max_col_width[col] = used_w;
        } else {
            proof {
                assert(self.max_col_width@ =~= old(self).max_col_width@.update(
                    col as int,
                    old(self).max_col_width@[col as int],
                ));
            }
        }
        let used_h = cell.max_y - cell.start_y;
        if used_h > self.max_row_height[row] {
            self.max_row_height[row] = used_h;
        } else {
            proof {
                assert(self.max_row_height@ =~= old(self).max_row_height@.update(
                    row as int,
                    old(self).max_row_height@[row as int],
                ));
            }
        }
        self.cell_idx = self.cell_idx + 1;
    }
}

/// Two leaves of sizes `(w1, h1)` and `(w2, h2)` placed inside a vertical
/// scope fold to a height of `h1 + s + h2`, where `s` is the scope's
/// spacing, and a width of the larger of `w1` and `w2`.
pub proof fn lemma_vertical_scope_fold(parent: Ui, w1: int, h1: int, w2: int, h2: int)
    requires
        advance_fits(spec_scope(parent, LayoutKind::Vertical), w1, h1),
        advance_fits(spec_advance(spec_scope(parent, LayoutKind::Vertical), w1, h1), w2, h2),
    ensures
        ({
            let c = spec_advance(
                spec_advance(spec_scope(parent, LayoutKind::Vertical), w1, h1),
                w2,
                h2,
            );
            &&& scope_height(c) == h1 + parent.spacing + h2
            &&& scope_width(c) == (if w1 >= w2 {
                w1
            } else {
                w2
            })
        }),
{
}

} // verus!
