//! UI primitives: screen rectangles, the cell surface components render onto,
//! and the component itself — a stateful UI unit with a closed capability set
//! (handle input, render, report a cursor hint, report whether it wants a
//! redraw). A component's rendered area is fully determined by the area it is
//! given; it never queries the terminal size itself.

use vstd::prelude::*;

use crate::keymap::Key;

verus! {

/// The cell value of an unpainted or blanked-out cell.
pub const BLANK: u8 = 0;

/// A rectangle of screen cells.
#[derive(Clone, Copy, PartialEq, Eq, Structural, Debug)]
pub struct Rect {
    pub x: u16,
    pub y: u16,
    pub w: u16,
    pub h: u16,
}

/// Whether the cell at (`x`, `y`) lies inside `r`.
pub open spec fn rect_contains(r: Rect, x: int, y: int) -> bool {
    r.x <= x < r.x + r.w && r.y <= y < r.y + r.h
}

/// Executable containment test matching `rect_contains`.
pub fn rect_contains_exec(r: Rect, x: u16, y: u16) -> (b: bool)
    ensures
        b == rect_contains(r, x as int, y as int),
{
    r.x <= x && (x as u32) < (r.x as u32) + (r.w as u32) && r.y <= y && (y as u32) < (r.y as u32)
        + (r.h as u32)
}

/// `r` clipped to a screen of `w` by `h` cells.
pub open spec fn clip_rect(r: Rect, w: u16, h: u16) -> Rect {
    let x0 = if r.x <= w {
        r.x
    } else {
        w
    };
    let y0 = if r.y <= h {
        r.y
    } else {
        h
    };
    let cw = if r.w <= w - x0 {
        r.w
    } else {
        (w - x0) as u16
    };
    let ch = if r.h <= h - y0 {
        r.h
    } else {
        (h - y0) as u16
    };
    Rect { x: x0, y: y0, w: cw, h: ch }
}

/// Executable clipping matching `clip_rect`.
pub fn clip_rect_exec(r: Rect, w: u16, h: u16) -> (c: Rect)
    ensures
        c == clip_rect(r, w, h),
{
    let x0 = if r.x <= w {
        r.x
    } else {
        w
    };
    let y0 = if r.y <= h {
        r.y
    } else {
        h
    };
    let cw = if r.w <= w - x0 {
        r.w
    } else {
        w - x0
    };
    let ch = if r.h <= h - y0 {
        r.h
    } else {
        h - y0
    };
    Rect { x: x0, y: y0, w: cw, h: ch }
}

/// How a component computes its area from the screen size.
#[derive(Clone, Copy, PartialEq, Eq, Structural, Debug)]
pub enum Layout {
    /// The whole screen (the base editor view).
    Full,
    /// A fixed rectangle, clipped to the screen (popups, menus).
    Fixed(Rect),
    /// The bottom screen line (prompts, the status line).
    Bottom,
}

/// The area `l` yields on a screen of `w` by `h` cells.
pub open spec fn layout_area(l: Layout, w: u16, h: u16) -> Rect {
    match l {
        Layout::Full => Rect { x: 0, y: 0, w, h },
        Layout::Fixed(r) => clip_rect(r, w, h),
        Layout::Bottom => if h > 0 {
            Rect { x: 0, y: (h - 1) as u16, w, h: 1 }
        } else {
            Rect { x: 0, y: 0, w, h: 0 }
        },
    }
}

/// Executable layout computation matching `layout_area`.
pub fn layout_area_exec(l: Layout, w: u16, h: u16) -> (a: Rect)
    ensures
        a == layout_area(l, w, h),
{
    match l {
        Layout::Full => Rect { x: 0, y: 0, w, h },
        Layout::Fixed(r) => clip_rect_exec(r, w, h),
        Layout::Bottom => if h > 0 {
            Rect { x: 0, y: h - 1, w, h: 1 }
        } else {
            Rect { x: 0, y: 0, w, h: 0 }
        },
    }
}

/// What a component answers when offered an input event.
#[derive(Clone, Copy, PartialEq, Eq, Structural, Debug)]
pub enum EventResult {
    /// The event is handled; propagation stops here.
    Consumed,
    /// The event is not claimed; it propagates further down the stack.
    Ignored,
}

/// How a component treats key events offered to it. `ActAndPass`
/// distinguishes "acted on the event but do not stop propagation" from
/// `Consume` ("handled, stop here").
#[derive(Clone, Copy, PartialEq, Eq, Structural, Debug)]
pub enum ConsumePolicy {
    /// Claim the event; propagation stops.
    Consume,
    /// Act on the event (request a redraw) but let it propagate.
    ActAndPass,
    /// Pass the event on untouched.
    Pass,
}

/// A stateful UI unit on the compositor stack.
#[derive(Clone, Copy, PartialEq, Eq, Structural, Debug)]
pub struct Component {
    /// Identity, for callers that track components across pushes and pops.
    pub id: u64,
    /// How the component computes its area from the screen size.
    pub layout: Layout,
    /// The area last computed for it; kept consistent by the compositor.
    pub area: Rect,
    /// Whether the component is a focus target when topmost. Decorative
    /// overlays decline.
    pub accepts_focus: bool,
    /// How it treats key events offered to it.
    pub policy: ConsumePolicy,
    /// The cell value it paints over its area.
    pub fill: u8,
    /// Whether its render succeeds; a failing render is replaced by a blank
    /// area so one faulty overlay cannot freeze the whole frame.
    pub render_ok: bool,
    /// Whether it wants the next frame repainted.
    pub needs_redraw: bool,
}

/// `c` with its redraw flag raised.
pub open spec fn mark_redraw(c: Component) -> Component {
    Component { needs_redraw: true, ..c }
}

/// The cell value `c` paints: its fill, or blank if its render fails.
pub open spec fn layer_cell(c: Component) -> u8 {
    if c.render_ok {
        c.fill
    } else {
        BLANK
    }
}

impl Component {
    /// A fresh component; its area is computed when it enters a compositor.
    pub fn new(id: u64, layout: Layout, accepts_focus: bool, policy: ConsumePolicy, fill: u8) -> (c:
        Component)
        ensures
            c == (Component {
                id,
                layout,
                area: Rect { x: 0, y: 0, w: 0, h: 0 },
                accepts_focus,
                policy,
                fill,
                render_ok: true,
                needs_redraw: false,
            }),
    {
        Component {
            id,
            layout,
            area: Rect { x: 0, y: 0, w: 0, h: 0 },
            accepts_focus,
            policy,
            fill,
            render_ok: true,
            needs_redraw: false,
        }
    }

    /// Offers a key event. The policy decides: `Consume` claims it (and the
    /// component will want a repaint), `ActAndPass` acts — requests a repaint
    /// — yet lets it propagate, `Pass` leaves the component untouched.
    pub fn handle_key(&mut self, _k: Key) -> (r: EventResult)
        ensures
            r == (if old(self).policy is Consume {
                EventResult::Consumed
            } else {
                EventResult::Ignored
            }),
            *final(self) == (if old(self).policy is Pass {
                *old(self)
            } else {
                mark_redraw(*old(self))
            }),
    {
        match self.policy {
            ConsumePolicy::Consume => {
                self.needs_redraw = true;
                EventResult::Consumed
            },
            ConsumePolicy::ActAndPass => {
                self.needs_redraw = true;
                EventResult::Ignored
            },
            ConsumePolicy::Pass => EventResult::Ignored,
        }
    }

    /// Where the component wants the terminal cursor: its area's origin.
    pub fn cursor_hint(&self) -> (r: (u16, u16))
        ensures
            r.0 == self.area.x,
            r.1 == self.area.y,
    {
        (self.area.x, self.area.y)
    }
}

/// The cell grid a frame is composed onto, handed to the terminal backend.
pub struct Surface {
    pub w: u16,
    pub h: u16,
    pub cells: Vec<u8>,
}

impl Surface {
    /// The grid holds exactly one cell per screen position.
    pub open spec fn wf(self) -> bool {
        self.cells@.len() == self.w as int * self.h as int
    }

    /// The cell at (`x`, `y`), row-major.
    pub open spec fn at(self, x: int, y: int) -> u8
        recommends
            self.wf(),
            0 <= x < self.w,
            0 <= y < self.h,
    {
        self.cells@[y * self.w as int + x]
    }

    /// A blank surface of the given size.
    pub fn new(w: u16, h: u16) -> (s: Surface)
        ensures
            s.wf(),
            s.w == w,
            s.h == h,
            forall|x: int, y: int| 0 <= x < w && 0 <= y < h ==> s.at(x, y) == BLANK,
    {
        proof {
            lemma_grid_fits(w, h);
        }
        let n = (w as usize) * (h as usize);
        let mut cells: Vec<u8> = Vec::new();
        let mut i: usize = 0;
        while i < n
            invariant
                i <= n,
                cells@.len() == i,
                forall|j: int| 0 <= j < i ==> cells@[j] == BLANK,
            decreases n - i,
        {
            cells.push(BLANK);
            i += 1;
        }
        let s = Surface { w, h, cells };
        proof {
            assert forall|x: int, y: int| 0 <= x < w && 0 <= y < h implies s.at(x, y) == BLANK by {
                lemma_cell_index_bounds(w, h, x, y);
            }
        }
        s
    }

    /// Reads one cell.
    pub fn get(&self, x: u16, y: u16) -> (r: u8)
        requires
            self.wf(),
            x < self.w,
            y < self.h,
        ensures
            r == self.at(x as int, y as int),
    {
        proof {
            lemma_grid_fits(self.w, self.h);
            lemma_cell_index_bounds(self.w, self.h, x as int, y as int);
        }
        self.cells[(y as usize) * (self.w as usize) + (x as usize)]
    }

    /// Writes one cell.
    pub fn set(&mut self, x: u16, y: u16, v: u8)
        requires
            old(self).wf(),
            x < old(self).w,
            y < old(self).h,
        ensures
            final(self).wf(),
            final(self).w == old(self).w,
            final(self).h == old(self).h,
            final(self).at(x as int, y as int) == v,
            forall|xi: int, yi: int|
                0 <= xi < old(self).w && 0 <= yi < old(self).h && !(xi == x && yi == y)
                    ==> final(self).at(xi, yi) == old(self).at(xi, yi),
    {
        proof {
            lemma_grid_fits(self.w, self.h);
            lemma_cell_index_bounds(self.w, self.h, x as int, y as int);
        }
        let idx = (y as usize) * (self.w as usize) + (x as usize);
        self.cells.set(idx, v);
        proof {
            assert forall|xi: int, yi: int|
                0 <= xi < old(self).w && 0 <= yi < old(self).h && !(xi == x && yi == y)
                implies final(self).at(xi, yi) == old(self).at(xi, yi) by {
                lemma_cell_index_bounds(self.w, self.h, xi, yi);
                lemma_cell_index_injective(self.w as int, x as int, y as int, xi, yi);
            }
        }
    }

    /// Paints `v` over the part of `r` that lies on the surface.
    #[verifier::loop_isolation(false)]
    pub fn fill_rect(&mut self, r: Rect, v: u8)
        requires
            old(self).wf(),
        ensures
            final(self).wf(),
            final(self).w == old(self).w,
            final(self).h == old(self).h,
            forall|x: int, y: int|
                0 <= x < old(self).w && 0 <= y < old(self).h ==> final(self).at(x, y) == (
                if rect_contains(r, x, y) {
                    v
                } else {
                    old(self).at(x, y)
                }),
    {
        let w = self.w;
        let h = self.h;
        let mut y: u16 = 0;
        while y < h
            invariant
                self.wf(),
                self.w == old(self).w,
                self.h == old(self).h,
                w == self.w,
                h == self.h,
                y <= h,
                forall|xi: int, yi: int|
                    0 <= xi < self.w && 0 <= yi < self.h ==> self.at(xi, yi) == (if rect_contains(
                        r,
                        xi,
                        yi,
                    ) && yi < y {
                        v
                    } else {
                        old(self).at(xi, yi)
                    }),
            decreases h - y,
        {
            let mut x: u16 = 0;
            while x < w
                invariant
                    self.wf(),
                    self.w == old(self).w,
                    self.h == old(self).h,
                    w == self.w,
                    h == self.h,
                    y < h,
                    x <= w,
                    forall|xi: int, yi: int|
                        0 <= xi < self.w && 0 <= yi < self.h ==> self.at(xi, yi) == (
                        if rect_contains(r, xi, yi) && (yi < y || (yi == y && xi < x)) {
                            v
                        } else {
                            old(self).at(xi, yi)
                        }),
                decreases w - x,
            {
                if rect_contains_exec(r, x, y) {
                    self.set(x, y, v);
                }
                x += 1;
            }
            y += 1;
        }
    }
}

/// A cell grid of any screen size fits in a vector index.
pub proof fn lemma_grid_fits(w: u16, h: u16)
    ensures
        w as int * h as int <= 0xfffe0001,
{
    assert(w as int * h as int <= 0xffff * 0xffff) by (nonlinear_arith)
        requires
            0 <= w as int <= 0xffff,
            0 <= h as int <= 0xffff,
    ;
}

/// A row-major cell index lies within the grid.
pub proof fn lemma_cell_index_bounds(w: u16, h: u16, x: int, y: int)
    requires
        0 <= x < w,
        0 <= y < h,
    ensures
        0 <= y * w as int + x < w as int * h as int,
{
    assert(y * w as int + x < w as int * h as int) by (nonlinear_arith)
        requires
            0 <= x < w as int,
            0 <= y < h as int,
    ;
    assert(y * w as int >= 0) by (nonlinear_arith)
        requires
            y >= 0,
            w as int >= 0,
    ;
}

/// Distinct cells have distinct row-major indices.
pub proof fn lemma_cell_index_injective(w: int, x: int, y: int, xi: int, yi: int)
    requires
        0 <= x < w,
        0 <= xi < w,
        0 <= y,
        0 <= yi,
        !(xi == x && yi == y),
    ensures
        yi * w + xi != y * w + x,
{
    if yi == y {
    } else {
        assert(yi * w + xi != y * w + x) by (nonlinear_arith)
            requires
                0 <= x < w,
                0 <= xi < w,
                0 <= y,
                0 <= yi,
                yi != y,
        ;
    }
}

} // verus!
