//! The layered compositor: an ordered stack of components, bottom (the
//! full-screen editor view) to top (the most recently pushed overlay). It owns
//! focus and event/render propagation: key events walk the stack top to
//! bottom and stop at the first component that consumes them; resize events
//! are broadcast to every component; rendering walks bottom to top, so a
//! higher component's cells occlude a lower one's. A component whose render
//! fails is replaced by a blank area and reported, so one faulty overlay
//! cannot freeze the whole frame.

use vstd::prelude::*;

use crate::keymap::Key;
use crate::ui::{
    layout_area, layout_area_exec, mark_redraw, layer_cell, rect_contains,
    Component, ConsumePolicy, EventResult, Layout, Rect, Surface, BLANK,
};

verus! {

/// The focus target: the index of the topmost component that accepts focus,
/// or -1 if every component declines.
pub open spec fn focus_index(s: Seq<Component>) -> int
    decreases s.len(),
{
    if s.len() == 0 {
        -1
    } else if s.last().accepts_focus {
        s.len() - 1
    } else {
        focus_index(s.drop_last())
    }
}

/// The index of the topmost component that consumes key events, or -1.
pub open spec fn consumer_index(s: Seq<Component>) -> int
    decreases s.len(),
{
    if s.len() == 0 {
        -1
    } else if s.last().policy is Consume {
        s.len() - 1
    } else {
        consumer_index(s.drop_last())
    }
}

/// The focus target is an in-range component that accepts focus, above which
/// every component declines — or -1, and every component declines.
pub proof fn lemma_focus_index_props(s: Seq<Component>)
    ensures
        -1 <= focus_index(s) < s.len(),
        focus_index(s) >= 0 ==> s[focus_index(s)].accepts_focus,
        forall|j: int| focus_index(s) < j < s.len() ==> !(#[trigger] s[j]).accepts_focus,
    decreases s.len(),
{
    if s.len() > 0 && !s.last().accepts_focus {
        lemma_focus_index_props(s.drop_last());
        assert(forall|j: int| 0 <= j < s.len() - 1 ==> #[trigger] s[j] == s.drop_last()[j]);
    }
}

/// If the component at `i` accepts focus and all above decline, `i` is the
/// focus target.
pub proof fn lemma_focus_index_at(s: Seq<Component>, i: int)
    requires
        0 <= i < s.len(),
        s[i].accepts_focus,
        forall|j: int| i < j < s.len() ==> !(#[trigger] s[j]).accepts_focus,
    ensures
        focus_index(s) == i,
    decreases s.len(),
{
    if i < s.len() - 1 {
        assert(forall|j: int| 0 <= j < s.len() - 1 ==> #[trigger] s.drop_last()[j] == s[j]);
        lemma_focus_index_at(s.drop_last(), i);
    }
}

/// If the component at `i` consumes key events and none above it does, `i`
/// is the consumer.
pub proof fn lemma_consumer_index_at(s: Seq<Component>, i: int)
    requires
        0 <= i < s.len(),
        s[i].policy is Consume,
        forall|j: int| i < j < s.len() ==> !((#[trigger] s[j]).policy is Consume),
    ensures
        consumer_index(s) == i,
    decreases s.len(),
{
    if i < s.len() - 1 {
        assert(forall|j: int| 0 <= j < s.len() - 1 ==> #[trigger] s.drop_last()[j] == s[j]);
        lemma_consumer_index_at(s.drop_last(), i);
    }
}

/// If no component consumes key events, there is no consumer.
pub proof fn lemma_consumer_index_none(s: Seq<Component>)
    requires
        forall|j: int| 0 <= j < s.len() ==> !((#[trigger] s[j]).policy is Consume),
    ensures
        consumer_index(s) == -1,
    decreases s.len(),
{
    if s.len() > 0 {
        assert(forall|j: int| 0 <= j < s.len() - 1 ==> #[trigger] s.drop_last()[j] == s[j]);
        lemma_consumer_index_none(s.drop_last());
    }
}

/// Pushing a component that accepts focus makes it the focus target; pushing
/// one that declines leaves the focus target where it was.
pub proof fn lemma_push_focus(s: Seq<Component>, c: Component)
    ensures
        c.accepts_focus ==> focus_index(s.push(c)) == s.len(),
        !c.accepts_focus ==> focus_index(s.push(c)) == focus_index(s),
{
    assert(s.push(c).last() == c);
    if !c.accepts_focus {
        assert(s.push(c).drop_last() =~= s);
    }
}

/// Popping the topmost component hands focus to the topmost remaining
/// component that accepts it: the focus target of the remainder.
pub proof fn lemma_pop_focus(s: Seq<Component>)
    requires
        s.len() > 0,
        focus_index(s.drop_last()) >= 0,
    ensures
        s.drop_last()[focus_index(s.drop_last())].accepts_focus,
        forall|j: int|
            focus_index(s.drop_last()) < j < s.len() - 1 ==> !(#[trigger] s.drop_last()[j]).accepts_focus,
{
    lemma_focus_index_props(s.drop_last());
}

/// What the compositor leaves at index `i` after routing one key event:
/// components above the consumer are offered the event (and may act on it);
/// the consumer itself acts; components below it are never reached.
pub open spec fn after_key(s: Seq<Component>, i: int) -> Component
    recommends
        0 <= i < s.len(),
{
    let ci = consumer_index(s);
    if i == ci || (i > ci && s[i].policy is ActAndPass) {
        mark_redraw(s[i])
    } else {
        s[i]
    }
}

/// Input never reaches a component below the one that consumed it: routing a
/// key event leaves everything under the consumer exactly as it was.
pub proof fn lemma_below_consumer_untouched(s: Seq<Component>, i: int)
    requires
        0 <= i < consumer_index(s),
    ensures
        after_key(s, i) == s[i],
{
}

/// The cell a stack of components renders at (`x`, `y`): the fill of the
/// highest component whose area covers the cell — blank if its render fails
/// — or the blank background if none covers it.
pub open spec fn visible_cell(s: Seq<Component>, x: int, y: int) -> u8
    decreases s.len(),
{
    if s.len() == 0 {
        BLANK
    } else if rect_contains(s.last().area, x, y) {
        layer_cell(s.last())
    } else {
        visible_cell(s.drop_last(), x, y)
    }
}

/// Render occlusion: if the component at `i` covers a cell and no higher
/// component does, the rendered cell is exactly what that component paints.
pub proof fn lemma_occlusion(s: Seq<Component>, i: int, x: int, y: int)
    requires
        0 <= i < s.len(),
        rect_contains(s[i].area, x, y),
        forall|j: int| i < j < s.len() ==> !rect_contains((#[trigger] s[j]).area, x, y),
    ensures
        visible_cell(s, x, y) == layer_cell(s[i]),
    decreases s.len(),
{
    if i == s.len() - 1 {
    } else {
        assert(!rect_contains(s.last().area, x, y));
        assert(forall|j: int| 0 <= j < s.len() - 1 ==> #[trigger] s.drop_last()[j] == s[j]);
        lemma_occlusion(s.drop_last(), i, x, y);
    }
}

/// How many components of the stack fail to render.
pub open spec fn failed_count(s: Seq<Component>) -> int
    decreases s.len(),
{
    if s.len() == 0 {
        0
    } else {
        failed_count(s.drop_last()) + (if s.last().render_ok {
            0int
        } else {
            1int
        })
    }
}

/// The ordered component stack, with the screen size its layouts are
/// computed against.
pub struct Compositor {
    pub stack: Vec<Component>,
    pub w: u16,
    pub h: u16,
}

impl Compositor {
    /// The stack is never empty; the bottom component is the full-screen
    /// editor view and accepts focus, so a focus target always exists; and
    /// every component's area is the one its layout yields at the current
    /// screen size.
    pub open spec fn wf(self) -> bool {
        &&& self.stack@.len() >= 1
        &&& self.stack@[0].layout is Full
        &&& self.stack@[0].accepts_focus
        &&& forall|i: int|
            0 <= i < self.stack@.len() ==> (#[trigger] self.stack@[i]).area == layout_area(
                self.stack@[i].layout,
                self.w,
                self.h,
            )
    }

    /// A compositor holding only the base editor view, laid out full-screen.
    pub fn new(base: Component, w: u16, h: u16) -> (r: Compositor)
        requires
            base.layout is Full,
            base.accepts_focus,
        ensures
            r.wf(),
            r.w == w,
            r.h == h,
            r.stack@.len() == 1,
            r.stack@[0] == (Component { area: layout_area(base.layout, w, h), ..base }),
    {
        let mut b = base;
        b.area = layout_area_exec(b.layout, w, h);
        let mut stack: Vec<Component> = Vec::new();
        stack.push(b);
        Compositor { stack, w, h }
    }

    /// Pushes a component on top of the stack, laying it out at the current
    /// screen size. If it accepts focus it becomes the focus target.
    pub fn push(&mut self, c: Component)
        requires
            old(self).wf(),
        ensures
            final(self).wf(),
            final(self).w == old(self).w,
            final(self).h == old(self).h,
            final(self).stack@ == old(self).stack@.push(
                Component { area: layout_area(c.layout, old(self).w, old(self).h), ..c },
            ),
            c.accepts_focus ==> focus_index(final(self).stack@) == old(self).stack@.len(),
    {
        let mut c2 = c;
        c2.area = layout_area_exec(c2.layout, self.w, self.h);
        self.stack.push(c2);
        proof {
            assert(self.stack@[0] == old(self).stack@[0]);
            lemma_push_focus(old(self).stack@, c2);
        }
    }

    /// Pops the topmost component, unless only the base editor view is left.
    /// The focus target falls back to the topmost remaining component that
    /// accepts focus.
    pub fn pop(&mut self) -> (r: Option<Component>)
        requires
            old(self).wf(),
        ensures
            final(self).wf(),
            final(self).w == old(self).w,
            final(self).h == old(self).h,
            old(self).stack@.len() > 1 ==> {
                &&& r == Some(old(self).stack@.last())
                &&& final(self).stack@ == old(self).stack@.drop_last()
            },
            old(self).stack@.len() == 1 ==> r is None && final(self).stack@ == old(self).stack@,
    {
        if self.stack.len() <= 1 {
            return None;
        }
        let c = self.stack.pop().unwrap();
        proof {
            assert(self.stack@ =~= old(self).stack@.drop_last());
            assert(self.stack@[0] == old(self).stack@[0]);
        }
        Some(c)
    }

    /// Routes one key event top to bottom: each component is offered the
    /// event in turn until the first one consumes it. Components below the
    /// consumer are never reached; components offered the event act on it
    /// exactly as their policy says. Returns whether anyone consumed it.
    pub fn handle_key(&mut self, k: Key) -> (r: EventResult)
        requires
            old(self).wf(),
        ensures
            final(self).wf(),
            final(self).w == old(self).w,
            final(self).h == old(self).h,
            final(self).stack@.len() == old(self).stack@.len(),
            r is Consumed <==> consumer_index(old(self).stack@) >= 0,
            forall|i: int|
                0 <= i < old(self).stack@.len() ==> final(self).stack@[i] == after_key(
                    old(self).stack@,
                    i,
                ),
    {
        let ghost s0 = self.stack@;
        let n = self.stack.len();
        let mut off: usize = 0;
        while off < n
            invariant
                old(self).wf(),
                n == self.stack@.len(),
                n == s0.len(),
                off <= n,
                self.w == old(self).w,
                self.h == old(self).h,
                s0 == old(self).stack@,
                forall|j: int| n - off <= j < n ==> !((#[trigger] s0[j]).policy is Consume),
                forall|j: int|
                    n - off <= j < n ==> self.stack@[j] == (if s0[j].policy is ActAndPass {
                        mark_redraw(s0[j])
                    } else {
                        s0[j]
                    }),
                forall|j: int| 0 <= j < n - off ==> self.stack@[j] == s0[j],
            decreases n - off,
        {
            let i = n - 1 - off;
            let c = self.stack[i];
            match c.policy {
                ConsumePolicy::Consume => {
                    let mut c2 = c;
                    c2.needs_redraw = true;
                    self.stack.set(i, c2);
                    proof {
                        lemma_consumer_index_at(s0, i as int);
                        assert forall|j: int| 0 <= j < n implies self.stack@[j] == after_key(
                            s0,
                            j,
                        ) by {}
                        assert(self.stack@[0] == s0[0] || self.stack@[0] == mark_redraw(s0[0]));
                    }
                    return EventResult::Consumed;
                },
                ConsumePolicy::ActAndPass => {
                    let mut c2 = c;
                    c2.needs_redraw = true;
                    self.stack.set(i, c2);
                },
                ConsumePolicy::Pass => {},
            }
            off += 1;
        }
        proof {
            lemma_consumer_index_none(s0);
        }
        EventResult::Ignored
    }

    /// Broadcasts a resize to every component in the stack, whatever its
    /// position: each one recomputes its area from its layout at the new
    /// size and wants a repaint.
    pub fn handle_resize(&mut self, w: u16, h: u16)
        requires
            old(self).wf(),
        ensures
            final(self).wf(),
            final(self).w == w,
            final(self).h == h,
            final(self).stack@.len() == old(self).stack@.len(),
            forall|i: int|
                0 <= i < old(self).stack@.len() ==> final(self).stack@[i] == (Component {
                    area: layout_area(old(self).stack@[i].layout, w, h),
                    needs_redraw: true,
                    ..old(self).stack@[i]
                }),
    {
        self.w = w;
        self.h = h;
        let n = self.stack.len();
        let mut i: usize = 0;
        while i < n
            invariant
                n == self.stack@.len(),
                n == old(self).stack@.len(),
                i <= n,
                self.w == w,
                self.h == h,
                forall|j: int|
                    0 <= j < i ==> self.stack@[j] == (Component {
                        area: layout_area(old(self).stack@[j].layout, w, h),
                        needs_redraw: true,
                        ..old(self).stack@[j]
                    }),
                forall|j: int| i <= j < n ==> self.stack@[j] == old(self).stack@[j],
            decreases n - i,
        {
            let mut c = self.stack[i];
            c.area = layout_area_exec(c.layout, w, h);
            c.needs_redraw = true;
            self.stack.set(i, c);
            i += 1;
        }
    }

    /// Whether any component wants the next frame repainted.
    pub fn needs_render(&self) -> (r: bool)
        ensures
            r == exists|i: int|
                0 <= i < self.stack@.len() && (#[trigger] self.stack@[i]).needs_redraw,
    {
        let mut i: usize = 0;
        while i < self.stack.len()
            invariant
                i <= self.stack@.len(),
                forall|j: int| 0 <= j < i ==> !(#[trigger] self.stack@[j]).needs_redraw,
            decreases self.stack@.len() - i,
        {
            if self.stack[i].needs_redraw {
                return true;
            }
            i += 1;
        }
        false
    }

    /// Where the focus target wants the terminal cursor.
    pub fn cursor(&self) -> (r: (u16, u16))
        requires
            self.wf(),
        ensures
            focus_index(self.stack@) >= 0,
            r.0 == self.stack@[focus_index(self.stack@)].area.x,
            r.1 == self.stack@[focus_index(self.stack@)].area.y,
    {
        let n = self.stack.len();
        let mut off: usize = 0;
        while off < n - 1
            invariant
                self.wf(),
                n == self.stack@.len(),
                off < n,
                forall|j: int| n - off <= j < n ==> !(#[trigger] self.stack@[j]).accepts_focus,
            decreases n - off,
        {
            let i = n - 1 - off;
            if self.stack[i].accepts_focus {
                proof {
                    lemma_focus_index_at(self.stack@, i as int);
                }
                return self.stack[i].cursor_hint();
            }
            off += 1;
        }
        proof {
            lemma_focus_index_at(self.stack@, 0);
        }
        self.stack[0].cursor_hint()
    }

    /// Composes one frame: every component, bottom to top, paints its area —
    /// blank if its render fails — so higher components occlude lower ones.
    /// Every redraw flag is cleared, and the number of components whose
    /// render failed is reported back for the caller to surface.
    pub fn render(&mut self, surf: &mut Surface) -> (nfail: usize)
        requires
            old(self).wf(),
            old(surf).wf(),
            old(surf).w == old(self).w,
            old(surf).h == old(self).h,
        ensures
            final(self).wf(),
            *final(self) == (Compositor { stack: final(self).stack, ..*old(self) }),
            final(self).stack@.len() == old(self).stack@.len(),
            forall|i: int|
                0 <= i < old(self).stack@.len() ==> final(self).stack@[i] == (Component {
                    needs_redraw: false,
                    ..old(self).stack@[i]
                }),
            final(surf).wf(),
            final(surf).w == old(surf).w,
            final(surf).h == old(surf).h,
            forall|x: int, y: int|
                0 <= x < old(surf).w && 0 <= y < old(surf).h ==> final(surf).at(x, y)
                    == visible_cell(old(self).stack@, x, y),
            nfail == failed_count(old(self).stack@),
    {
        surf.fill_rect(Rect { x: 0, y: 0, w: surf.w, h: surf.h }, BLANK);
        let n = self.stack.len();
        let mut nfail: usize = 0;
        let mut i: usize = 0;
        proof {
            assert(old(self).stack@.subrange(0, 0) =~= Seq::<Component>::empty());
        }
        while i < n
            invariant
                old(self).wf(),
                old(surf).wf(),
                old(surf).w == old(self).w,
                old(surf).h == old(self).h,
                n == self.stack@.len(),
                n == old(self).stack@.len(),
                i <= n,
                self.w == old(self).w,
                self.h == old(self).h,
                forall|j: int|
                    0 <= j < i ==> self.stack@[j] == (Component {
                        needs_redraw: false,
                        ..old(self).stack@[j]
                    }),
                forall|j: int| i <= j < n ==> self.stack@[j] == old(self).stack@[j],
                surf.wf(),
                surf.w == old(surf).w,
                surf.h == old(surf).h,
                forall|x: int, y: int|
                    0 <= x < old(surf).w && 0 <= y < old(surf).h ==> surf.at(x, y) == visible_cell(
                        old(self).stack@.subrange(0, i as int),
                        x,
                        y,
                    ),
                nfail == failed_count(old(self).stack@.subrange(0, i as int)),
                nfail <= i,
            decreases n - i,
        {
            let mut c = self.stack[i];
            let fill = if c.render_ok {
                c.fill
            } else {
                nfail += 1;
                BLANK
            };
            surf.fill_rect(c.area, fill);
            c.needs_redraw = false;
            self.stack.set(i, c);
            i += 1;
            proof {
                let pre = old(self).stack@.subrange(0, i - 1);
                let cur = old(self).stack@.subrange(0, i as int);
                assert(cur.drop_last() =~= pre);
                assert(cur.last() == old(self).stack@[i - 1]);
                assert forall|x: int, y: int|
                    0 <= x < old(surf).w && 0 <= y < old(surf).h implies surf.at(x, y)
                    == visible_cell(cur, x, y) by {}
            }
        }
        proof {
            assert(old(self).stack@.subrange(0, n as int) =~= old(self).stack@);
        }
        nfail
    }
}

} // verus!
