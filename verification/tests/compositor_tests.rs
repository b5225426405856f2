use helix_term::compositor::Compositor;
use helix_term::keymap::Key;
use helix_term::ui::{Component, ConsumePolicy, EventResult, Layout, Rect, Surface, BLANK};

fn base_view() -> Component {
    Component::new(0, Layout::Full, true, ConsumePolicy::Pass, 1)
}

#[test]
fn pushed_component_becomes_focus_target() {
    let mut c = Compositor::new(base_view(), 80, 24);
    assert_eq!(c.cursor(), (0, 0));
    let prompt = Component::new(1, Layout::Bottom, true, ConsumePolicy::Consume, 2);
    c.push(prompt);
    // the prompt sits on the bottom line and owns the cursor
    assert_eq!(c.cursor(), (0, 23));
}

#[test]
fn popping_restores_focus_to_next_topmost() {
    let mut c = Compositor::new(base_view(), 80, 24);
    c.push(Component::new(1, Layout::Bottom, true, ConsumePolicy::Consume, 2));
    let popped = c.pop().unwrap();
    assert_eq!(popped.id, 1);
    assert_eq!(c.cursor(), (0, 0));
    assert_eq!(c.stack.len(), 1);
}

#[test]
fn base_view_cannot_be_popped() {
    let mut c = Compositor::new(base_view(), 80, 24);
    assert!(c.pop().is_none());
    assert_eq!(c.stack.len(), 1);
}

#[test]
fn decorative_overlay_declines_focus() {
    let mut c = Compositor::new(base_view(), 80, 24);
    let decoration = Component::new(
        7,
        Layout::Fixed(Rect { x: 1, y: 1, w: 5, h: 2 }),
        false,
        ConsumePolicy::Pass,
        3,
    );
    c.push(decoration);
    // focus stays with the base view below
    assert_eq!(c.cursor(), (0, 0));
}

#[test]
fn key_event_stops_at_first_consumer_from_the_top() {
    let mut c = Compositor::new(base_view(), 80, 24);
    let lower = Component::new(1, Layout::Bottom, true, ConsumePolicy::Consume, 2);
    let upper = Component::new(2, Layout::Bottom, true, ConsumePolicy::Consume, 3);
    c.push(lower);
    c.push(upper);
    assert_eq!(c.handle_key(Key::Char(b'x')), EventResult::Consumed);
    // the topmost consumer acted; everything below it was never reached
    assert!(c.stack[2].needs_redraw);
    assert!(!c.stack[1].needs_redraw);
    assert!(!c.stack[0].needs_redraw);
}

#[test]
fn act_and_pass_acts_without_stopping_propagation() {
    let mut c = Compositor::new(base_view(), 80, 24);
    let consumer = Component::new(1, Layout::Bottom, true, ConsumePolicy::Consume, 2);
    let observer = Component::new(2, Layout::Bottom, false, ConsumePolicy::ActAndPass, 3);
    c.push(consumer);
    c.push(observer);
    assert_eq!(c.handle_key(Key::Enter), EventResult::Consumed);
    // the observer on top acted but passed the event on to the consumer
    assert!(c.stack[2].needs_redraw);
    assert!(c.stack[1].needs_redraw);
    assert!(!c.stack[0].needs_redraw);
}

#[test]
fn unconsumed_key_is_reported_ignored() {
    let mut c = Compositor::new(base_view(), 80, 24);
    assert_eq!(c.handle_key(Key::Char(b'x')), EventResult::Ignored);
}

#[test]
fn resize_reaches_every_component_in_the_stack() {
    let mut c = Compositor::new(base_view(), 80, 24);
    c.push(Component::new(1, Layout::Fixed(Rect { x: 10, y: 5, w: 30, h: 8 }), false, ConsumePolicy::Pass, 4));
    c.push(Component::new(2, Layout::Bottom, true, ConsumePolicy::Consume, 2));
    c.handle_resize(100, 40);
    assert_eq!(c.stack[0].area, Rect { x: 0, y: 0, w: 100, h: 40 });
    assert_eq!(c.stack[1].area, Rect { x: 10, y: 5, w: 30, h: 8 });
    assert_eq!(c.stack[2].area, Rect { x: 0, y: 39, w: 100, h: 1 });
    for comp in c.stack.iter() {
        assert!(comp.needs_redraw);
    }
}

#[test]
fn resize_clips_fixed_areas_to_the_screen() {
    let mut c = Compositor::new(base_view(), 80, 24);
    c.push(Component::new(1, Layout::Fixed(Rect { x: 70, y: 20, w: 30, h: 30 }), false, ConsumePolicy::Pass, 4));
    c.handle_resize(75, 22);
    assert_eq!(c.stack[1].area, Rect { x: 70, y: 20, w: 5, h: 2 });
}

#[test]
fn higher_component_occludes_lower_one() {
    let mut c = Compositor::new(base_view(), 10, 5);
    let popup = Component::new(
        1,
        Layout::Fixed(Rect { x: 2, y: 1, w: 3, h: 2 }),
        true,
        ConsumePolicy::Consume,
        7,
    );
    c.push(popup);
    let mut surf = Surface::new(10, 5);
    let nfail = c.render(&mut surf);
    assert_eq!(nfail, 0);
    // inside the popup's area its cells win; outside, the base shows through
    assert_eq!(surf.get(2, 1), 7);
    assert_eq!(surf.get(4, 2), 7);
    assert_eq!(surf.get(0, 0), 1);
    assert_eq!(surf.get(5, 1), 1);
    assert_eq!(surf.get(9, 4), 1);
}

#[test]
fn failed_render_is_blanked_and_reported() {
    let mut c = Compositor::new(base_view(), 10, 5);
    let mut faulty = Component::new(
        1,
        Layout::Fixed(Rect { x: 2, y: 1, w: 3, h: 2 }),
        false,
        ConsumePolicy::Pass,
        7,
    );
    faulty.render_ok = false;
    c.push(faulty);
    let mut surf = Surface::new(10, 5);
    let nfail = c.render(&mut surf);
    // the frame is not aborted: the failure is reported and the faulty
    // component's area is substituted with blank cells
    assert_eq!(nfail, 1);
    assert_eq!(surf.get(2, 1), BLANK);
    assert_eq!(surf.get(0, 0), 1);
}

#[test]
fn render_clears_redraw_flags() {
    let mut c = Compositor::new(base_view(), 10, 5);
    c.push(Component::new(1, Layout::Bottom, true, ConsumePolicy::Consume, 2));
    c.handle_key(Key::Char(b'x'));
    assert!(c.needs_render());
    let mut surf = Surface::new(10, 5);
    c.render(&mut surf);
    assert!(!c.needs_render());
}
