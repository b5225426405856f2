use helix_term::application::{verbosity_level, AppState, Application, Event, Verbosity, PROMPT_ID};
use helix_term::commands::Command;
use helix_term::keymap::{Key, KeymapEngine, Mode};
use helix_term::ui::{Component, ConsumePolicy, Layout, Surface};

fn default_engine() -> KeymapEngine {
    let mut e = KeymapEngine::new();
    e.normal.bind(vec![Key::Char(b'i')], Command::EnterInsert).unwrap();
    e.normal.bind(vec![Key::Char(b'j')], Command::MoveDown).unwrap();
    e.normal.bind(vec![Key::Char(b'k')], Command::MoveUp).unwrap();
    e.normal.bind(vec![Key::Char(b'p')], Command::OpenPrompt).unwrap();
    e.normal.bind(vec![Key::Char(b'q')], Command::Quit).unwrap();
    e.insert.bind(vec![Key::Esc], Command::EnterNormal).unwrap();
    e
}

fn base_view() -> Component {
    Component::new(0, Layout::Full, true, ConsumePolicy::Pass, 1)
}

fn new_app() -> Application {
    Application::new(default_engine(), base_view(), 80, 24)
}

#[test]
fn end_to_end_modal_editing_scenario() {
    let mut app = new_app();
    // start in Normal mode; `i` enters Insert mode
    assert_eq!(app.engine.mode, Mode::Normal);
    assert_eq!(app.step(Event::Input(Key::Char(b'i'))), Some((Command::EnterInsert, 1)));
    assert_eq!(app.engine.mode, Mode::Insert);
    assert_eq!(app.engine.pending.len(), 0);
    // Escape returns to Normal mode
    assert_eq!(app.step(Event::Input(Key::Esc)), Some((Command::EnterNormal, 1)));
    assert_eq!(app.engine.mode, Mode::Normal);
    // `3`,`j` fires a single move-by-3 command
    assert_eq!(app.step(Event::Input(Key::Char(b'3'))), None);
    assert_eq!(app.step(Event::Input(Key::Char(b'j'))), Some((Command::MoveDown, 3)));
    assert_eq!(app.editor.line, 3);
}

#[test]
fn movement_saturates_at_the_top() {
    let mut app = new_app();
    assert_eq!(app.step(Event::Input(Key::Char(b'k'))), Some((Command::MoveUp, 1)));
    assert_eq!(app.editor.line, 0);
}

#[test]
fn quit_with_no_pending_jobs_terminates_at_once() {
    let mut app = new_app();
    assert_eq!(app.step(Event::Input(Key::Char(b'q'))), Some((Command::Quit, 1)));
    assert_eq!(app.state, AppState::Terminated);
    assert!(app.cancel_requested);
}

#[test]
fn shutdown_ignores_input_and_drains_jobs() {
    let mut app = new_app();
    let first = app.job_started();
    let second = app.job_started();
    assert_eq!((first, second), (1, 2));
    assert_eq!(app.step(Event::Input(Key::Char(b'q'))), Some((Command::Quit, 1)));
    assert_eq!(app.state, AppState::ShuttingDown);
    let stack_before = app.compositor.stack.len();
    let mode_before = app.engine.mode;
    let line_before = app.editor.line;
    // no further input event produces any compositor or editor mutation
    assert_eq!(app.step(Event::Input(Key::Char(b'p'))), None);
    assert_eq!(app.step(Event::Input(Key::Char(b'j'))), None);
    assert_eq!(app.step(Event::Resize(100, 40)), None);
    assert_eq!(app.compositor.stack.len(), stack_before);
    assert_eq!(app.engine.mode, mode_before);
    assert_eq!(app.editor.line, line_before);
    assert_eq!(app.state, AppState::ShuttingDown);
    // only pending-job drains proceed, until the machine terminates
    assert_eq!(app.step(Event::JobDone(first)), None);
    assert_eq!(app.state, AppState::ShuttingDown);
    assert_eq!(app.step(Event::JobDone(second)), None);
    assert_eq!(app.state, AppState::Terminated);
    // a terminated application changes nothing at all
    assert_eq!(app.step(Event::Input(Key::Char(b'i'))), None);
    assert_eq!(app.state, AppState::Terminated);
}

#[test]
fn prompt_consumes_input_before_the_keymap() {
    let mut app = new_app();
    assert_eq!(app.step(Event::Input(Key::Char(b'p'))), Some((Command::OpenPrompt, 1)));
    assert_eq!(app.compositor.stack.len(), 2);
    assert_eq!(app.compositor.stack[1].id, PROMPT_ID);
    // with the prompt on top, `i` never reaches the keymap engine
    assert_eq!(app.step(Event::Input(Key::Char(b'i'))), None);
    assert_eq!(app.engine.mode, Mode::Normal);
    // closing the prompt hands input back to the editor view
    app.execute(Command::CloseTop, 1);
    assert_eq!(app.compositor.stack.len(), 1);
    assert_eq!(app.step(Event::Input(Key::Char(b'i'))), Some((Command::EnterInsert, 1)));
}

#[test]
fn idle_timeout_forces_shortest_match() {
    let mut engine = default_engine();
    engine
        .normal
        .bind(vec![Key::Char(b'j'), Key::Char(b'j')], Command::MoveUp)
        .unwrap();
    let mut app = Application::new(engine, base_view(), 80, 24);
    // `j` is bound, but `jj` is still reachable: the key is absorbed
    assert_eq!(app.step(Event::Input(Key::Char(b'j'))), None);
    assert_eq!(app.editor.line, 0);
    // the inactivity timeout resolves the shortest viable match
    assert_eq!(app.step(Event::IdleTimeout), Some((Command::MoveDown, 1)));
    assert_eq!(app.editor.line, 1);
}

#[test]
fn stale_job_results_are_discarded() {
    let mut app = new_app();
    assert_eq!(app.step(Event::JobDone(7)), None);
    assert_eq!(app.editor.last_job, 7);
    // an older result delivered out of order must not overwrite a newer one
    assert_eq!(app.step(Event::JobDone(3)), None);
    assert_eq!(app.editor.last_job, 7);
    assert_eq!(app.step(Event::JobDone(9)), None);
    assert_eq!(app.editor.last_job, 9);
}

#[test]
fn resize_is_broadcast_through_the_application() {
    let mut app = new_app();
    app.step(Event::Input(Key::Char(b'p')));
    app.step(Event::Resize(100, 40));
    assert_eq!(app.compositor.w, 100);
    assert_eq!(app.compositor.h, 40);
    assert_eq!(app.compositor.stack[0].area.w, 100);
    assert_eq!(app.compositor.stack[1].area.y, 39);
}

#[test]
fn repeated_verbosity_flags_raise_the_log_level() {
    assert_eq!(verbosity_level(0), Verbosity::Warnings);
    assert_eq!(verbosity_level(1), Verbosity::Info);
    assert_eq!(verbosity_level(2), Verbosity::Debug);
    assert_eq!(verbosity_level(3), Verbosity::Trace);
    assert_eq!(verbosity_level(17), Verbosity::Trace);
}

#[test]
fn redraws_coalesce_into_one_frame_of_the_latest_state() {
    let mut app = new_app();
    let mut surf = Surface::new(80, 24);
    // several state-mutating events arrive before the terminal can repaint
    app.step(Event::Input(Key::Char(b'j')));
    app.step(Event::Input(Key::Char(b'j')));
    app.step(Event::Input(Key::Char(b'p')));
    assert!(app.redraw_requested);
    app.render_frame(&mut surf);
    // the single frame shows the latest state: the prompt's bottom line
    assert_eq!(surf.get(0, 23), 2);
    assert_eq!(surf.get(0, 0), 1);
    // nothing changed since: the next frame paints nothing
    assert!(!app.redraw_requested);
    assert!(!app.compositor.needs_render());
    let nfail = app.render_frame(&mut surf);
    assert_eq!(nfail, 0);
}
