//! The application event loop, as a state machine over serialized events.
//!
//! Terminal input, background-job completions and timers are logically
//! concurrent, but their effects are serialized: the surrounding loop hands
//! `step` one event at a time, and a step always runs to completion before
//! the next is considered. A quit command moves the machine to `ShuttingDown`;
//! from then on input changes nothing and only job drains proceed, until the
//! last pending job completes and the machine is `Terminated`. Redraws
//! coalesce: however many events asked for a repaint, `render_frame` paints
//! the latest state once.

use vstd::prelude::*;

use crate::commands::Command;
use crate::compositor::{after_key, consumer_index, failed_count, visible_cell, Compositor};
use crate::keymap::{
    step_key, timeout_step, FeedResult, Key, KeymapEngine, Mode,
};
use crate::ui::{layout_area, Component, ConsumePolicy, EventResult, Layout, Rect, Surface};

verus! {

/// The lifecycle of the event loop.
#[derive(Clone, Copy, PartialEq, Eq, Structural, Debug)]
pub enum AppState {
    /// Dispatching events and rendering.
    Running,
    /// A quit was dispatched: draining pending jobs, input changes nothing.
    ShuttingDown,
    /// The loop has exited.
    Terminated,
}

/// The externally owned editor state the commands mutate, reduced to what
/// the runtime core reads and writes: the cursor line, and the id of the
/// last background-job result it applied (job results carry monotonic
/// request ids, so a stale result can be discarded).
#[derive(Clone, Copy, PartialEq, Eq, Structural, Debug)]
pub struct Editor {
    pub line: u64,
    pub last_job: u32,
}

/// One event of the merged, serialized stream the loop consumes.
#[derive(Clone, Copy, PartialEq, Eq, Structural, Debug)]
pub enum Event {
    /// A key from the terminal input stream.
    Input(Key),
    /// The terminal was resized.
    Resize(u16, u16),
    /// A background job delivered its result, tagged with its request id.
    JobDone(u32),
    /// The keymap engine's pending-sequence inactivity timeout fired.
    IdleTimeout,
}

/// How much diagnostic output the log side-channel carries.
#[derive(Clone, Copy, PartialEq, Eq, Structural, Debug)]
pub enum Verbosity {
    /// Warnings only (the default).
    Warnings,
    /// Informational messages too.
    Info,
    /// Debugging detail.
    Debug,
    /// Everything.
    Trace,
}

/// Maps the count of repeated verbosity flags to the log level: zero means
/// warnings only, one adds information, two adds debugging detail, and three
/// or more means everything.
pub fn verbosity_level(flags: u32) -> (v: Verbosity)
    ensures
        v == (if flags == 0 {
            Verbosity::Warnings
        } else if flags == 1 {
            Verbosity::Info
        } else if flags == 2 {
            Verbosity::Debug
        } else {
            Verbosity::Trace
        }),
{
    match flags {
        0 => Verbosity::Warnings,
        1 => Verbosity::Info,
        2 => Verbosity::Debug,
        _ => Verbosity::Trace,
    }
}

/// The id of the prompt component the OpenPrompt command pushes.
pub const PROMPT_ID: u64 = 1;

/// The cell value the prompt paints.
pub const PROMPT_FILL: u8 = 2;

/// The prompt component before it is laid out: a bottom-line overlay that
/// takes focus and consumes key events.
pub open spec fn prompt_proto() -> Component {
    Component {
        id: PROMPT_ID,
        layout: Layout::Bottom,
        area: Rect { x: 0, y: 0, w: 0, h: 0 },
        accepts_focus: true,
        policy: ConsumePolicy::Consume,
        fill: PROMPT_FILL,
        render_ok: true,
        needs_redraw: false,
    }
}

/// The mode after a command executes: the mode-switch commands set it, every
/// other command leaves it.
pub open spec fn mode_after(m0: Mode, cmd: Command) -> Mode {
    match cmd {
        Command::EnterNormal => Mode::Normal,
        Command::EnterInsert => Mode::Insert,
        Command::EnterSelect => Mode::Select,
        _ => m0,
    }
}

/// The cursor line after a command executes: the movement commands move it
/// by the count, saturating at the ends; every other command leaves it.
pub open spec fn line_after(l0: u64, cmd: Command, n: u32) -> u64 {
    match cmd {
        Command::MoveDown => if l0 + n <= u64::MAX {
            (l0 + n) as u64
        } else {
            u64::MAX
        },
        Command::MoveUp => if l0 >= n {
            (l0 - n) as u64
        } else {
            0
        },
        _ => l0,
    }
}

/// The lifecycle state after a command executes: Quit begins the shutdown,
/// skipping the drain when no job is pending; everything else stays put.
pub open spec fn state_after(st0: AppState, jobs: u32, cmd: Command) -> AppState {
    if cmd is Quit {
        if jobs == 0 {
            AppState::Terminated
        } else {
            AppState::ShuttingDown
        }
    } else {
        st0
    }
}

/// The compositor stack after a command executes: OpenPrompt pushes the
/// prompt laid out at the current size, CloseTop pops the topmost overlay
/// (never the base editor view), every other command leaves the stack.
pub open spec fn stack_after(s: Seq<Component>, w: u16, h: u16, cmd: Command) -> Seq<Component> {
    match cmd {
        Command::OpenPrompt => s.push(
            Component { area: layout_area(Layout::Bottom, w, h), ..prompt_proto() },
        ),
        Command::CloseTop => if s.len() > 1 {
            s.drop_last()
        } else {
            s
        },
        _ => s,
    }
}

/// A stack after every component was offered one key event: the consumer and
/// every component above it that acts have their redraw flag raised.
pub open spec fn offered_stack(s: Seq<Component>) -> Seq<Component> {
    Seq::new(s.len(), |i: int| after_key(s, i))
}

/// Whether `cmd` is one of the mode-switch commands, which clear the keymap
/// engine's pending state as a side effect.
pub open spec fn is_mode_switch(cmd: Command) -> bool {
    cmd is EnterNormal || cmd is EnterInsert || cmd is EnterSelect
}

/// The application: the compositor, the dispatch engine, the externally
/// owned editor state, and the bookkeeping of the loop itself.
pub struct Application {
    pub state: AppState,
    pub compositor: Compositor,
    pub engine: KeymapEngine,
    pub editor: Editor,
    /// Background jobs started and not yet delivered.
    pub jobs_pending: u32,
    /// The next background-job request id.
    pub next_job: u32,
    /// The cooperative cancellation flag jobs poll; raised by Quit.
    pub cancel_requested: bool,
    /// Whether some event asked for a repaint since the last frame.
    pub redraw_requested: bool,
}

impl Application {
    /// The compositor and the engine are well-formed.
    pub open spec fn wf(self) -> bool {
        self.compositor.wf() && self.engine.wf()
    }

    /// A fresh application around the given engine and base editor view:
    /// running, no job pending, first frame requested.
    pub fn new(engine: KeymapEngine, base: Component, w: u16, h: u16) -> (r: Application)
        requires
            engine.wf(),
            base.layout is Full,
            base.accepts_focus,
        ensures
            r.wf(),
            r.state is Running,
            r.engine == engine,
            r.editor == (Editor { line: 0, last_job: 0 }),
            r.jobs_pending == 0,
            r.next_job == 1,
            !r.cancel_requested,
            r.redraw_requested,
            r.compositor.w == w,
            r.compositor.h == h,
            r.compositor.stack@.len() == 1,
            r.compositor.stack@[0] == (Component { area: layout_area(base.layout, w, h), ..base }),
    {
        Application {
            state: AppState::Running,
            compositor: Compositor::new(base, w, h),
            engine,
            editor: Editor { line: 0, last_job: 0 },
            jobs_pending: 0,
            next_job: 1,
            cancel_requested: false,
            redraw_requested: true,
        }
    }

    /// Records that a background job was started and hands out its request
    /// id; ids are handed out in increasing order.
    pub fn job_started(&mut self) -> (id: u32)
        requires
            old(self).wf(),
            old(self).jobs_pending < u32::MAX,
            old(self).next_job < u32::MAX,
        ensures
            final(self).wf(),
            id == old(self).next_job,
            final(self).next_job == old(self).next_job + 1,
            final(self).jobs_pending == old(self).jobs_pending + 1,
            *final(self) == (Application {
                next_job: final(self).next_job,
                jobs_pending: final(self).jobs_pending,
                ..*old(self)
            }),
    {
        let id = self.next_job;
        self.next_job = self.next_job + 1;
        self.jobs_pending = self.jobs_pending + 1;
        id
    }

    /// Executes one resolved command against the editor, the compositor
    /// stack and the loop state, and requests a repaint. Commands are the
    /// only way the mode, the stack or the lifecycle state change.
    pub fn execute(&mut self, cmd: Command, n: u32)
        requires
            old(self).wf(),
            old(self).state is Running,
        ensures
            final(self).wf(),
            final(self).engine.mode == mode_after(old(self).engine.mode, cmd),
            final(self).engine.normal == old(self).engine.normal,
            final(self).engine.insert == old(self).engine.insert,
            final(self).engine.select == old(self).engine.select,
            is_mode_switch(cmd) ==> final(self).engine.pending@.len() == 0
                && final(self).engine.count == 0,
            !is_mode_switch(cmd) ==> final(self).engine == old(self).engine,
            final(self).editor.line == line_after(old(self).editor.line, cmd, n),
            final(self).editor.last_job == old(self).editor.last_job,
            final(self).compositor.stack@ == stack_after(
                old(self).compositor.stack@,
                old(self).compositor.w,
                old(self).compositor.h,
                cmd,
            ),
            final(self).compositor.w == old(self).compositor.w,
            final(self).compositor.h == old(self).compositor.h,
            final(self).state == state_after(old(self).state, old(self).jobs_pending, cmd),
            final(self).jobs_pending == old(self).jobs_pending,
            final(self).next_job == old(self).next_job,
            final(self).cancel_requested == (old(self).cancel_requested || cmd is Quit),
            final(self).redraw_requested,
    {
        self.redraw_requested = true;
        match cmd {
            Command::EnterNormal => self.engine.set_mode(Mode::Normal),
            Command::EnterInsert => self.engine.set_mode(Mode::Insert),
            Command::EnterSelect => self.engine.set_mode(Mode::Select),
            Command::MoveDown => {
                let add = n as u64;
                if self.editor.line <= u64::MAX - add {
                    self.editor.line = self.editor.line + add;
                } else {
                    self.editor.line = u64::MAX;
                }
            },
            Command::MoveUp => {
                let sub = n as u64;
                if self.editor.line >= sub {
                    self.editor.line = self.editor.line - sub;
                } else {
                    self.editor.line = 0;
                }
            },
            Command::OpenPrompt => {
                let prompt = Component::new(
                    PROMPT_ID,
                    Layout::Bottom,
                    true,
                    ConsumePolicy::Consume,
                    PROMPT_FILL,
                );
                self.compositor.push(prompt);
            },
            Command::CloseTop => {
                let popped = self.compositor.pop();
                proof {
                    if old(self).compositor.stack@.len() == 1 {
                        assert(self.compositor.stack@ == old(self).compositor.stack@);
                    }
                }
            },
            Command::Quit => {
                self.cancel_requested = true;
                if self.jobs_pending == 0 {
                    self.state = AppState::Terminated;
                } else {
                    self.state = AppState::ShuttingDown;
                }
            },
        }
    }

    /// Dispatches one event of the merged stream. Exactly one event is in
    /// flight at a time, and its dispatch runs to completion here.
    ///
    /// Running: a key event walks the compositor top to bottom and stops at
    /// the first consumer; only if no overlay consumes it does it reach the
    /// keymap engine, whose resolved command — returned to the caller — is
    /// executed. A resize is broadcast to every component. A job result is
    /// applied only if newer than the last applied one, so out-of-order
    /// deliveries are safe. The inactivity timeout forces the engine's
    /// shortest-match resolution.
    ///
    /// Once the state has left Running, input, resizes and timeouts change
    /// nothing at all, and no command ever fires again: only job drains
    /// proceed, until the last pending job completes and the state is
    /// Terminated.
    pub fn step(&mut self, ev: Event) -> (fired: Option<(Command, u32)>)
        requires
            old(self).wf(),
        ensures
            final(self).wf(),
            !(old(self).state is Running) ==> fired is None && final(self).compositor == old(self).compositor && final(self).engine == old(self).engine && final(self).editor == old(self).editor,
            final(self).state is Running ==> old(self).state is Running,
            old(self).state is Terminated ==> *final(self) == *old(self),
            old(self).state is ShuttingDown ==> (match ev {
                Event::JobDone(_) => ({
                    let j1 = if old(self).jobs_pending >= 1 {
                        (old(self).jobs_pending - 1) as u32
                    } else {
                        0u32
                    };
                    &&& *final(self) == (Application {
                        jobs_pending: j1,
                        state: if j1 == 0 {
                            AppState::Terminated
                        } else {
                            AppState::ShuttingDown
                        },
                        ..*old(self)
                    })
                }),
                _ => *final(self) == *old(self),
            }),
            old(self).state is Running ==> (match ev {
                Event::Input(k) => ({
                    let s0 = old(self).compositor.stack@;
                    let e0 = old(self).engine;
                    &&& final(self).compositor.w == old(self).compositor.w
                    &&& final(self).compositor.h == old(self).compositor.h
                    &&& if consumer_index(s0) >= 0 {
                        &&& fired is None
                        &&& final(self).engine == e0
                        &&& final(self).editor == old(self).editor
                        &&& final(self).state == old(self).state
                        &&& final(self).compositor.stack@ == offered_stack(s0)
                        &&& final(self).redraw_requested
                        &&& final(self).jobs_pending == old(self).jobs_pending
                        &&& final(self).cancel_requested == old(self).cancel_requested
                    } else {
                        let st = step_key(e0.active(), e0.pending@, e0.count, k);
                        match st.out {
                            FeedResult::Resolved(c, n) => {
                                &&& fired == Some((c, n))
                                &&& final(self).engine.mode == mode_after(e0.mode, c)
                                &&& final(self).engine.normal == e0.normal
                                &&& final(self).engine.insert == e0.insert
                                &&& final(self).engine.select == e0.select
                                &&& final(self).engine.pending@.len() == 0
                                &&& final(self).engine.count == 0
                                &&& final(self).editor.line == line_after(
                                    old(self).editor.line,
                                    c,
                                    n,
                                )
                                &&& final(self).editor.last_job == old(self).editor.last_job
                                &&& final(self).compositor.stack@ == stack_after(
                                    offered_stack(s0),
                                    old(self).compositor.w,
                                    old(self).compositor.h,
                                    c,
                                )
                                &&& final(self).state == state_after(
                                    old(self).state,
                                    old(self).jobs_pending,
                                    c,
                                )
                                &&& final(self).cancel_requested == (old(self).cancel_requested
                                    || c is Quit)
                                &&& final(self).redraw_requested
                                &&& final(self).jobs_pending == old(self).jobs_pending
                            },
                            _ => {
                                &&& fired is None
                                &&& final(self).engine.mode == e0.mode
                                &&& final(self).engine.normal == e0.normal
                                &&& final(self).engine.insert == e0.insert
                                &&& final(self).engine.select == e0.select
                                &&& final(self).engine.pending@ == st.pending
                                &&& final(self).engine.count == st.count
                                &&& final(self).editor == old(self).editor
                                &&& final(self).state == old(self).state
                                &&& final(self).compositor.stack@ == offered_stack(s0)
                                &&& final(self).jobs_pending == old(self).jobs_pending
                                &&& final(self).cancel_requested == old(self).cancel_requested
                                &&& final(self).redraw_requested == old(self).redraw_requested
                            },
                        }
                    }
                }),
                Event::Resize(w, h) => ({
                    &&& fired is None
                    &&& final(self).engine == old(self).engine
                    &&& final(self).editor == old(self).editor
                    &&& final(self).state == old(self).state
                    &&& final(self).compositor.w == w
                    &&& final(self).compositor.h == h
                    &&& final(self).compositor.stack@.len() == old(self).compositor.stack@.len()
                    &&& forall|i: int|
                        0 <= i < old(self).compositor.stack@.len() ==> final(self).compositor.stack@[i] == (Component {
                            area: layout_area(old(self).compositor.stack@[i].layout, w, h),
                            needs_redraw: true,
                            ..old(self).compositor.stack@[i]
                        })
                    &&& final(self).redraw_requested
                    &&& final(self).jobs_pending == old(self).jobs_pending
                }),
                Event::JobDone(id) => ({
                    let j1 = if old(self).jobs_pending >= 1 {
                        (old(self).jobs_pending - 1) as u32
                    } else {
                        0u32
                    };
                    &&& fired is None
                    &&& final(self).engine == old(self).engine
                    &&& final(self).compositor == old(self).compositor
                    &&& final(self).state == old(self).state
                    &&& final(self).jobs_pending == j1
                    &&& final(self).editor.line == old(self).editor.line
                    &&& if id > old(self).editor.last_job {
                        final(self).editor.last_job == id && final(self).redraw_requested
                    } else {
                        final(self).editor == old(self).editor && final(self).redraw_requested
                            == old(self).redraw_requested
                    }
                }),
                Event::IdleTimeout => ({
                    let e0 = old(self).engine;
                    let st = timeout_step(e0.active(), e0.pending@, e0.count);
                    match st.out {
                        FeedResult::Resolved(c, n) => {
                            &&& fired == Some((c, n))
                            &&& final(self).engine.mode == mode_after(e0.mode, c)
                            &&& final(self).engine.normal == e0.normal
                            &&& final(self).engine.insert == e0.insert
                            &&& final(self).engine.select == e0.select
                            &&& final(self).engine.pending@.len() == 0
                            &&& final(self).engine.count == 0
                            &&& final(self).editor.line == line_after(old(self).editor.line, c, n)
                            &&& final(self).editor.last_job == old(self).editor.last_job
                            &&& final(self).compositor.stack@ == stack_after(
                                old(self).compositor.stack@,
                                old(self).compositor.w,
                                old(self).compositor.h,
                                c,
                            )
                            &&& final(self).state == state_after(
                                old(self).state,
                                old(self).jobs_pending,
                                c,
                            )
                            &&& final(self).redraw_requested
                            &&& final(self).jobs_pending == old(self).jobs_pending
                            &&& final(self).cancel_requested == (old(self).cancel_requested
                                || c is Quit)
                        },
                        _ => {
                            &&& fired is None
                            &&& final(self).engine.mode == e0.mode
                            &&& final(self).engine.normal == e0.normal
                            &&& final(self).engine.insert == e0.insert
                            &&& final(self).engine.select == e0.select
                            &&& final(self).engine.pending@ == st.pending
                            &&& final(self).engine.count == st.count
                            &&& final(self).editor == old(self).editor
                            &&& final(self).state == old(self).state
                            &&& final(self).compositor == old(self).compositor
                            &&& final(self).jobs_pending == old(self).jobs_pending
                            &&& final(self).cancel_requested == old(self).cancel_requested
                            &&& final(self).redraw_requested == old(self).redraw_requested
                        },
                    }
                }),
            }),
    {
        match self.state {
            AppState::Terminated => None,
            AppState::ShuttingDown => {
                match ev {
                    Event::JobDone(_) => {
                        if self.jobs_pending >= 1 {
                            self.jobs_pending = self.jobs_pending - 1;
                        }
                        if self.jobs_pending == 0 {
                            self.state = AppState::Terminated;
                        }
                        None
                    },
                    _ => None,
                }
            },
            AppState::Running => {
                match ev {
                    Event::Input(k) => {
                        let r = self.compositor.handle_key(k);
                        proof {
                            assert(self.compositor.stack@ =~= offered_stack(
                                old(self).compositor.stack@,
                            ));
                        }
                        match r {
                            EventResult::Consumed => {
                                self.redraw_requested = true;
                                None
                            },
                            EventResult::Ignored => {
                                let fr = self.engine.feed(k);
                                match fr {
                                    FeedResult::Resolved(c, n) => {
                                        self.execute(c, n);
                                        Some((c, n))
                                    },
                                    _ => None,
                                }
                            },
                        }
                    },
                    Event::Resize(w, h) => {
                        self.compositor.handle_resize(w, h);
                        self.redraw_requested = true;
                        None
                    },
                    Event::JobDone(id) => {
                        if self.jobs_pending >= 1 {
                            self.jobs_pending = self.jobs_pending - 1;
                        }
                        if id > self.editor.last_job {
                            self.editor.last_job = id;
                            self.redraw_requested = true;
                        }
                        None
                    },
                    Event::IdleTimeout => {
                        let fr = self.engine.timeout();
                        match fr {
                            FeedResult::Resolved(c, n) => {
                                self.execute(c, n);
                                Some((c, n))
                            },
                            _ => None,
                        }
                    },
                }
            },
        }
    }

    /// Paints one frame if — and only if — some event asked for a repaint or
    /// some component wants one: however many events arrived since the last
    /// frame, the latest state is rendered exactly once, never a stale
    /// intermediate one. Returns how many components failed to render, each
    /// replaced by a blank area.
    pub fn render_frame(&mut self, surf: &mut Surface) -> (nfail: usize)
        requires
            old(self).wf(),
            old(surf).wf(),
            old(surf).w == old(self).compositor.w,
            old(surf).h == old(self).compositor.h,
        ensures
            final(self).wf(),
            final(surf).wf(),
            final(surf).w == old(surf).w,
            final(surf).h == old(surf).h,
            ({
                let need = old(self).redraw_requested || exists|i: int|
                    0 <= i < old(self).compositor.stack@.len() && (#[trigger] old(self).compositor.stack@[i]).needs_redraw;
                if need {
                    &&& forall|x: int, y: int|
                        0 <= x < old(surf).w && 0 <= y < old(surf).h ==> final(surf).at(x, y)
                            == visible_cell(old(self).compositor.stack@, x, y)
                    &&& !final(self).redraw_requested
                    &&& forall|i: int|
                        0 <= i < final(self).compositor.stack@.len() ==> !(#[trigger] final(self).compositor.stack@[i]).needs_redraw
                    &&& nfail == failed_count(old(self).compositor.stack@)
                } else {
                    &&& *final(surf) == *old(surf)
                    &&& *final(self) == *old(self)
                    &&& nfail == 0
                }
            }),
            final(self).state == old(self).state,
            final(self).engine == old(self).engine,
            final(self).editor == old(self).editor,
            final(self).jobs_pending == old(self).jobs_pending,
            final(self).compositor.w == old(self).compositor.w,
            final(self).compositor.h == old(self).compositor.h,
            final(self).compositor.stack@.len() == old(self).compositor.stack@.len(),
            forall|i: int|
                0 <= i < old(self).compositor.stack@.len() ==> final(self).compositor.stack@[i]
                    == (Component {
                    needs_redraw: final(self).compositor.stack@[i].needs_redraw,
                    ..old(self).compositor.stack@[i]
                }),
    {
        let need = self.redraw_requested || self.compositor.needs_render();
        if need {
            let nfail = self.compositor.render(surf);
            self.redraw_requested = false;
            nfail
        } else {
            0
        }
    }
}

} // verus!
