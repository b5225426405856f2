//! The modal key-sequence dispatch engine.
//!
//! Per-mode tables bind key sequences to commands. Feeding a key extends the
//! pending sequence; the engine reports whether the sequence is still a viable
//! prefix, has resolved to a command (with the accumulated numeral count), or
//! matched nothing. Longer bindings take precedence: while a strictly longer
//! binding sharing the pending prefix is still reachable, nothing fires until
//! a key disambiguates or an inactivity timeout forces the shortest match.
//! A mode switch discards pending state unconditionally.

use vstd::prelude::*;

use crate::commands::Command;

verus! {

/// A physical key, reduced to the values the dispatch engine distinguishes.
#[derive(Clone, Copy, PartialEq, Eq, Structural, Debug)]
pub enum Key {
    /// A printable ASCII character.
    Char(u8),
    Esc,
    Enter,
    Backspace,
    Tab,
}

/// The editing mode that decides how raw keys are interpreted.
#[derive(Clone, Copy, PartialEq, Eq, Structural, Debug)]
pub enum Mode {
    Normal,
    Insert,
    Select,
}

/// Whether `k` is one of the numeral keys `0`..`9`.
pub open spec fn is_digit_key(k: Key) -> bool {
    k matches Key::Char(c) && 48 <= c <= 57
}

/// The numeric value of a numeral key.
pub open spec fn digit_value(k: Key) -> u32
    recommends
        is_digit_key(k),
{
    match k {
        Key::Char(c) => if 48 <= c <= 57 {
            (c - 48) as u32
        } else {
            0
        },
        _ => 0,
    }
}

/// Executable query matching `is_digit_key`.
pub fn key_is_digit(k: Key) -> (r: bool)
    ensures
        r == is_digit_key(k),
{
    match k {
        Key::Char(c) => 48 <= c && c <= 57,
        _ => false,
    }
}

/// Executable query matching `digit_value`.
pub fn key_digit_value(k: Key) -> (r: u32)
    requires
        is_digit_key(k),
    ensures
        r == digit_value(k),
{
    match k {
        Key::Char(c) => (c - 48) as u32,
        _ => 0,
    }
}

/// One key sequence bound to a command.
#[derive(Debug)]
pub struct Binding {
    pub keys: Vec<Key>,
    pub cmd: Command,
}

/// A per-mode table of bindings.
#[derive(Debug)]
pub struct Keymap {
    pub bindings: Vec<Binding>,
}

/// Why adding a binding was refused.
#[derive(Clone, Copy, PartialEq, Eq, Structural, Debug)]
pub enum BindError {
    /// The key sequence is empty.
    EmptySequence,
    /// The exact key sequence is already bound.
    DuplicateSequence,
}

/// Compares two key sequences for equality.
fn keys_eq(a: &Vec<Key>, b: &Vec<Key>) -> (r: bool)
    ensures
        r == (a@ == b@),
{
    if a.len() != b.len() {
        return false;
    }
    let mut i: usize = 0;
    while i < a.len()
        invariant
            i <= a@.len(),
            a@.len() == b@.len(),
            forall|j: int| 0 <= j < i ==> a@[j] == b@[j],
        decreases a@.len() - i,
    {
        if a[i] != b[i] {
            return false;
        }
        i += 1;
    }
    proof {
        assert(a@ =~= b@);
    }
    true
}

/// Whether `a` equals the first `l` keys of `b`.
fn keys_eq_prefix(a: &Vec<Key>, b: &Vec<Key>, l: usize) -> (r: bool)
    requires
        l <= b@.len(),
    ensures
        r == (a@ == b@.subrange(0, l as int)),
{
    if a.len() != l {
        return false;
    }
    let mut i: usize = 0;
    while i < l
        invariant
            i <= l,
            l <= b@.len(),
            a@.len() == l,
            forall|j: int| 0 <= j < i ==> a@[j] == b@[j],
        decreases l - i,
    {
        if a[i] != b[i] {
            return false;
        }
        i += 1;
    }
    proof {
        assert(a@ =~= b@.subrange(0, l as int));
    }
    true
}

/// Whether `a` is a strictly shorter prefix of `b`.
fn is_proper_prefix(a: &Vec<Key>, b: &Vec<Key>) -> (r: bool)
    ensures
        r == (a@.len() < b@.len() && a@ == b@.subrange(0, a@.len() as int)),
{
    if a.len() >= b.len() {
        return false;
    }
    keys_eq_prefix(a, b, a.len())
}

impl Keymap {
    /// Every binding is nonempty and no two bindings share a key sequence.
    pub open spec fn wf(self) -> bool {
        &&& forall|i: int|
            0 <= i < self.bindings@.len() ==> (#[trigger] self.bindings@[i]).keys@.len() > 0
        &&& forall|i: int, j: int|
            0 <= i < j < self.bindings@.len()
                ==> (#[trigger] self.bindings@[i]).keys@ != (#[trigger] self.bindings@[j]).keys@
    }

    /// Some binding's sequence is exactly `s`.
    pub open spec fn binds(self, s: Seq<Key>) -> bool {
        exists|i: int| 0 <= i < self.bindings@.len() && (#[trigger] self.bindings@[i]).keys@ == s
    }

    /// The command bound to exactly `s`.
    pub open spec fn bound_cmd(self, s: Seq<Key>) -> Command
        recommends
            self.binds(s),
    {
        let i = choose|i: int|
            0 <= i < self.bindings@.len() && (#[trigger] self.bindings@[i]).keys@ == s;
        self.bindings@[i].cmd
    }

    /// `s` is a strictly shorter prefix of some binding: more input could still match.
    pub open spec fn binds_longer(self, s: Seq<Key>) -> bool {
        exists|i: int|
            0 <= i < self.bindings@.len() && s.len() < (#[trigger] self.bindings@[i]).keys@.len()
                && s == self.bindings@[i].keys@.subrange(0, s.len() as int)
    }

    /// An empty keymap.
    pub fn new() -> (r: Keymap)
        ensures
            r.wf(),
            r.bindings@.len() == 0,
            forall|s: Seq<Key>| !r.binds(s) && !r.binds_longer(s),
    {
        Keymap { bindings: Vec::new() }
    }

    /// In a well-formed keymap, the binding at `i` determines `bound_cmd` for its sequence.
    pub proof fn lemma_bound_cmd_at(self, i: int)
        requires
            self.wf(),
            0 <= i < self.bindings@.len(),
        ensures
            self.binds(self.bindings@[i].keys@),
            self.bound_cmd(self.bindings@[i].keys@) == self.bindings@[i].cmd,
    {
        let s = self.bindings@[i].keys@;
        assert(self.binds(s));
        let j = choose|j: int|
            0 <= j < self.bindings@.len() && (#[trigger] self.bindings@[j]).keys@ == s;
        if i < j {
            assert(self.bindings@[i].keys@ != self.bindings@[j].keys@);
        } else if j < i {
            assert(self.bindings@[j].keys@ != self.bindings@[i].keys@);
        }
    }

    /// Binds `keys` to `cmd`; refuses an empty sequence or a duplicate of an
    /// existing binding. An ill-formed binding table is a configuration error
    /// reported at load time, so the error says which rule was broken.
    pub fn bind(&mut self, keys: Vec<Key>, cmd: Command) -> (r: Result<(), BindError>)
        requires
            old(self).wf(),
        ensures
            final(self).wf(),
            r is Ok <==> (keys@.len() > 0 && !old(self).binds(keys@)),
            r == Err::<(), BindError>(BindError::EmptySequence) <==> keys@.len() == 0,
            r == Err::<(), BindError>(BindError::DuplicateSequence) <==> (keys@.len() > 0
                && old(self).binds(keys@)),
            r is Ok ==> final(self).bindings@ == old(self).bindings@.push(Binding { keys, cmd }),
            r is Err ==> *final(self) == *old(self),
    {
        if keys.len() == 0 {
            return Err(BindError::EmptySequence);
        }
        if find_exact(self, &keys).is_some() {
            return Err(BindError::DuplicateSequence);
        }
        let ghost pre = self.bindings@;
        self.bindings.push(Binding { keys, cmd });
        proof {
            assert forall|i: int, j: int| 0 <= i < j < self.bindings@.len() implies (
            #[trigger] self.bindings@[i]).keys@ != (#[trigger] self.bindings@[j]).keys@ by {
                if j == pre.len() {
                    assert(self.bindings@[i] == pre[i]);
                }
            }
        }
        Ok(())
    }
}

/// Finds the binding whose sequence is exactly `s`, if any.
fn find_exact(m: &Keymap, s: &Vec<Key>) -> (r: Option<Command>)
    requires
        m.wf(),
    ensures
        r is Some <==> m.binds(s@),
        r matches Some(c) ==> c == m.bound_cmd(s@),
{
    let mut i: usize = 0;
    while i < m.bindings.len()
        invariant
            m.wf(),
            i <= m.bindings@.len(),
            forall|j: int| 0 <= j < i ==> (#[trigger] m.bindings@[j]).keys@ != s@,
        decreases m.bindings@.len() - i,
    {
        if keys_eq(&m.bindings[i].keys, s) {
            proof {
                m.lemma_bound_cmd_at(i as int);
            }
            return Some(m.bindings[i].cmd);
        }
        i += 1;
    }
    None
}

/// Whether `s` is a strictly shorter prefix of some binding.
fn has_longer(m: &Keymap, s: &Vec<Key>) -> (r: bool)
    ensures
        r == m.binds_longer(s@),
{
    let mut i: usize = 0;
    while i < m.bindings.len()
        invariant
            i <= m.bindings@.len(),
            forall|j: int|
                0 <= j < i ==> !(s@.len() < (#[trigger] m.bindings@[j]).keys@.len() && s@
                    == m.bindings@[j].keys@.subrange(0, s@.len() as int)),
        decreases m.bindings@.len() - i,
    {
        if is_proper_prefix(s, &m.bindings[i].keys) {
            return true;
        }
        i += 1;
    }
    false
}

/// The largest count that can absorb one more digit without overflowing.
pub const COUNT_LIMIT: u32 = 429496728;

/// Saturating accumulation of one numeral key onto a count: beyond the limit
/// the count pins to the maximum instead of wrapping.
pub open spec fn push_digit(c: u32, k: Key) -> u32
    recommends
        is_digit_key(k),
{
    if c <= COUNT_LIMIT {
        (10 * c + digit_value(k)) as u32
    } else {
        u32::MAX
    }
}

/// Executable accumulation matching `push_digit`.
pub fn push_digit_exec(c: u32, k: Key) -> (r: u32)
    requires
        is_digit_key(k),
    ensures
        r == push_digit(c, k),
{
    let d = key_digit_value(k);
    if c <= COUNT_LIMIT {
        10 * c + d
    } else {
        u32::MAX
    }
}

/// Whether every key of `s` is a numeral key.
pub open spec fn all_digits(s: Seq<Key>) -> bool {
    forall|i: int| 0 <= i < s.len() ==> is_digit_key(#[trigger] s[i])
}

/// Executable query matching `all_digits`.
fn vec_all_digits(s: &Vec<Key>) -> (r: bool)
    ensures
        r == all_digits(s@),
{
    let mut i: usize = 0;
    while i < s.len()
        invariant
            i <= s@.len(),
            forall|j: int| 0 <= j < i ==> is_digit_key(#[trigger] s@[j]),
        decreases s@.len() - i,
    {
        if !key_is_digit(s[i]) {
            return false;
        }
        i += 1;
    }
    true
}

/// The count after folding the numeral keys of `s` onto `c`, left to right.
pub open spec fn count_after(c: u32, s: Seq<Key>) -> u32
    recommends
        all_digits(s),
    decreases s.len(),
{
    if s.len() == 0 {
        c
    } else {
        count_after(push_digit(c, s[0]), s.subrange(1, s.len() as int))
    }
}

/// Executable fold matching `count_after`.
fn fold_digits(c: u32, s: &Vec<Key>) -> (r: u32)
    requires
        all_digits(s@),
    ensures
        r == count_after(c, s@),
{
    let mut acc = c;
    let mut i: usize = 0;
    proof {
        assert(s@.subrange(0, s@.len() as int) =~= s@);
    }
    while i < s.len()
        invariant
            i <= s@.len(),
            all_digits(s@),
            count_after(c, s@) == count_after(acc, s@.subrange(i as int, s@.len() as int)),
        decreases s@.len() - i,
    {
        proof {
            let tail = s@.subrange(i as int, s@.len() as int);
            assert(tail[0] == s@[i as int]);
            assert(tail.subrange(1, tail.len() as int) =~= s@.subrange(
                i as int + 1,
                s@.len() as int,
            ));
        }
        acc = push_digit_exec(acc, s[i]);
        i += 1;
    }
    proof {
        assert(s@.subrange(i as int, s@.len() as int) =~= Seq::<Key>::empty());
    }
    acc
}

/// The count a resolved command fires with: the accumulated count, or 1 if none.
pub open spec fn effective_count(c: u32) -> u32 {
    if c == 0 {
        1
    } else {
        c
    }
}

/// What the engine reports after absorbing one key.
#[derive(Clone, Copy, PartialEq, Eq, Structural, Debug)]
pub enum FeedResult {
    /// The sequence so far could still become a binding, or numerals were absorbed.
    Pending,
    /// A binding resolved; the command fires once, with this count.
    Resolved(Command, u32),
    /// The sequence matched nothing and was discarded.
    Unmapped,
}

/// The pending-state and output of one dispatch step, as mathematical values.
pub struct StepSpec {
    pub pending: Seq<Key>,
    pub count: u32,
    pub out: FeedResult,
}

/// One dispatch step: the pending sequence extended by `k` is first held
/// against strictly longer reachable bindings (which win ties and keep the
/// engine waiting), then against exact bindings, then against the numeral
/// rule; otherwise the whole failed sequence is discarded.
pub open spec fn step_key(m: Keymap, p: Seq<Key>, c: u32, k: Key) -> StepSpec {
    let s = p.push(k);
    if m.binds_longer(s) {
        StepSpec { pending: s, count: c, out: FeedResult::Pending }
    } else if m.binds(s) {
        StepSpec {
            pending: Seq::empty(),
            count: 0,
            out: FeedResult::Resolved(m.bound_cmd(s), effective_count(c)),
        }
    } else if all_digits(s) {
        StepSpec { pending: Seq::empty(), count: count_after(c, s), out: FeedResult::Pending }
    } else {
        StepSpec { pending: Seq::empty(), count: c, out: FeedResult::Unmapped }
    }
}

/// Finds the binding whose sequence is exactly the first `l` keys of `s`.
fn find_exact_prefix(m: &Keymap, s: &Vec<Key>, l: usize) -> (r: Option<Command>)
    requires
        m.wf(),
        l <= s@.len(),
    ensures
        r is Some <==> m.binds(s@.subrange(0, l as int)),
        r matches Some(c) ==> c == m.bound_cmd(s@.subrange(0, l as int)),
{
    let mut i: usize = 0;
    while i < m.bindings.len()
        invariant
            m.wf(),
            l <= s@.len(),
            i <= m.bindings@.len(),
            forall|j: int|
                0 <= j < i ==> (#[trigger] m.bindings@[j]).keys@ != s@.subrange(0, l as int),
        decreases m.bindings@.len() - i,
    {
        if keys_eq_prefix(&m.bindings[i].keys, s, l) {
            proof {
                m.lemma_bound_cmd_at(i as int);
            }
            return Some(m.bindings[i].cmd);
        }
        i += 1;
    }
    None
}

/// The least `j >= l` such that the first `j` keys of `s` exactly match a
/// binding, or `s.len() + 1` if no prefix from `l` on matches.
pub open spec fn shortest_match_from(m: Keymap, s: Seq<Key>, l: int) -> int
    decreases s.len() + 1 - l
        when 1 <= l <= s.len() + 1
{
    if l < 1 || l > s.len() {
        s.len() as int + 1
    } else if m.binds(s.subrange(0, l)) {
        l
    } else {
        shortest_match_from(m, s, l + 1)
    }
}

/// If the first match from `start` on is at `l`, the search returns `l`.
pub proof fn lemma_shortest_match_found(m: Keymap, s: Seq<Key>, start: int, l: int)
    requires
        1 <= start <= l <= s.len(),
        m.binds(s.subrange(0, l)),
        forall|j: int| start <= j < l ==> !m.binds(#[trigger] s.subrange(0, j)),
    ensures
        shortest_match_from(m, s, start) == l,
    decreases l - start,
{
    if start < l {
        assert(!m.binds(s.subrange(0, start)));
        lemma_shortest_match_found(m, s, start + 1, l);
    }
}

/// If no prefix from `start` on matches, the search runs off the end.
pub proof fn lemma_shortest_match_none(m: Keymap, s: Seq<Key>, start: int)
    requires
        1 <= start <= s.len() + 1,
        forall|j: int| start <= j <= s.len() ==> !m.binds(#[trigger] s.subrange(0, j)),
    ensures
        shortest_match_from(m, s, start) == s.len() + 1,
    decreases s.len() + 1 - start,
{
    if start <= s.len() {
        assert(!m.binds(s.subrange(0, start)));
        lemma_shortest_match_none(m, s, start + 1);
    }
}

/// The forced resolution the inactivity timeout performs: the shortest
/// exactly-matching prefix of the pending sequence fires with the accumulated
/// count; with no match the pending sequence is discarded. An empty pending
/// sequence is left as it is.
pub open spec fn timeout_step(m: Keymap, p: Seq<Key>, c: u32) -> StepSpec {
    if p.len() == 0 {
        StepSpec { pending: p, count: c, out: FeedResult::Pending }
    } else {
        let l = shortest_match_from(m, p, 1);
        if l <= p.len() {
            StepSpec {
                pending: Seq::empty(),
                count: 0,
                out: FeedResult::Resolved(m.bound_cmd(p.subrange(0, l)), effective_count(c)),
            }
        } else {
            StepSpec { pending: Seq::empty(), count: c, out: FeedResult::Unmapped }
        }
    }
}

/// The dispatch engine: per-mode binding tables plus the pending sequence and
/// numeral count it owns. No other component mutates these directly.
pub struct KeymapEngine {
    pub normal: Keymap,
    pub insert: Keymap,
    pub select: Keymap,
    pub mode: Mode,
    pub pending: Vec<Key>,
    pub count: u32,
}

impl KeymapEngine {
    /// All three binding tables are well-formed.
    pub open spec fn wf(self) -> bool {
        self.normal.wf() && self.insert.wf() && self.select.wf()
    }

    /// The binding table of the current mode.
    pub open spec fn active(self) -> Keymap {
        match self.mode {
            Mode::Normal => self.normal,
            Mode::Insert => self.insert,
            Mode::Select => self.select,
        }
    }

    /// An engine with empty tables, in Normal mode, with clean pending state.
    pub fn new() -> (r: KeymapEngine)
        ensures
            r.wf(),
            r.mode == Mode::Normal,
            r.pending@.len() == 0,
            r.count == 0,
            r.normal.bindings@.len() == 0,
            r.insert.bindings@.len() == 0,
            r.select.bindings@.len() == 0,
    {
        KeymapEngine {
            normal: Keymap::new(),
            insert: Keymap::new(),
            select: Keymap::new(),
            mode: Mode::Normal,
            pending: Vec::new(),
            count: 0,
        }
    }

    /// The binding table of the current mode.
    pub fn active_ref(&self) -> (r: &Keymap)
        ensures
            *r == self.active(),
    {
        match self.mode {
            Mode::Normal => &self.normal,
            Mode::Insert => &self.insert,
            Mode::Select => &self.select,
        }
    }

    /// Absorbs one key event and reports the outcome, exactly as `step_key`
    /// says: Pending while a longer binding is reachable or numerals
    /// accumulate, Resolved with the effective count when a binding matches,
    /// Unmapped otherwise (the whole failed sequence is discarded).
    pub fn feed(&mut self, k: Key) -> (r: FeedResult)
        requires
            old(self).wf(),
        ensures
            final(self).wf(),
            final(self).mode == old(self).mode,
            final(self).normal == old(self).normal,
            final(self).insert == old(self).insert,
            final(self).select == old(self).select,
            r == step_key(old(self).active(), old(self).pending@, old(self).count, k).out,
            final(self).pending@ == step_key(
                old(self).active(),
                old(self).pending@,
                old(self).count,
                k,
            ).pending,
            final(self).count == step_key(
                old(self).active(),
                old(self).pending@,
                old(self).count,
                k,
            ).count,
    {
        self.pending.push(k);
        let m = self.active_ref();
        if has_longer(m, &self.pending) {
            return FeedResult::Pending;
        }
        let found = find_exact(m, &self.pending);
        if let Some(cmd) = found {
            let n = if self.count == 0 {
                1
            } else {
                self.count
            };
            self.pending = Vec::new();
            self.count = 0;
            return FeedResult::Resolved(cmd, n);
        }
        if vec_all_digits(&self.pending) {
            let c2 = fold_digits(self.count, &self.pending);
            self.pending = Vec::new();
            self.count = c2;
            return FeedResult::Pending;
        }
        self.pending = Vec::new();
        FeedResult::Unmapped
    }

    /// Forces resolution after the inactivity timeout: the shortest prefix of
    /// the pending sequence that exactly matches a binding fires with the
    /// accumulated count; if none matches, the pending sequence is discarded.
    /// Either way the engine stops waiting. On an empty pending sequence this
    /// is a no-op reported as Pending.
    pub fn timeout(&mut self) -> (r: FeedResult)
        requires
            old(self).wf(),
        ensures
            final(self).wf(),
            final(self).mode == old(self).mode,
            final(self).normal == old(self).normal,
            final(self).insert == old(self).insert,
            final(self).select == old(self).select,
            r == timeout_step(old(self).active(), old(self).pending@, old(self).count).out,
            final(self).pending@ == timeout_step(
                old(self).active(),
                old(self).pending@,
                old(self).count,
            ).pending,
            final(self).count == timeout_step(
                old(self).active(),
                old(self).pending@,
                old(self).count,
            ).count,
    {
        if self.pending.len() == 0 {
            return FeedResult::Pending;
        }
        let m = self.active_ref();
        let mut done: usize = 0;
        while done < self.pending.len()
            invariant
                old(self).wf(),
                *self == *old(self),
                *m == old(self).active(),
                done <= self.pending@.len(),
                forall|j: int|
                    1 <= j <= done ==> !old(self).active().binds(
                        #[trigger] old(self).pending@.subrange(0, j),
                    ),
            decreases self.pending@.len() - done,
        {
            let l = done + 1;
            let found = find_exact_prefix(m, &self.pending, l);
            if let Some(cmd) = found {
                proof {
                    lemma_shortest_match_found(
                        old(self).active(),
                        old(self).pending@,
                        1,
                        l as int,
                    );
                }
                let n = if self.count == 0 {
                    1
                } else {
                    self.count
                };
                self.pending = Vec::new();
                self.count = 0;
                return FeedResult::Resolved(cmd, n);
            }
            done = l;
        }
        proof {
            lemma_shortest_match_none(old(self).active(), old(self).pending@, 1);
        }
        self.pending = Vec::new();
        FeedResult::Unmapped
    }

    /// Switches the mode. Any transition clears the pending sequence and the
    /// count unconditionally: no partial sequence carries over across modes —
    /// a prefix pending in the old mode can never resolve after the switch.
    pub fn set_mode(&mut self, m: Mode)
        ensures
            final(self).mode == m,
            final(self).pending@.len() == 0,
            final(self).count == 0,
            final(self).normal == old(self).normal,
            final(self).insert == old(self).insert,
            final(self).select == old(self).select,
            old(self).wf() ==> final(self).wf(),
    {
        self.mode = m;
        self.pending = Vec::new();
        self.count = 0;
    }
}

/// The observable outcome of feeding a whole key sequence: the final pending
/// state and every command invocation it fired, in order.
pub struct RunSpec {
    pub pending: Seq<Key>,
    pub count: u32,
    pub fired: Seq<(Command, u32)>,
}

/// The command invocations one step reports: one for Resolved, none otherwise.
pub open spec fn fired_of(r: FeedResult) -> Seq<(Command, u32)> {
    match r {
        FeedResult::Resolved(c, n) => seq![(c, n)],
        _ => Seq::empty(),
    }
}

/// Feeds `keys` one by one from the given pending state, collecting every
/// command invocation in order.
pub open spec fn run_keys(m: Keymap, p: Seq<Key>, c: u32, keys: Seq<Key>) -> RunSpec
    decreases keys.len(),
{
    if keys.len() == 0 {
        RunSpec { pending: p, count: c, fired: Seq::empty() }
    } else {
        let st = step_key(m, p, c, keys[0]);
        let rest = run_keys(m, st.pending, st.count, keys.subrange(1, keys.len() as int));
        RunSpec { pending: rest.pending, count: rest.count, fired: fired_of(st.out) + rest.fired }
    }
}

/// Feeding the remainder of a bound sequence that no other binding extends,
/// with its first `l` keys already pending, fires the bound command exactly
/// once, with the effective count, and leaves the engine state clean.
pub proof fn lemma_resolves_from(m: Keymap, s: Seq<Key>, l: int, c: u32)
    requires
        m.wf(),
        m.binds(s),
        !m.binds_longer(s),
        0 <= l < s.len(),
    ensures
        ({
            let r = run_keys(m, s.subrange(0, l), c, s.subrange(l, s.len() as int));
            &&& r.fired =~= seq![(m.bound_cmd(s), effective_count(c))]
            &&& r.pending =~= Seq::<Key>::empty()
            &&& r.count == 0
        }),
    decreases s.len() - l,
{
    reveal_with_fuel(run_keys, 3);
    let tail = s.subrange(l, s.len() as int);
    let p = s.subrange(0, l);
    assert(tail[0] == s[l]);
    assert(p.push(s[l]) =~= s.subrange(0, l + 1));
    let st = step_key(m, p, c, s[l]);
    if l + 1 == s.len() {
        assert(s.subrange(0, l + 1) =~= s);
        assert(st.out == FeedResult::Resolved(m.bound_cmd(s), effective_count(c)));
        assert(tail.subrange(1, tail.len() as int) =~= Seq::<Key>::empty());
        assert(fired_of(st.out) + Seq::<(Command, u32)>::empty() =~= seq![
            (m.bound_cmd(s), effective_count(c)),
        ]);
    } else {
        let i = choose|i: int|
            0 <= i < m.bindings@.len() && (#[trigger] m.bindings@[i]).keys@ == s;
        assert(s.subrange(0, l + 1) =~= m.bindings@[i].keys@.subrange(0, l + 1));
        assert(m.binds_longer(s.subrange(0, l + 1)));
        assert(st.out is Pending && st.pending == s.subrange(0, l + 1) && st.count == c);
        assert(tail.subrange(1, tail.len() as int) =~= s.subrange(l + 1, s.len() as int));
        lemma_resolves_from(m, s, l + 1, c);
        assert(fired_of(st.out) + run_keys(
            m,
            s.subrange(0, l + 1),
            c,
            s.subrange(l + 1, s.len() as int),
        ).fired =~= seq![(m.bound_cmd(s), effective_count(c))]);
    }
}

/// A key sequence bound uniquely in the current mode — it matches a binding
/// and no longer binding extends it — fed exactly, from a clean state,
/// resolves to exactly one command invocation with count 1.
pub proof fn lemma_unique_binding_fires_once(m: Keymap, s: Seq<Key>)
    requires
        m.wf(),
        m.binds(s),
        !m.binds_longer(s),
    ensures
        run_keys(m, Seq::empty(), 0, s).fired =~= seq![(m.bound_cmd(s), 1u32)],
        run_keys(m, Seq::empty(), 0, s).pending =~= Seq::<Key>::empty(),
        run_keys(m, Seq::empty(), 0, s).count == 0,
{
    let i = choose|i: int| 0 <= i < m.bindings@.len() && (#[trigger] m.bindings@[i]).keys@ == s;
    assert(m.bindings@[i].keys@.len() > 0);
    assert(Seq::<Key>::empty() =~= s.subrange(0, 0));
    assert(s.subrange(0, s.len() as int) =~= s);
    lemma_resolves_from(m, s, 0, 0);
}

/// Numeral keys that match no binding, not even as a prefix, accumulate into
/// the count left to right; the next uniquely bound sequence then fires
/// exactly once with that count, and the count resets to its default.
pub proof fn lemma_numeral_prefix(m: Keymap, d1: Key, d2: Key, s: Seq<Key>)
    requires
        m.wf(),
        is_digit_key(d1),
        is_digit_key(d2),
        !m.binds(seq![d1]),
        !m.binds_longer(seq![d1]),
        !m.binds(seq![d2]),
        !m.binds_longer(seq![d2]),
        m.binds(s),
        !m.binds_longer(s),
    ensures
        ({
            let r = run_keys(m, Seq::empty(), 0, seq![d1, d2] + s);
            &&& r.fired =~= seq![
                (m.bound_cmd(s), effective_count(push_digit(push_digit(0, d1), d2))),
            ]
            &&& r.count == 0
        }),
{
    reveal_with_fuel(run_keys, 3);
    reveal_with_fuel(count_after, 2);
    let ks = seq![d1, d2] + s;
    let c1 = push_digit(0u32, d1);
    let c2 = push_digit(c1, d2);
    assert(ks[0] == d1);
    assert(Seq::<Key>::empty().push(d1) =~= seq![d1]);
    assert(all_digits(seq![d1]));
    assert(count_after(0u32, seq![d1]) == c1) by {
        reveal_with_fuel(count_after, 2);
        assert(seq![d1].subrange(1, 1) =~= Seq::<Key>::empty());
    }
    let st1 = step_key(m, Seq::empty(), 0u32, d1);
    assert(st1.out is Pending && st1.pending =~= Seq::<Key>::empty() && st1.count == c1);
    let ks1 = ks.subrange(1, ks.len() as int);
    assert(ks1 =~= seq![d2] + s);
    assert(ks1[0] == d2);
    assert(Seq::<Key>::empty().push(d2) =~= seq![d2]);
    assert(all_digits(seq![d2]));
    assert(count_after(c1, seq![d2]) == c2) by {
        reveal_with_fuel(count_after, 2);
        assert(seq![d2].subrange(1, 1) =~= Seq::<Key>::empty());
    }
    let st2 = step_key(m, Seq::empty(), c1, d2);
    assert(st2.out is Pending && st2.pending =~= Seq::<Key>::empty() && st2.count == c2);
    let ks2 = ks1.subrange(1, ks1.len() as int);
    assert(ks2 =~= s);
    let i = choose|i: int| 0 <= i < m.bindings@.len() && (#[trigger] m.bindings@[i]).keys@ == s;
    assert(m.bindings@[i].keys@.len() > 0);
    assert(Seq::<Key>::empty() =~= s.subrange(0, 0));
    assert(s.subrange(0, s.len() as int) =~= s);
    lemma_resolves_from(m, s, 0, c2);
    let rA = run_keys(m, Seq::<Key>::empty(), 0u32, ks);
    let rB = run_keys(m, Seq::<Key>::empty(), c1, ks1);
    let rC = run_keys(m, Seq::<Key>::empty(), c2, ks2);
    assert(st1.pending == Seq::<Key>::empty());
    assert(st2.pending == Seq::<Key>::empty());
    assert(rA.fired == fired_of(st1.out) + rB.fired);
    assert(rB.fired == fired_of(st2.out) + rC.fired);
    assert(rC.fired =~= seq![(m.bound_cmd(s), effective_count(c2))]);
    assert(rA.fired =~= seq![(m.bound_cmd(s), effective_count(c2))]);
    assert(rA.count == rC.count);
}

/// While a strictly longer binding sharing the pending prefix is still
/// reachable, no command fires: the key is absorbed and the engine waits.
pub proof fn lemma_ambiguous_prefix_waits(m: Keymap, p: Seq<Key>, c: u32, k: Key)
    requires
        m.binds_longer(p.push(k)),
    ensures
        step_key(m, p, c, k).out is Pending,
        fired_of(step_key(m, p, c, k).out) =~= Seq::<(Command, u32)>::empty(),
        step_key(m, p, c, k).pending == p.push(k),
        step_key(m, p, c, k).count == c,
{
}

/// The forced inactivity timeout resolves the shortest prefix of the pending
/// sequence that exactly matches a binding, with the accumulated count.
pub proof fn lemma_timeout_fires_shortest(m: Keymap, p: Seq<Key>, c: u32, l: int)
    requires
        m.wf(),
        1 <= l <= p.len(),
        m.binds(p.subrange(0, l)),
        forall|j: int| 1 <= j < l ==> !m.binds(#[trigger] p.subrange(0, j)),
    ensures
        timeout_step(m, p, c).out == FeedResult::Resolved(
            m.bound_cmd(p.subrange(0, l)),
            effective_count(c),
        ),
        timeout_step(m, p, c).pending =~= Seq::<Key>::empty(),
        timeout_step(m, p, c).count == 0,
{
    lemma_shortest_match_found(m, p, 1, l);
}

} // verus!
