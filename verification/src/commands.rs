//! Commands and the command registry.
//!
//! A command is a named, invokable editing or UI operation. The dispatch
//! engine resolves key sequences to commands; it does not interpret their
//! semantics beyond invoking them. The registry is a stateless lookup table
//! from command names to commands, with unique names.

use vstd::prelude::*;

verus! {

/// An invokable editing or UI operation.
#[derive(Clone, Copy, PartialEq, Eq, Structural, Debug)]
pub enum Command {
    /// Switch to Normal mode.
    EnterNormal,
    /// Switch to Insert mode.
    EnterInsert,
    /// Switch to Select mode.
    EnterSelect,
    /// Move the cursor down; multiplied by the numeral count.
    MoveDown,
    /// Move the cursor up; multiplied by the numeral count.
    MoveUp,
    /// Push a prompt component onto the compositor stack.
    OpenPrompt,
    /// Pop the topmost component off the compositor stack.
    CloseTop,
    /// Begin shutting the application down.
    Quit,
}

impl Command {
    /// Whether the command's effect is multiplied by a numeral count.
    pub open spec fn accepts_count(self) -> bool {
        self is MoveDown || self is MoveUp
    }

    /// Executable query matching `accepts_count`.
    pub fn takes_count(&self) -> (r: bool)
        ensures
            r == self.accepts_count(),
    {
        match self {
            Command::MoveDown => true,
            Command::MoveUp => true,
            _ => false,
        }
    }
}

/// One registry entry: a command under its name.
#[derive(Debug)]
pub struct CommandEntry {
    pub name: Vec<u8>,
    pub cmd: Command,
}

/// A lookup table from command names to commands. Names are unique.
#[derive(Debug)]
pub struct Registry {
    pub entries: Vec<CommandEntry>,
}

/// Why a registration was refused.
#[derive(Clone, Copy, PartialEq, Eq, Structural, Debug)]
pub enum RegistryError {
    /// The name is empty.
    EmptyName,
    /// The name is already taken.
    DuplicateName,
}

/// Compares two byte strings for equality.
fn bytes_eq(a: &Vec<u8>, b: &Vec<u8>) -> (r: bool)
    ensures
        r == (a@ == b@),
{
    if a.len() != b.len() {
        return false;
    }
    let mut i: usize = 0;
    while i < a.len()
        invariant
            i <= a@.len(),
            a@.len() == b@.len(),
            forall|j: int| 0 <= j < i ==> a@[j] == b@[j],
        decreases a@.len() - i,
    {
        if a[i] != b[i] {
            return false;
        }
        i += 1;
    }
    proof {
        assert(a@ =~= b@);
    }
    true
}

impl Registry {
    /// Every name appears at most once.
    pub open spec fn wf(self) -> bool {
        forall|i: int, j: int|
            0 <= i < j < self.entries@.len()
                ==> (#[trigger] self.entries@[i]).name@ != (#[trigger] self.entries@[j]).name@
    }

    /// Some entry carries the name `n`.
    pub open spec fn has_name(self, n: Seq<u8>) -> bool {
        exists|i: int| 0 <= i < self.entries@.len() && (#[trigger] self.entries@[i]).name@ == n
    }

    /// The command registered under the name `n`.
    pub open spec fn cmd_of(self, n: Seq<u8>) -> Command
        recommends
            self.has_name(n),
    {
        let i = choose|i: int|
            0 <= i < self.entries@.len() && (#[trigger] self.entries@[i]).name@ == n;
        self.entries@[i].cmd
    }

    /// An empty registry.
    pub fn new() -> (r: Registry)
        ensures
            r.wf(),
            r.entries@.len() == 0,
            forall|n: Seq<u8>| !r.has_name(n),
    {
        Registry { entries: Vec::new() }
    }

    /// In a well-formed registry, the entry at `i` determines `cmd_of` for its name.
    pub proof fn lemma_cmd_at(self, i: int)
        requires
            self.wf(),
            0 <= i < self.entries@.len(),
        ensures
            self.has_name(self.entries@[i].name@),
            self.cmd_of(self.entries@[i].name@) == self.entries@[i].cmd,
    {
        let n = self.entries@[i].name@;
        assert(self.has_name(n));
        let j = choose|j: int|
            0 <= j < self.entries@.len() && (#[trigger] self.entries@[j]).name@ == n;
        if i < j {
            assert(self.entries@[i].name@ != self.entries@[j].name@);
        } else if j < i {
            assert(self.entries@[j].name@ != self.entries@[i].name@);
        }
    }

    /// Registers `cmd` under `name`; refuses an empty or duplicate name.
    pub fn register(&mut self, name: Vec<u8>, cmd: Command) -> (r: Result<(), RegistryError>)
        requires
            old(self).wf(),
        ensures
            final(self).wf(),
            r is Ok <==> (name@.len() > 0 && !old(self).has_name(name@)),
            r == Err::<(), RegistryError>(RegistryError::EmptyName) <==> name@.len() == 0,
            r == Err::<(), RegistryError>(RegistryError::DuplicateName)
                <==> (name@.len() > 0 && old(self).has_name(name@)),
            r is Ok ==> final(self).entries@ == old(self).entries@.push(
                CommandEntry { name, cmd },
            ),
            r is Err ==> *final(self) == *old(self),
    {
        if name.len() == 0 {
            return Err(RegistryError::EmptyName);
        }
        if self.find(&name).is_some() {
            return Err(RegistryError::DuplicateName);
        }
        let ghost pre = self.entries@;
        self.entries.push(CommandEntry { name, cmd });
        proof {
            assert forall|i: int, j: int| 0 <= i < j < self.entries@.len() implies (
            #[trigger] self.entries@[i]).name@ != (#[trigger] self.entries@[j]).name@ by {
                if j == pre.len() {
                    assert(!(exists|k: int|
                        0 <= k < pre.len() && (#[trigger] pre[k]).name@ == self.entries@[j].name@));
                    assert(pre[i].name@ != self.entries@[j].name@);
                }
            }
        }
        Ok(())
    }

    /// Looks a name up; returns the registered command exactly when the name is present.
    pub fn find(&self, name: &Vec<u8>) -> (r: Option<Command>)
        requires
            self.wf(),
        ensures
            r is Some <==> self.has_name(name@),
            r matches Some(c) ==> c == self.cmd_of(name@),
    {
        let mut i: usize = 0;
        while i < self.entries.len()
            invariant
                self.wf(),
                i <= self.entries@.len(),
                forall|j: int| 0 <= j < i ==> (#[trigger] self.entries@[j]).name@ != name@,
            decreases self.entries@.len() - i,
        {
            if bytes_eq(&self.entries[i].name, name) {
                proof {
                    self.lemma_cmd_at(i as int);
                }
                return Some(self.entries[i].cmd);
            }
            i += 1;
        }
        None
    }
}

} // verus!
