//! Editing modes, their actions, and the key-to-action tables.
use vstd::prelude::*;
use crate::key::Key;
use crate::normal::Normal;

verus! {

/// The active mode and its own data.
pub enum Mode {
    Normal(Normal),
    Insert,
    /// Holds the command line typed so far.
    Command(Vec<char>),
    Find,
    Goto,
}

pub ghost enum ModeModel {
    Normal,
    Insert,
    Command(Seq<char>),
    Find,
    Goto,
}

impl View for Mode {
    type V = ModeModel;

    open spec fn view(&self) -> ModeModel {
        match self {
            Mode::Normal(_) => ModeModel::Normal,
            Mode::Insert => ModeModel::Insert,
            Mode::Command(line) => ModeModel::Command(line@),
            Mode::Find => ModeModel::Find,
            Mode::Goto => ModeModel::Goto,
        }
    }
}

impl Mode {
    /// Command mode with an empty command line.
    pub fn command() -> (r: Mode)
        ensures
            r@ == ModeModel::Command(Seq::empty()),
    {
        Mode::Command(Vec::new())
    }

    /// The mode's name, as configuration and help refer to it.
    pub fn name(&self) -> (r: &'static str)
        ensures
            r@ == mode_name(self@)@,
    {
        match self {
            Mode::Normal(_) => "normal",
            Mode::Insert => "insert",
            Mode::Command(_) => "command",
            Mode::Find => "find",
            Mode::Goto => "goto",
        }
    }
}

pub open spec fn mode_name(m: ModeModel) -> &'static str {
    match m {
        ModeModel::Normal => "normal",
        ModeModel::Insert => "insert",
        ModeModel::Command(_) => "command",
        ModeModel::Find => "find",
        ModeModel::Goto => "goto",
    }
}

/// What a key bound in a table can do.
#[derive(Clone, Copy, Debug, PartialEq, Eq, Structural)]
pub enum Action {
    /// The action of a key that nothing is bound to: it does nothing.
    NotFound,
    InsertMode,
    CommandMode,
    FindMode,
    GotoMode,
}

/// The first action bound to `k` at or after position `i`, or `NotFound`.
pub open spec fn lookup_from(es: Seq<(Key, Action)>, k: Key, i: nat) -> Action
    decreases es.len() - i,
{
    if i >= es.len() {
        Action::NotFound
    } else if es[i as int].0 == k {
        es[i as int].1
    } else {
        lookup_from(es, k, i + 1)
    }
}

/// The action that a table binds to `k`: its first binding, or `NotFound`.
pub open spec fn lookup(es: Seq<(Key, Action)>, k: Key) -> Action {
    lookup_from(es, k, 0)
}

/// A table from keys to actions.
pub struct KeyMappings {
    pub entries: Vec<(Key, Action)>,
}

impl View for KeyMappings {
    type V = Seq<(Key, Action)>;

    open spec fn view(&self) -> Seq<(Key, Action)> {
        self.entries@
    }
}

impl KeyMappings {
    /// The action bound to `k`, or `NotFound`.
    pub fn action_by_key(&self, k: Key) -> (r: Action)
        ensures
            r == lookup(self@, k),
    {
        let mut i: usize = 0;
        while i < self.entries.len()
            invariant
                i <= self.entries@.len(),
                lookup_from(self@, k, i as nat) == lookup(self@, k),
            decreases self.entries@.len() - i,
        {
            if self.entries[i].0 == k {
                return self.entries[i].1;
            }
            i = i + 1;
        }
        Action::NotFound
    }
}

} // verus!
