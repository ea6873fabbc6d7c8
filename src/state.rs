//! The session: the active mode, the open buffers, the repeat count and the
//! clipboard register, and the routing of each key to the active mode.
use vstd::prelude::*;
use crate::buffer::{Buffer, BufferModel};
use crate::key::Key;
use crate::mode::{Action, KeyMappings, Mode, ModeModel};
use crate::normal::{Normal, normal_handle};

verus! {

/// What a session holds.
pub ghost struct SessionModel {
    pub mode: ModeModel,
    pub buffers: Seq<BufferModel>,
    /// The index of the active buffer, if any.
    pub cur: Option<nat>,
    /// The repeat count typed so far, if any.
    pub prefix: Option<nat>,
    pub clipboard: Seq<char>,
    /// Normal mode's key-to-action table.
    pub keys: Seq<(Key, Action)>,
}

impl SessionModel {
    pub open spec fn wf(self) -> bool {
        &&& (self.cur matches Some(i) ==> i < self.buffers.len())
        &&& forall|i: int| 0 <= i < self.buffers.len() ==> (#[trigger] self.buffers[i]).wf()
        &&& (self.prefix matches Some(n) ==> n <= usize::MAX)
    }

    pub open spec fn has_buffer(self) -> bool {
        self.cur is Some
    }

    /// The active buffer.
    pub open spec fn buffer(self) -> BufferModel {
        self.buffers[self.cur.unwrap() as int]
    }

    /// The session with `b` as its active buffer.
    pub open spec fn with_buffer(self, b: BufferModel) -> SessionModel {
        SessionModel { buffers: self.buffers.update(self.cur.unwrap() as int, b), ..self }
    }

    pub open spec fn with_mode(self, m: ModeModel) -> SessionModel {
        SessionModel { mode: m, ..self }
    }
}

/// The session after one key: Normal mode interprets it; every other mode goes back
/// to Normal on Esc, Command mode adds a typed character to its command line, and
/// other keys leave those modes as they are.
pub open spec fn step(s: SessionModel, k: Key) -> SessionModel {
    match s.mode {
        ModeModel::Normal => normal_handle(s, k),
        ModeModel::Command(line) => if k == Key::Esc {
            s.with_mode(ModeModel::Normal)
        } else if let Key::Char(c) = k {
            s.with_mode(ModeModel::Command(line.push(c)))
        } else {
            s
        },
        _ => if k == Key::Esc {
            s.with_mode(ModeModel::Normal)
        } else {
            s
        },
    }
}

/// The session after the keys `ks`, in order.
pub open spec fn run(s: SessionModel, ks: Seq<Key>) -> SessionModel
    decreases ks.len(),
{
    if ks.len() == 0 {
        s
    } else {
        step(run(s, ks.drop_last()), ks.last())
    }
}

pub struct State {
    pub mode: Mode,
    pub buffers: Vec<Buffer>,
    pub cur: Option<usize>,
    pub num_prefix: Option<usize>,
    pub yanked: Vec<char>,
    pub key_mappings: KeyMappings,
}

impl View for State {
    type V = SessionModel;

    open spec fn view(&self) -> SessionModel {
        SessionModel {
            mode: self.mode@,
            buffers: self.buffers@.map_values(|b: Buffer| b@),
            cur: match self.cur {
                Some(i) => Some(i as nat),
                None => None,
            },
            prefix: match self.num_prefix {
                Some(n) => Some(n as nat),
                None => None,
            },
            clipboard: self.yanked@,
            keys: self.key_mappings@,
        }
    }
}

impl State {
    /// A session in Normal mode over `buffers`, the first one active, with no repeat
    /// count, an empty clipboard and Normal mode's default key table.
    pub fn new(buffers: Vec<Buffer>) -> (r: State)
        requires
            forall|i: int| 0 <= i < buffers@.len() ==> (#[trigger] buffers@[i])@.wf(),
        ensures
            r@.wf(),
            r@.mode == ModeModel::Normal,
            r@.buffers == buffers@.map_values(|b: Buffer| b@),
            r@.cur == (if buffers@.len() > 0 { Some(0nat) } else { None }),
            r@.prefix is None,
            r@.clipboard == Seq::<char>::empty(),
            r@.keys == Normal::default_key_mappings_spec(),
    {
        let cur = if buffers.len() > 0 { Some(0usize) } else { None };
        let r = State {
            mode: Mode::Normal(Normal),
            buffers,
            cur,
            num_prefix: None,
            yanked: Vec::new(),
            key_mappings: Normal.key_mappings(),
        };
        r
    }

    /// Replaces the active mode.
    pub fn set_mode(&mut self, m: Mode)
        ensures
            final(self)@ == old(self)@.with_mode(m@),
    {
        self.mode = m;
    }

    /// Hands `key` to the active mode.
    pub fn dispatch(&mut self, key: Key)
        requires
            old(self)@.wf(),
        ensures
            final(self)@ == step(old(self)@, key),
            final(self)@.wf(),
    {
        match &mut self.mode {
            Mode::Normal(_) => {
                Normal.handle(self, key);
            },
            Mode::Command(line) => {
                if key == Key::Esc {
                    self.set_mode(Mode::Normal(Normal));
                } else if let Key::Char(c) = key {
                    line.push(c);
                }
            },
            _ => {
                if key == Key::Esc {
                    self.set_mode(Mode::Normal(Normal));
                }
            },
        }
    }
}

} // verus!
