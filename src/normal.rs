//! Normal mode: repeat counts, undo boundaries and the command table.
use vstd::prelude::*;
use crate::buffer::{Buffer, BufferModel};
use crate::key::{Key, digit, digit_of};
use crate::mode::{Action, KeyMappings, Mode, ModeModel, lookup};
use crate::state::{SessionModel, State};
use crate::text::Motion;

verus! {

/// The mode in which keys are editing commands.
#[derive(Clone, Copy, Debug, Default, PartialEq, Eq)]
pub struct Normal;

/// How many times the next command runs: the repeat count, or 1 without one (a
/// count of 0 runs it zero times).
pub open spec fn times(s: SessionModel) -> nat {
    match s.prefix {
        Some(n) => n,
        None => 1,
    }
}

/// The repeat count after one more digit `d`: the decimal value, saturating at
/// the largest `usize`.
pub open spec fn accumulate(prefix: Option<nat>, d: nat) -> nat {
    let x = match prefix {
        Some(n) => n,
        None => 0,
    };
    if x * 10 + d <= usize::MAX {
        x * 10 + d
    } else {
        usize::MAX as nat
    }
}

/// The motion of a movement key, and whether it extends the selection (`true`) or
/// moves it (`false`).
pub open spec fn motion_of(k: Key) -> Option<(Motion, bool)> {
    if k == Key::Left || k == Key::Char('h') {
        Some((Motion::Left, false))
    } else if k == Key::Char('H') {
        Some((Motion::Left, true))
    } else if k == Key::Right || k == Key::Char('l') {
        Some((Motion::Right, false))
    } else if k == Key::Char('L') {
        Some((Motion::Right, true))
    } else if k == Key::Up || k == Key::Char('k') {
        Some((Motion::Up, false))
    } else if k == Key::Char('K') {
        Some((Motion::Up, true))
    } else if k == Key::Down || k == Key::Char('j') {
        Some((Motion::Down, false))
    } else if k == Key::Char('J') {
        Some((Motion::Down, true))
    } else if k == Key::Char('w') {
        Some((Motion::WordForward, false))
    } else if k == Key::Char('W') {
        Some((Motion::WordForward, true))
    } else if k == Key::Char('b') {
        Some((Motion::WordBackward, false))
    } else if k == Key::Char('B') {
        Some((Motion::WordBackward, true))
    } else {
        None
    }
}

fn motion_key(k: Key) -> (r: Option<(Motion, bool)>)
    ensures
        r == motion_of(k),
{
    if k == Key::Left || k == Key::Char('h') {
        Some((Motion::Left, false))
    } else if k == Key::Char('H') {
        Some((Motion::Left, true))
    } else if k == Key::Right || k == Key::Char('l') {
        Some((Motion::Right, false))
    } else if k == Key::Char('L') {
        Some((Motion::Right, true))
    } else if k == Key::Up || k == Key::Char('k') {
        Some((Motion::Up, false))
    } else if k == Key::Char('K') {
        Some((Motion::Up, true))
    } else if k == Key::Down || k == Key::Char('j') {
        Some((Motion::Down, false))
    } else if k == Key::Char('J') {
        Some((Motion::Down, true))
    } else if k == Key::Char('w') {
        Some((Motion::WordForward, false))
    } else if k == Key::Char('W') {
        Some((Motion::WordForward, true))
    } else if k == Key::Char('b') {
        Some((Motion::WordBackward, false))
    } else if k == Key::Char('B') {
        Some((Motion::WordBackward, true))
    } else {
        None
    }
}

/// The session after an action from the key table.
pub open spec fn run_action(s: SessionModel, a: Action) -> SessionModel {
    match a {
        Action::NotFound => s,
        Action::InsertMode => s.with_mode(ModeModel::Insert),
        Action::CommandMode => s.with_mode(ModeModel::Command(Seq::empty())),
        Action::FindMode => s.with_mode(ModeModel::Find),
        Action::GotoMode => s.with_mode(ModeModel::Goto),
    }
}

/// Whether pasting `c` into `b` gives a text whose length fits in a `usize`.
pub open spec fn fits(b: BufferModel, c: Seq<char>) -> bool {
    b.text.len() + c.len() <= usize::MAX
}

/// A non-digit key other than `u` and `U`, with an active buffer. Movement keys,
/// `d` and `c` run `times` times; `d` and `c` leave in the clipboard all that they
/// removed, `y` the selected text.
pub open spec fn interpret(s: SessionModel, k: Key) -> SessionModel {
    let b = s.buffer();
    let n = times(s);
    if k == Key::Esc {
        s
    } else if k == Key::Char(' ') {
        s.with_buffer(b.collapsed())
    } else if k == Key::Ctrl('p') {
        s.with_mode(ModeModel::Find)
    } else if k == Key::Char('g') {
        match s.prefix {
            Some(p) => s.with_buffer(b.at_line(if p > 0 { (p - 1) as nat } else { 0 })),
            None => s.with_mode(ModeModel::Goto),
        }
    } else if motion_of(k) is Some {
        let (m, extend) = motion_of(k).unwrap();
        s.with_buffer(b.moved(m, n, extend))
    } else if k == Key::Char('d') {
        let (nb, removed) = b.deleted(n);
        SessionModel { clipboard: removed, ..s.with_buffer(nb) }
    } else if k == Key::Char('c') {
        let (nb, removed) = b.deleted(n);
        SessionModel { clipboard: removed, ..s.with_buffer(nb) }.with_mode(ModeModel::Insert)
    } else if k == Key::Char('y') {
        SessionModel { clipboard: b.selected(), ..s }
    } else if k == Key::Char('p') {
        if fits(b, s.clipboard) {
            s.with_buffer(b.pasted(s.clipboard))
        } else {
            s
        }
    } else if k == Key::Char('P') {
        if fits(b, s.clipboard) {
            s.with_buffer(b.paste_extended(s.clipboard))
        } else {
            s
        }
    } else if k == Key::Char('x') {
        s.with_buffer(b.line_selected())
    } else if k == Key::Char('X') {
        s.with_buffer(b.line_extended())
    } else if k == Key::Char('%') {
        s.with_buffer(b.all_selected())
    } else if k == Key::Char('\'') || k == Key::Alt(';') {
        s.with_buffer(b.reversed())
    } else {
        run_action(s, lookup(s.keys, k))
    }
}

/// A non-digit key with an active buffer: undo, redo, or the command table.
pub open spec fn interpret_with_undo(s: SessionModel, k: Key) -> SessionModel {
    if k == Key::Char('u') {
        s.with_buffer(s.buffer().undone(times(s)))
    } else if k == Key::Char('U') {
        s.with_buffer(s.buffer().redone(times(s)))
    } else {
        interpret(s, k)
    }
}

/// The session after Normal mode handles `k`. Without an active buffer only `:`
/// (to Command mode) and Ctrl-p (to Find mode) do anything. A digit adds to the
/// repeat count. Any other key runs once between two undo boundaries, and the
/// repeat count is cleared.
pub open spec fn normal_handle(s: SessionModel, k: Key) -> SessionModel {
    if !s.has_buffer() {
        if k == Key::Char(':') {
            s.with_mode(ModeModel::Command(Seq::empty()))
        } else if k == Key::Ctrl('p') {
            s.with_mode(ModeModel::Find)
        } else {
            s
        }
    } else if digit_of(k) is Some {
        SessionModel { prefix: Some(accumulate(s.prefix, digit_of(k).unwrap())), ..s }
    } else {
        let s1 = s.with_buffer(s.buffer().committed());
        let s2 = interpret_with_undo(s1, k);
        let s3 = SessionModel { prefix: None, ..s2 };
        s3.with_buffer(s3.buffer().committed())
    }
}

proof fn lemma_buffers_update(v: Seq<Buffer>, i: int, b: Buffer)
    requires
        0 <= i < v.len(),
    ensures
        v.update(i, b).map_values(|x: Buffer| x@) == v.map_values(|x: Buffer| x@).update(i, b@),
{
    assert(v.update(i, b).map_values(|x: Buffer| x@) =~= v.map_values(|x: Buffer| x@).update(i, b@));
}

proof fn lemma_wf_update(s: SessionModel, b: BufferModel)
    requires
        s.wf(),
        s.has_buffer(),
        b.wf(),
    ensures
        s.with_buffer(b).wf(),
{
    assert forall|j: int| 0 <= j < s.with_buffer(b).buffers.len() implies (
    #[trigger] s.with_buffer(b).buffers[j]).wf() by {
        if j != s.cur.unwrap() as int {
            assert(s.with_buffer(b).buffers[j] == s.buffers[j]);
        }
    }
}

impl Normal {
    pub open spec fn default_key_mappings_spec() -> Seq<(Key, Action)> {
        seq![(Key::Char('i'), Action::InsertMode), (Key::Char(':'), Action::CommandMode)]
    }

    pub fn name(&self) -> (r: &'static str)
        ensures
            r@ == "normal"@,
    {
        "normal"
    }

    /// The actions that Normal mode's key table can bind.
    pub fn actions(&self) -> (r: Vec<Action>)
        ensures
            r@ == seq![Action::InsertMode, Action::CommandMode, Action::FindMode, Action::GotoMode],
    {
        let r = vec![Action::InsertMode, Action::CommandMode, Action::FindMode, Action::GotoMode];
        proof {
            assert(r@ =~= seq![Action::InsertMode, Action::CommandMode, Action::FindMode, Action::GotoMode]);
        }
        r
    }

    /// Normal mode's default key table: `i` enters Insert mode and `:` Command mode.
    pub fn key_mappings(&self) -> (r: KeyMappings)
        ensures
            r@ == Self::default_key_mappings_spec(),
    {
        let r = KeyMappings {
            entries: vec![(Key::Char('i'), Action::InsertMode), (Key::Char(':'), Action::CommandMode)],
        };
        proof {
            assert(r@ =~= Self::default_key_mappings_spec());
        }
        r
    }
}

impl Normal {
    /// Handles one key. Without an active buffer only `:` (to Command mode) and
    /// Ctrl-p (to Find mode) do anything. A digit adds to the repeat count. Any other
    /// key is interpreted once, between two undo boundaries, and clears the repeat
    /// count whatever it did.
    pub fn handle(&self, state: &mut State, key: Key)
        requires
            old(state)@.wf(),
        ensures
            final(state)@ == normal_handle(old(state)@, key),
            final(state)@.wf(),
    {
        if state.cur.is_none() {
            if key == Key::Char(':') {
                state.set_mode(Mode::command());
            } else if key == Key::Ctrl('p') {
                state.set_mode(Mode::Find);
            }
            return;
        }
        match digit(key) {
            Some(d) => {
                let x: usize = match state.num_prefix {
                    Some(n) => n,
                    None => 0,
                };
                let v: usize = if x <= (usize::MAX - d) / 10 {
                    proof {
                        assert(x * 10 + d <= usize::MAX) by (nonlinear_arith)
                            requires
                                x <= (usize::MAX - d) / 10,
                                d <= 9,
                        ;
                    }
                    x * 10 + d
                } else {
                    proof {
                        assert(x * 10 + d > usize::MAX) by (nonlinear_arith)
                            requires
                                x > (usize::MAX - d) / 10,
                                d <= 9,
                        ;
                    }
                    usize::MAX
                };
                state.num_prefix = Some(v);
            },
            None => {
                let i = state.cur.unwrap();
                let ghost s0 = state@;
                let ghost v0 = state.buffers@;
                proof {
                    assert(s0.buffers[i as int] == state.buffers@[i as int]@);
                }
                state.buffers[i].maybe_commit_undo_point();
                proof {
                    lemma_buffers_update(v0, i as int, state.buffers@[i as int]);
                    lemma_wf_update(s0, state.buffers@[i as int]@);
                }
                self.handle_not_digit(state, key);
                state.num_prefix = None;
                let ghost s3 = state@;
                let ghost v3 = state.buffers@;
                proof {
                    assert(s3.buffers[i as int] == state.buffers@[i as int]@);
                }
                state.buffers[i].maybe_commit_undo_point();
                proof {
                    lemma_buffers_update(v3, i as int, state.buffers@[i as int]);
                    lemma_wf_update(s3, state.buffers@[i as int]@);
                }
            },
        }
    }
}
impl Normal {
    /// Handles a non-digit key with an active buffer: `u` undoes and `U` redoes as
    /// many steps as the repeat count says; other keys go to the command table.
    pub fn handle_not_digit(&self, state: &mut State, key: Key) -> (r: bool)
        requires
            old(state)@.wf(),
            old(state)@.has_buffer(),
        ensures
            final(state)@ == interpret_with_undo(old(state)@, key),
            final(state)@.wf(),
            r,
    {
        let i = state.cur.unwrap();
        let times: usize = match state.num_prefix {
            Some(n) => n,
            None => 1,
        };
        let ghost s0 = state@;
        let ghost v0 = state.buffers@;
        proof {
            assert(s0.buffers[i as int] == state.buffers@[i as int]@);
        }
        if key == Key::Char('u') {
            state.buffers[i].undo(times);
        } else if key == Key::Char('U') {
            state.buffers[i].redo(times);
        } else {
            return self.handle_not_digit_not_undo(state, key);
        }
        proof {
            lemma_buffers_update(v0, i as int, state.buffers@[i as int]);
            lemma_wf_update(s0, state.buffers@[i as int]@);
        }
        true
    }

    /// Runs the command of a non-digit key other than `u` and `U` with an active
    /// buffer; a key that the table does not know goes to the key-to-action table,
    /// and one that this does not know either does nothing.
    pub fn handle_not_digit_not_undo(&self, state: &mut State, key: Key) -> (r: bool)
        requires
            old(state)@.wf(),
            old(state)@.has_buffer(),
        ensures
            final(state)@ == interpret(old(state)@, key),
            final(state)@.wf(),
            r,
    {
        let i = state.cur.unwrap();
        let times: usize = match state.num_prefix {
            Some(n) => n,
            None => 1,
        };
        let ghost s0 = state@;
        let ghost v0 = state.buffers@;
        proof {
            assert(s0.buffers[i as int] == state.buffers@[i as int]@);
        }
        if key == Key::Esc {
            return true;
        } else if key == Key::Char(' ') {
            state.buffers[i].collapse();
            proof {
                lemma_buffers_update(v0, i as int, state.buffers@[i as int]);
                lemma_wf_update(s0, state.buffers@[i as int]@);
            }
        } else if key == Key::Ctrl('p') {
            state.set_mode(Mode::Find);
            return true;
        } else if key == Key::Char('g') {
            match state.num_prefix {
                Some(p) => {
                    let k: usize = if p > 0 { p - 1 } else { 0 };
                    state.buffers[i].goto_line(k);
                    proof {
                        lemma_buffers_update(v0, i as int, state.buffers@[i as int]);
                        lemma_wf_update(s0, state.buffers@[i as int]@);
                    }
                },
                None => {
                    state.set_mode(Mode::Goto);
                    return true;
                },
            }
        } else if let Some((m, extend)) = motion_key(key) {
            state.buffers[i].motion(m, times, extend);
            proof {
                lemma_buffers_update(v0, i as int, state.buffers@[i as int]);
                lemma_wf_update(s0, state.buffers@[i as int]@);
            }
        } else if key == Key::Char('d') || key == Key::Char('c') {
            let removed = state.buffers[i].delete(times);
            proof {
                lemma_buffers_update(v0, i as int, state.buffers@[i as int]);
                lemma_wf_update(s0, state.buffers@[i as int]@);
            }
            state.yanked = removed;
            if key == Key::Char('c') {
                state.set_mode(Mode::Insert);
            }
        } else if key == Key::Char('y') {
            state.yanked = state.buffers[i].yank();
            return true;
        } else if key == Key::Char('p') || key == Key::Char('P') {
            if state.buffers[i].text.len() > usize::MAX - state.yanked.len() {
                return true;
            }
            if key == Key::Char('p') {
                state.buffers[i].paste(&state.yanked);
                proof {
                    lemma_buffers_update(v0, i as int, state.buffers@[i as int]);
                    lemma_wf_update(s0, state.buffers@[i as int]@);
                }
            } else {
                state.buffers[i].paste_extend(&state.yanked);
                proof {
                    lemma_buffers_update(v0, i as int, state.buffers@[i as int]);
                    lemma_wf_update(s0, state.buffers@[i as int]@);
                }
            }
        } else if key == Key::Char('x') {
            state.buffers[i].move_line();
            proof {
                lemma_buffers_update(v0, i as int, state.buffers@[i as int]);
                lemma_wf_update(s0, state.buffers@[i as int]@);
            }
        } else if key == Key::Char('X') {
            state.buffers[i].extend_line();
            proof {
                lemma_buffers_update(v0, i as int, state.buffers@[i as int]);
                lemma_wf_update(s0, state.buffers@[i as int]@);
            }
        } else if key == Key::Char('%') {
            state.buffers[i].select_all();
            proof {
                lemma_buffers_update(v0, i as int, state.buffers@[i as int]);
                lemma_wf_update(s0, state.buffers@[i as int]@);
            }
        } else if key == Key::Char('\'') || key == Key::Alt(';') {
            state.buffers[i].reverse_selections();
            proof {
                lemma_buffers_update(v0, i as int, state.buffers@[i as int]);
                lemma_wf_update(s0, state.buffers@[i as int]@);
            }
        } else {
            match state.key_mappings.action_by_key(key) {
                Action::NotFound => {},
                Action::InsertMode => state.set_mode(Mode::Insert),
                Action::CommandMode => state.set_mode(Mode::command()),
                Action::FindMode => state.set_mode(Mode::Find),
                Action::GotoMode => state.set_mode(Mode::Goto),
            }
            return true;
        }
        true
    }
}
} // verus!
