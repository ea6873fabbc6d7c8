//! Properties of the session that hold across several keys.
use vstd::prelude::*;
use crate::buffer::BufferModel;
use crate::key::{Key, digit_of};
use crate::mode::ModeModel;
use crate::normal::times;
use crate::state::{SessionModel, run, step};

verus! {

/// The decimal value of the digit keys `ks`, saturating at the largest `usize`.
pub open spec fn decimal(ks: Seq<Key>) -> nat
    decreases ks.len(),
{
    if ks.len() == 0 {
        0
    } else {
        let x = decimal(ks.drop_last());
        let d = digit_of(ks.last()).unwrap();
        if x * 10 + d <= usize::MAX {
            x * 10 + d
        } else {
            usize::MAX as nat
        }
    }
}

pub open spec fn all_digits(ks: Seq<Key>) -> bool {
    forall|i: int| 0 <= i < ks.len() ==> (#[trigger] digit_of(ks[i])) is Some
}

/// Typing digits in Normal mode with an active buffer and no repeat count sets the
/// repeat count to their saturating decimal value, and changes nothing else.
pub proof fn law_digits_accumulate(s: SessionModel, ks: Seq<Key>)
    requires
        s.wf(),
        s.mode == ModeModel::Normal,
        s.has_buffer(),
        s.prefix is None,
        ks.len() > 0,
        all_digits(ks),
    ensures
        run(s, ks) == (SessionModel { prefix: Some(decimal(ks)), ..s }),
    decreases ks.len(),
{
    assert(digit_of(ks[ks.len() - 1]) is Some);
    if ks.len() == 1 {
        assert(ks.drop_last() =~= Seq::<Key>::empty());
        assert(run(s, ks.drop_last()) == s);
    } else {
        assert(all_digits(ks.drop_last())) by {
            assert forall|i: int| 0 <= i < ks.drop_last().len() implies (#[trigger] digit_of(
                ks.drop_last()[i],
            )) is Some by {
                assert(ks.drop_last()[i] == ks[i]);
            }
        }
        law_digits_accumulate(s, ks.drop_last());
    }
}

/// In Normal mode with an active buffer, any key that is not a digit leaves no
/// repeat count behind, whatever it did.
pub proof fn law_count_cleared(s: SessionModel, k: Key)
    requires
        s.wf(),
        s.mode == ModeModel::Normal,
        s.has_buffer(),
        digit_of(k) is None,
    ensures
        step(s, k).prefix is None,
{
}

/// The six pairs of movement keys: the first moves, the second extends.
pub open spec fn motion_pair(lower: Key, upper: Key) -> bool {
    ||| lower == Key::Char('h') && upper == Key::Char('H')
    ||| lower == Key::Char('l') && upper == Key::Char('L')
    ||| lower == Key::Char('j') && upper == Key::Char('J')
    ||| lower == Key::Char('k') && upper == Key::Char('K')
    ||| lower == Key::Char('w') && upper == Key::Char('W')
    ||| lower == Key::Char('b') && upper == Key::Char('B')
}

/// Of a pair of movement keys, the lower-case one leaves a single-point selection
/// and the upper-case one keeps the anchor; both put the head in the same place and
/// leave the text alone.
pub proof fn law_move_extend(s: SessionModel, lower: Key, upper: Key)
    requires
        s.wf(),
        s.mode == ModeModel::Normal,
        s.has_buffer(),
        motion_pair(lower, upper),
    ensures
        step(s, lower).buffer().anchor == step(s, lower).buffer().head,
        step(s, upper).buffer().anchor == s.buffer().anchor,
        step(s, upper).buffer().head == step(s, lower).buffer().head,
        step(s, lower).buffer().text == s.buffer().text,
        step(s, upper).buffer().text == s.buffer().text,
{
}

proof fn lemma_deleted_history(b: BufferModel, n: nat)
    ensures
        b.deleted(n).0.undo == b.undo,
        b.deleted(n).0.redo == b.redo,
        b.deleted(n).0.dirty == (b.dirty || (n > 0 && b.sel_lo() < b.sel_end())
            || b.deleted(n).0.dirty),
        b.dirty ==> b.deleted(n).0.dirty,
        n > 0 && b.sel_lo() < b.sel_end() ==> b.deleted(n).0.dirty,
    decreases n,
{
    if n > 0 {
        lemma_deleted_history(b.deleted_once(), (n - 1) as nat);
    }
}

/// At an undo boundary, `d` with a non-empty selection adds exactly one undo step,
/// whatever the repeat count.
pub proof fn law_delete_one_step(s: SessionModel)
    requires
        s.wf(),
        s.mode == ModeModel::Normal,
        s.has_buffer(),
        !s.buffer().dirty,
        s.buffer().sel_lo() < s.buffer().sel_end(),
        times(s) > 0,
    ensures
        step(s, Key::Char('d')).buffer().undo.len() == s.buffer().undo.len() + 1,
        !step(s, Key::Char('d')).buffer().dirty,
{
    let b1 = s.buffer().committed();
    lemma_deleted_history(b1, times(s));
}

/// At an undo boundary, a key that is neither a digit nor `u` or `U` adds at most
/// one undo step, whatever the repeat count, and leaves the buffer at an undo
/// boundary again.
pub proof fn law_one_key_at_most_one_step(s: SessionModel, k: Key)
    requires
        s.wf(),
        s.mode == ModeModel::Normal,
        s.has_buffer(),
        !s.buffer().dirty,
        digit_of(k) is None,
        k != Key::Char('u'),
        k != Key::Char('U'),
    ensures
        step(s, k).cur == s.cur,
        step(s, k).buffer().undo.len() <= s.buffer().undo.len() + 1,
        step(s, k).buffer().undo.subrange(0, s.buffer().undo.len() as int) == s.buffer().undo,
        !step(s, k).buffer().dirty,
{
    let b1 = s.buffer().committed();
    lemma_deleted_history(b1, times(s));
    let s2 = crate::normal::interpret(s.with_buffer(b1), k);
    assert(s2.buffer().undo == s.buffer().undo);
    assert(s2.buffer().undo.push(s2.buffer().base).subrange(0, s.buffer().undo.len() as int)
        =~= s.buffer().undo);
    assert(s2.buffer().undo.subrange(0, s.buffer().undo.len() as int) =~= s.buffer().undo);
}

/// `3 d` at an undo boundary, with a non-empty selection, is one undo step.
pub proof fn law_counted_delete_one_step(s: SessionModel)
    requires
        s.wf(),
        s.mode == ModeModel::Normal,
        s.has_buffer(),
        s.prefix is None,
        !s.buffer().dirty,
        s.buffer().sel_lo() < s.buffer().sel_end(),
    ensures
        run(s, seq![Key::Char('3'), Key::Char('d')]).buffer().undo.len() == s.buffer().undo.len() + 1,
{
    let ks = seq![Key::Char('3'), Key::Char('d')];
    assert(ks.drop_last() =~= seq![Key::Char('3')]);
    assert(seq![Key::Char('3')].drop_last() =~= Seq::<Key>::empty());
    assert(digit_of(Key::Char('3')) == Some(3nat));
    let s1 = step(s, Key::Char('3'));
    assert(run(s, Seq::empty()) == s);
    assert(run(s, ks.drop_last()) == s1);
    law_delete_one_step(s1);
}

/// The buffer after `d` with no repeat count, at an undo boundary.
proof fn lemma_single_delete(s: SessionModel)
    requires
        s.wf(),
        s.mode == ModeModel::Normal,
        s.has_buffer(),
        s.prefix is None,
        !s.buffer().dirty,
    ensures
        step(s, Key::Char('d')).wf(),
        step(s, Key::Char('d')).mode == ModeModel::Normal,
        step(s, Key::Char('d')).cur == s.cur,
        step(s, Key::Char('d')).prefix is None,
        step(s, Key::Char('d')).buffer().anchor == s.buffer().sel_lo(),
        step(s, Key::Char('d')).buffer().head == s.buffer().sel_lo(),
        step(s, Key::Char('d')).buffer().text.len() == s.buffer().text.len() - (
        s.buffer().sel_end() - s.buffer().sel_lo()),
        !step(s, Key::Char('d')).buffer().dirty,
{
    let b = s.buffer();
    assert(b.wf());
    let b1 = b.committed();
    b.lemma_edits_wf(Seq::empty());
    b1.lemma_edits_wf(Seq::empty());
    let b2 = b1.deleted(1).0;
    assert(b1.deleted_once().deleted(0) == (b1.deleted_once(), Seq::<char>::empty()));
    assert(b2 == b1.deleted_once());
    b2.lemma_edits_wf(Seq::empty());
    let t = step(s, Key::Char('d'));
    assert(t.buffer() == b2.committed());
    assert forall|j: int| 0 <= j < t.buffers.len() implies (#[trigger] t.buffers[j]).wf() by {
        if j != s.cur.unwrap() as int {
            assert(t.buffers[j] == s.buffers[j]);
        }
    }
}

/// Three separate `d` keys, each on a non-empty selection, are three undo steps.
pub proof fn law_three_deletes_three_steps(s: SessionModel)
    requires
        s.wf(),
        s.mode == ModeModel::Normal,
        s.has_buffer(),
        s.prefix is None,
        !s.buffer().dirty,
        s.buffer().sel_end() + 2 <= s.buffer().text.len(),
    ensures
        run(s, seq![Key::Char('d'), Key::Char('d'), Key::Char('d')]).buffer().undo.len()
            == s.buffer().undo.len() + 3,
{
    let d = Key::Char('d');
    assert(seq![d, d, d].drop_last() =~= seq![d, d]);
    assert(seq![d, d].drop_last() =~= seq![d]);
    assert(seq![d].drop_last() =~= Seq::<Key>::empty());
    let s1 = step(s, d);
    let s2 = step(s1, d);
    assert(run(s, Seq::empty()) == s);
    assert(run(s, seq![d]) == s1);
    assert(run(s, seq![d, d]) == s2);
    law_delete_one_step(s);
    lemma_single_delete(s);
    law_delete_one_step(s1);
    lemma_single_delete(s1);
    law_delete_one_step(s2);
}

/// After `y` and then `d`, the clipboard holds what `d` removed, and `p` then
/// pastes exactly that.
pub proof fn law_clipboard_overwrite(s: SessionModel)
    requires
        s.wf(),
        s.mode == ModeModel::Normal,
        s.has_buffer(),
    ensures
        step(step(s, Key::Char('y')), Key::Char('d')).clipboard == step(s, Key::Char('y')).buffer().deleted(1).1,
        step(step(s, Key::Char('y')), Key::Char('d')).clipboard == s.buffer().selected(),
        ({
            let s2 = step(step(s, Key::Char('y')), Key::Char('d'));
            crate::normal::fits(s2.buffer().committed(), s2.clipboard) ==> step(s2, Key::Char('p')).buffer()
                == s2.buffer().committed().pasted(s2.clipboard).committed()
        }),
{
    let s1 = step(s, Key::Char('y'));
    let b1 = s1.buffer().committed();
    assert(b1.deleted_once().deleted(0) == (b1.deleted_once(), Seq::<char>::empty()));
    assert(b1.selected() + Seq::<char>::empty() =~= b1.selected());
    assert(s1.buffer().deleted_once().deleted(0) == (s1.buffer().deleted_once(), Seq::<char>::empty()));
    assert(s1.buffer().selected() + Seq::<char>::empty() =~= s1.buffer().selected());
}

/// Without an active buffer, Normal mode ignores every key but `:`, which enters
/// Command mode with an empty command line, and Ctrl-p, which enters Find mode.
pub proof fn law_no_buffer(s: SessionModel, k: Key)
    requires
        s.mode == ModeModel::Normal,
        !s.has_buffer(),
    ensures
        k != Key::Char(':') && k != Key::Ctrl('p') ==> step(s, k) == s,
        k == Key::Char(':') ==> step(s, k) == s.with_mode(ModeModel::Command(Seq::empty())),
        k == Key::Ctrl('p') ==> step(s, k) == s.with_mode(ModeModel::Find),
{
}

/// Committing an undo boundary twice in a row is the same as committing it once.
pub proof fn law_commit_idempotent(b: BufferModel)
    ensures
        b.committed().committed() == b.committed(),
        b.committed().committed().undo.len() == b.committed().undo.len(),
{
}

} // verus!
