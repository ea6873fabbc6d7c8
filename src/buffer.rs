//! A text buffer with one anchor-to-head selection and an undo history.
use vstd::prelude::*;
use crate::text::{Motion, repeat, repeat_from, line_start, line_end, lemma_line_start_bound, lemma_line_end_bound};

verus! {

/// A saved text with its selection.
pub ghost struct SnapshotModel {
    pub text: Seq<char>,
    pub anchor: nat,
    pub head: nat,
}

/// What a buffer holds: its text, its selection, and its undo history.
pub ghost struct BufferModel {
    pub text: Seq<char>,
    pub anchor: nat,
    pub head: nat,
    /// Older states, the most recent last.
    pub undo: Seq<SnapshotModel>,
    /// States that undo left, the most recent last.
    pub redo: Seq<SnapshotModel>,
    /// The state at the last undo boundary.
    pub base: SnapshotModel,
    /// Whether the text changed since the last undo boundary.
    pub dirty: bool,
}

pub struct Snapshot {
    pub text: Vec<char>,
    pub anchor: usize,
    pub head: usize,
}

impl View for Snapshot {
    type V = SnapshotModel;

    open spec fn view(&self) -> SnapshotModel {
        SnapshotModel { text: self.text@, anchor: self.anchor as nat, head: self.head as nat }
    }
}

pub struct Buffer {
    pub text: Vec<char>,
    pub anchor: usize,
    pub head: usize,
    pub undo: Vec<Snapshot>,
    pub redo: Vec<Snapshot>,
    pub base: Snapshot,
    pub dirty: bool,
}

impl View for Buffer {
    type V = BufferModel;

    open spec fn view(&self) -> BufferModel {
        BufferModel {
            text: self.text@,
            anchor: self.anchor as nat,
            head: self.head as nat,
            undo: self.undo@.map_values(|s: Snapshot| s@),
            redo: self.redo@.map_values(|s: Snapshot| s@),
            base: self.base@,
            dirty: self.dirty,
        }
    }
}

pub open spec fn snapshot_wf(s: SnapshotModel) -> bool {
    s.anchor <= s.text.len() && s.head <= s.text.len()
}

pub open spec fn all_wf(s: Seq<SnapshotModel>) -> bool {
    forall|i: int| 0 <= i < s.len() ==> snapshot_wf(#[trigger] s[i])
}

impl BufferModel {
    /// The selection lies in the text, and so do those of the saved states.
    pub open spec fn wf(self) -> bool {
        &&& self.anchor <= self.text.len()
        &&& self.head <= self.text.len()
        &&& snapshot_wf(self.base)
        &&& all_wf(self.undo)
        &&& all_wf(self.redo)
    }

    pub open spec fn current(self) -> SnapshotModel {
        SnapshotModel { text: self.text, anchor: self.anchor, head: self.head }
    }

    /// The first selected position.
    pub open spec fn sel_lo(self) -> nat {
        if self.anchor <= self.head { self.anchor } else { self.head }
    }

    /// One past the last selected position: both ends are inclusive.
    pub open spec fn sel_end(self) -> nat {
        let hi = if self.anchor <= self.head { self.head } else { self.anchor };
        if hi + 1 <= self.text.len() { hi + 1 } else { self.text.len() }
    }

    /// The selected text.
    pub open spec fn selected(self) -> Seq<char> {
        self.text.subrange(self.sel_lo() as int, self.sel_end() as int)
    }

    pub open spec fn with_selection(self, anchor: nat, head: nat) -> BufferModel {
        BufferModel { anchor, head, ..self }
    }

    /// `n` steps of `m` from the head: a move collapses the selection onto the new
    /// position, an extension keeps the anchor.
    pub open spec fn moved(self, m: Motion, n: nat, extend: bool) -> BufferModel {
        let h = repeat(self.text, m, self.head, n);
        if extend { self.with_selection(self.anchor, h) } else { self.with_selection(h, h) }
    }

    pub open spec fn collapsed(self) -> BufferModel {
        self.with_selection(self.head, self.head)
    }

    pub open spec fn all_selected(self) -> BufferModel {
        self.with_selection(0, self.text.len())
    }

    pub open spec fn reversed(self) -> BufferModel {
        self.with_selection(self.head, self.anchor)
    }

    /// The whole line that holds the head.
    pub open spec fn line_selected(self) -> BufferModel {
        self.with_selection(line_start(self.text, self.head), line_end(self.text, self.head))
    }

    /// The head goes to the end of its line, or of the next line when it is there already.
    pub open spec fn line_extended(self) -> BufferModel {
        let p = if self.head < self.text.len() { self.head + 1 } else { self.head };
        self.with_selection(self.anchor, line_end(self.text, p))
    }

    /// A single-point selection at the start of line `k` (counted from 0), or of the
    /// last line.
    pub open spec fn at_line(self, k: nat) -> BufferModel {
        let p = repeat(self.text, Motion::NextLine, 0, k);
        self.with_selection(p, p)
    }

    /// The selected text removed, and the selection collapsed where it started.
    pub open spec fn deleted_once(self) -> BufferModel {
        let lo = self.sel_lo() as int;
        let end = self.sel_end() as int;
        BufferModel {
            text: self.text.subrange(0, lo) + self.text.subrange(end, self.text.len() as int),
            anchor: lo as nat,
            head: lo as nat,
            dirty: self.dirty || lo < end,
            ..self
        }
    }

    /// `n` deletions in a row, and all that they removed, in order.
    pub open spec fn deleted(self, n: nat) -> (BufferModel, Seq<char>)
        decreases n,
    {
        if n == 0 {
            (self, Seq::empty())
        } else {
            let rest = self.deleted_once().deleted((n - 1) as nat);
            (rest.0, self.selected() + rest.1)
        }
    }

    /// `c` inserted after the selection, which collapses onto its last character.
    pub open spec fn pasted(self, c: Seq<char>) -> BufferModel {
        let e = self.sel_end() as int;
        let text = self.text.subrange(0, e) + c + self.text.subrange(e, self.text.len() as int);
        if c.len() == 0 {
            self
        } else {
            BufferModel {
                text,
                anchor: (e + c.len() - 1) as nat,
                head: (e + c.len() - 1) as nat,
                dirty: true,
                ..self
            }
        }
    }

    /// `c` inserted after the selection, which grows to its last character.
    pub open spec fn paste_extended(self, c: Seq<char>) -> BufferModel {
        let e = self.sel_end() as int;
        let text = self.text.subrange(0, e) + c + self.text.subrange(e, self.text.len() as int);
        if c.len() == 0 {
            self
        } else {
            BufferModel {
                text,
                anchor: self.sel_lo(),
                head: (e + c.len() - 1) as nat,
                dirty: true,
                ..self
            }
        }
    }

    /// An undo boundary: the edits since the last one become one undo step.
    pub open spec fn committed(self) -> BufferModel {
        if self.dirty {
            BufferModel {
                undo: self.undo.push(self.base),
                redo: Seq::empty(),
                base: self.current(),
                dirty: false,
                ..self
            }
        } else {
            BufferModel { base: self.current(), ..self }
        }
    }

    pub open spec fn undone_once(self) -> BufferModel {
        if self.undo.len() == 0 {
            self
        } else {
            let prev = self.undo.last();
            BufferModel {
                text: prev.text,
                anchor: prev.anchor,
                head: prev.head,
                undo: self.undo.drop_last(),
                redo: self.redo.push(self.current()),
                base: prev,
                dirty: false,
            }
        }
    }

    pub open spec fn redone_once(self) -> BufferModel {
        if self.redo.len() == 0 {
            self
        } else {
            let next = self.redo.last();
            BufferModel {
                text: next.text,
                anchor: next.anchor,
                head: next.head,
                undo: self.undo.push(self.current()),
                redo: self.redo.drop_last(),
                base: next,
                dirty: false,
            }
        }
    }

    pub open spec fn undone(self, n: nat) -> BufferModel
        decreases n,
    {
        if n == 0 {
            self
        } else {
            self.undone_once().undone((n - 1) as nat)
        }
    }

    pub open spec fn redone(self, n: nat) -> BufferModel
        decreases n,
    {
        if n == 0 {
            self
        } else {
            self.redone_once().redone((n - 1) as nat)
        }
    }
}

/// A fresh buffer holding `t`, with the selection on its first position.
pub open spec fn fresh(t: Seq<char>) -> BufferModel {
    let s = SnapshotModel { text: t, anchor: 0, head: 0 };
    BufferModel { text: t, anchor: 0, head: 0, undo: Seq::empty(), redo: Seq::empty(), base: s, dirty: false }
}

fn slice_of(v: &Vec<char>, a: usize, b: usize) -> (r: Vec<char>)
    requires
        a <= b <= v@.len(),
    ensures
        r@ == v@.subrange(a as int, b as int),
{
    let mut r: Vec<char> = Vec::new();
    let mut i: usize = a;
    while i < b
        invariant
            a <= i <= b <= v@.len(),
            r@ == v@.subrange(a as int, i as int),
        decreases b - i,
    {
        r.push(v[i]);
        i = i + 1;
        proof {
            assert(r@ =~= v@.subrange(a as int, i as int));
        }
    }
    r
}

/// A copy of `v`.
pub fn copy_chars(v: &Vec<char>) -> (r: Vec<char>)
    ensures
        r@ == v@,
{
    let r = slice_of(v, 0, v.len());
    proof {
        assert(r@ =~= v@);
    }
    r
}

impl Snapshot {
    pub fn copy(&self) -> (r: Snapshot)
        ensures
            r@ == self@,
    {
        Snapshot { text: copy_chars(&self.text), anchor: self.anchor, head: self.head }
    }
}

proof fn lemma_push_view(v: Seq<Snapshot>, s: Snapshot)
    ensures
        v.push(s).map_values(|x: Snapshot| x@) == v.map_values(|x: Snapshot| x@).push(s@),
{
    assert(v.push(s).map_values(|x: Snapshot| x@) =~= v.map_values(|x: Snapshot| x@).push(s@));
}

proof fn lemma_pop_view(v: Seq<Snapshot>)
    requires
        v.len() > 0,
    ensures
        v.drop_last().map_values(|x: Snapshot| x@) == v.map_values(|x: Snapshot| x@).drop_last(),
{
    assert(v.drop_last().map_values(|x: Snapshot| x@) =~= v.map_values(|x: Snapshot| x@).drop_last());
}

impl Buffer {
    pub fn new(text: Vec<char>) -> (r: Buffer)
        ensures
            r@ == fresh(text@),
            r@.wf(),
    {
        let base = Snapshot { text: copy_chars(&text), anchor: 0, head: 0 };
        let r = Buffer { text, anchor: 0, head: 0, undo: Vec::new(), redo: Vec::new(), base, dirty: false };
        proof {
            assert(r@.undo =~= Seq::<SnapshotModel>::empty());
            assert(r@.redo =~= Seq::<SnapshotModel>::empty());
        }
        r
    }

    /// The text, the selection and the undo boundary state of the buffer now.
    pub fn snapshot(&self) -> (r: Snapshot)
        ensures
            r@ == self@.current(),
    {
        Snapshot { text: copy_chars(&self.text), anchor: self.anchor, head: self.head }
    }

    /// Moves or extends the selection by `n` steps of `m`.
    pub fn motion(&mut self, m: Motion, n: usize, extend: bool)
        requires
            old(self)@.wf(),
        ensures
            final(self)@ == old(self)@.moved(m, n as nat, extend),
            final(self)@.wf(),
    {
        let h = repeat_from(&self.text, m, self.head, n);
        if !extend {
            self.anchor = h;
        }
        self.head = h;
    }

    /// Collapses the selection onto its head.
    pub fn collapse(&mut self)
        requires
            old(self)@.wf(),
        ensures
            final(self)@ == old(self)@.collapsed(),
            final(self)@.wf(),
    {
        self.anchor = self.head;
    }

    pub fn select_all(&mut self)
        requires
            old(self)@.wf(),
        ensures
            final(self)@ == old(self)@.all_selected(),
            final(self)@.wf(),
    {
        self.anchor = 0;
        self.head = self.text.len();
    }

    /// Swaps anchor and head.
    pub fn reverse_selections(&mut self)
        requires
            old(self)@.wf(),
        ensures
            final(self)@ == old(self)@.reversed(),
            final(self)@.wf(),
    {
        let a = self.anchor;
        self.anchor = self.head;
        self.head = a;
    }
}

proof fn lemma_all_wf_push(s: Seq<SnapshotModel>, x: SnapshotModel)
    requires
        all_wf(s),
        snapshot_wf(x),
    ensures
        all_wf(s.push(x)),
        all_wf(Seq::<SnapshotModel>::empty()),
{
    assert forall|i: int| 0 <= i < s.push(x).len() implies snapshot_wf(#[trigger] s.push(x)[i]) by {
        if i < s.len() {
            assert(s.push(x)[i] == s[i]);
        }
    }
}

proof fn lemma_all_wf_pop(s: Seq<SnapshotModel>)
    requires
        all_wf(s),
        s.len() > 0,
    ensures
        all_wf(s.drop_last()),
        snapshot_wf(s.last()),
{
    assert forall|i: int| 0 <= i < s.drop_last().len() implies snapshot_wf(#[trigger] s.drop_last()[i]) by {
        assert(s.drop_last()[i] == s[i]);
    }
}

impl BufferModel {
    /// Every edit keeps the selections inside their texts.
    pub proof fn lemma_edits_wf(self, c: Seq<char>)
        requires
            self.wf(),
        ensures
            self.deleted_once().wf(),
            self.pasted(c).wf(),
            self.paste_extended(c).wf(),
            self.committed().wf(),
            self.undone_once().wf(),
            self.redone_once().wf(),
    {
        if self.dirty {
            lemma_all_wf_push(self.undo, self.base);
        }
        if self.undo.len() > 0 {
            lemma_all_wf_pop(self.undo);
            lemma_all_wf_push(self.redo, self.current());
        }
        if self.redo.len() > 0 {
            lemma_all_wf_pop(self.redo);
            lemma_all_wf_push(self.undo, self.current());
        }
    }

    /// A deletion that removes nothing leaves the buffer as it was.
    pub proof fn lemma_delete_nothing(self)
        requires
            self.wf(),
            self.sel_lo() == self.sel_end(),
        ensures
            self.deleted_once() == self,
            self.selected() == Seq::<char>::empty(),
    {
        assert(self.text.subrange(0, self.sel_lo() as int) + self.text.subrange(
            self.sel_end() as int,
            self.text.len() as int,
        ) =~= self.text);
        assert(self.selected() =~= Seq::<char>::empty());
    }

    pub proof fn lemma_deleted_fixed(self, n: nat)
        requires
            self.wf(),
            self.sel_lo() == self.sel_end(),
        ensures
            self.deleted(n) == (self, Seq::<char>::empty()),
        decreases n,
    {
        self.lemma_delete_nothing();
        if n > 0 {
            self.lemma_deleted_fixed((n - 1) as nat);
            assert(Seq::<char>::empty() + Seq::<char>::empty() =~= Seq::<char>::empty());
        }
    }

    pub proof fn lemma_undone_fixed(self, n: nat)
        requires
            self.undo.len() == 0,
        ensures
            self.undone(n) == self,
        decreases n,
    {
        if n > 0 {
            self.lemma_undone_fixed((n - 1) as nat);
        }
    }

    pub proof fn lemma_redone_fixed(self, n: nat)
        requires
            self.redo.len() == 0,
        ensures
            self.redone(n) == self,
        decreases n,
    {
        if n > 0 {
            self.lemma_redone_fixed((n - 1) as nat);
        }
    }
}

impl Buffer {
    /// Selects the line that holds the head.
    pub fn move_line(&mut self)
        requires
            old(self)@.wf(),
        ensures
            final(self)@ == old(self)@.line_selected(),
            final(self)@.wf(),
    {
        let h = self.head;
        let s = crate::text::line_start_of(&self.text, h);
        let e = crate::text::line_end_of(&self.text, h);
        proof {
            lemma_line_start_bound(self.text@, h as nat);
            lemma_line_end_bound(self.text@, h as nat);
        }
        self.anchor = s;
        self.head = e;
    }

    /// Extends the selection to the end of the line, or of the next line.
    pub fn extend_line(&mut self)
        requires
            old(self)@.wf(),
        ensures
            final(self)@ == old(self)@.line_extended(),
            final(self)@.wf(),
    {
        let p = if self.head < self.text.len() { self.head + 1 } else { self.head };
        let e = crate::text::line_end_of(&self.text, p);
        proof {
            lemma_line_end_bound(self.text@, p as nat);
        }
        self.head = e;
    }

    /// Puts a single-point selection at the start of line `k` (from 0), or of the last line.
    pub fn goto_line(&mut self, k: usize)
        requires
            old(self)@.wf(),
        ensures
            final(self)@ == old(self)@.at_line(k as nat),
            final(self)@.wf(),
    {
        let p = repeat_from(&self.text, Motion::NextLine, 0, k);
        self.anchor = p;
        self.head = p;
    }

    fn sel_bounds(&self) -> (r: (usize, usize))
        requires
            self@.wf(),
        ensures
            r.0 == self@.sel_lo(),
            r.1 == self@.sel_end(),
            r.0 <= r.1 <= self@.text.len(),
    {
        let lo = if self.anchor <= self.head { self.anchor } else { self.head };
        let hi = if self.anchor <= self.head { self.head } else { self.anchor };
        let end = if hi < self.text.len() { hi + 1 } else { self.text.len() };
        (lo, end)
    }

    /// A copy of the selected text.
    pub fn yank(&self) -> (r: Vec<char>)
        requires
            self@.wf(),
        ensures
            r@ == self@.selected(),
    {
        let (lo, end) = self.sel_bounds();
        slice_of(&self.text, lo, end)
    }

    fn delete_once(&mut self) -> (r: Vec<char>)
        requires
            old(self)@.wf(),
        ensures
            r@ == old(self)@.selected(),
            final(self)@ == old(self)@.deleted_once(),
            final(self)@.wf(),
    {
        proof {
            old(self)@.lemma_edits_wf(Seq::empty());
        }
        let (lo, end) = self.sel_bounds();
        let removed = slice_of(&self.text, lo, end);
        let mut text = slice_of(&self.text, 0, lo);
        let mut tail = slice_of(&self.text, end, self.text.len());
        text.append(&mut tail);
        self.text = text;
        self.anchor = lo;
        self.head = lo;
        self.dirty = self.dirty || lo < end;
        removed
    }

    /// Deletes the selection `n` times in a row and returns all that was removed.
    pub fn delete(&mut self, n: usize) -> (r: Vec<char>)
        requires
            old(self)@.wf(),
        ensures
            final(self)@ == old(self)@.deleted(n as nat).0,
            r@ == old(self)@.deleted(n as nat).1,
            final(self)@.wf(),
    {
        let mut removed: Vec<char> = Vec::new();
        let mut i: usize = 0;
        proof {
            assert(removed@ + old(self)@.deleted(n as nat).1 =~= old(self)@.deleted(n as nat).1);
        }
        while i < n
            invariant
                i <= n,
                self@.wf(),
                self@.deleted((n - i) as nat).0 == old(self)@.deleted(n as nat).0,
                removed@ + self@.deleted((n - i) as nat).1 == old(self)@.deleted(n as nat).1,
            decreases n - i,
        {
            let ghost before = self@;
            let (lo, end) = self.sel_bounds();
            if lo == end {
                proof {
                    before.lemma_deleted_fixed((n - i) as nat);
                    assert(removed@ + Seq::<char>::empty() =~= removed@);
                }
                return removed;
            }
            let mut r = self.delete_once();
            proof {
                let rest = before.deleted_once().deleted((n - i - 1) as nat);
                assert(removed@ + r@ + rest.1 =~= removed@ + (r@ + rest.1));
            }
            removed.append(&mut r);
            i = i + 1;
        }
        proof {
            assert(removed@ + Seq::<char>::empty() =~= removed@);
        }
        removed
    }

    fn insert_after(&self, c: &Vec<char>) -> (r: (Vec<char>, usize))
        requires
            self@.wf(),
        ensures
            r.0@ == self@.text.subrange(0, self@.sel_end() as int) + c@ + self@.text.subrange(
                self@.sel_end() as int,
                self@.text.len() as int,
            ),
            r.1 == self@.sel_end(),
    {
        let (_lo, e) = self.sel_bounds();
        let mut text = slice_of(&self.text, 0, e);
        let mut mid = copy_chars(c);
        let mut tail = slice_of(&self.text, e, self.text.len());
        text.append(&mut mid);
        text.append(&mut tail);
        (text, e)
    }

    /// Inserts `c` after the selection, which collapses onto its last character.
    pub fn paste(&mut self, c: &Vec<char>)
        requires
            old(self)@.wf(),
            old(self)@.text.len() + c@.len() <= usize::MAX,
        ensures
            final(self)@ == old(self)@.pasted(c@),
            final(self)@.wf(),
    {
        proof {
            old(self)@.lemma_edits_wf(c@);
        }
        if c.len() == 0 {
            return;
        }
        let (text, e) = self.insert_after(c);
        self.text = text;
        self.anchor = e + c.len() - 1;
        self.head = e + c.len() - 1;
        self.dirty = true;
    }

    /// Inserts `c` after the selection, which grows to its last character.
    pub fn paste_extend(&mut self, c: &Vec<char>)
        requires
            old(self)@.wf(),
            old(self)@.text.len() + c@.len() <= usize::MAX,
        ensures
            final(self)@ == old(self)@.paste_extended(c@),
            final(self)@.wf(),
    {
        proof {
            old(self)@.lemma_edits_wf(c@);
        }
        if c.len() == 0 {
            return;
        }
        let (lo, _e) = self.sel_bounds();
        let (text, e) = self.insert_after(c);
        self.text = text;
        self.anchor = lo;
        self.head = e + c.len() - 1;
        self.dirty = true;
    }

    /// Commits an undo boundary: the edits since the last one become one undo step.
    pub fn maybe_commit_undo_point(&mut self)
        requires
            old(self)@.wf(),
        ensures
            final(self)@ == old(self)@.committed(),
            final(self)@.wf(),
    {
        proof {
            old(self)@.lemma_edits_wf(Seq::empty());
        }
        let mut base = self.snapshot();
        core::mem::swap(&mut self.base, &mut base);
        if self.dirty {
            proof {
                lemma_push_view(self.undo@, base);
            }
            self.undo.push(base);
            self.redo = Vec::new();
            proof {
                assert(self.redo@.map_values(|x: Snapshot| x@) =~= Seq::<SnapshotModel>::empty());
            }
            self.dirty = false;
        }
    }

    fn undo_once(&mut self)
        requires
            old(self)@.wf(),
        ensures
            final(self)@ == old(self)@.undone_once(),
            final(self)@.wf(),
    {
        proof {
            old(self)@.lemma_edits_wf(Seq::empty());
        }
        if self.undo.len() == 0 {
            return;
        }
        let cur = self.snapshot();
        proof {
            lemma_pop_view(self.undo@);
            lemma_push_view(self.redo@, cur);
        }
        let prev = self.undo.pop().unwrap();
        self.redo.push(cur);
        self.text = copy_chars(&prev.text);
        self.anchor = prev.anchor;
        self.head = prev.head;
        self.base = prev;
        self.dirty = false;
    }

    fn redo_once(&mut self)
        requires
            old(self)@.wf(),
        ensures
            final(self)@ == old(self)@.redone_once(),
            final(self)@.wf(),
    {
        proof {
            old(self)@.lemma_edits_wf(Seq::empty());
        }
        if self.redo.len() == 0 {
            return;
        }
        let cur = self.snapshot();
        proof {
            lemma_pop_view(self.redo@);
            lemma_push_view(self.undo@, cur);
        }
        let next = self.redo.pop().unwrap();
        self.undo.push(cur);
        self.text = copy_chars(&next.text);
        self.anchor = next.anchor;
        self.head = next.head;
        self.base = next;
        self.dirty = false;
    }

    /// Undoes `n` steps, or as many as there are.
    pub fn undo(&mut self, n: usize)
        requires
            old(self)@.wf(),
        ensures
            final(self)@ == old(self)@.undone(n as nat),
            final(self)@.wf(),
    {
        let mut i: usize = 0;
        while i < n
            invariant
                i <= n,
                self@.wf(),
                self@.undone((n - i) as nat) == old(self)@.undone(n as nat),
            decreases n - i,
        {
            if self.undo.len() == 0 {
                proof {
                    self@.lemma_undone_fixed((n - i) as nat);
                }
                return;
            }
            self.undo_once();
            i = i + 1;
        }
    }

    /// Redoes `n` steps, or as many as there are.
    pub fn redo(&mut self, n: usize)
        requires
            old(self)@.wf(),
        ensures
            final(self)@ == old(self)@.redone(n as nat),
            final(self)@.wf(),
    {
        let mut i: usize = 0;
        while i < n
            invariant
                i <= n,
                self@.wf(),
                self@.redone((n - i) as nat) == old(self)@.redone(n as nat),
            decreases n - i,
        {
            if self.redo.len() == 0 {
                proof {
                    self@.lemma_redone_fixed((n - i) as nat);
                }
                return;
            }
            self.redo_once();
            i = i + 1;
        }
    }
}

} // verus!
