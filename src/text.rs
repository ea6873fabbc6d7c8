//! Positions in a text: lines, words, and the motions of a cursor.
use vstd::prelude::*;

verus! {

/// Characters that separate words.
pub open spec fn is_blank(c: char) -> bool {
    c == ' ' || c == '\t' || c == '\n'
}

fn blank(c: char) -> (r: bool)
    ensures
        r == is_blank(c),
{
    c == ' ' || c == '\t' || c == '\n'
}

/// The first position of the line that holds `p`.
pub open spec fn line_start(t: Seq<char>, p: nat) -> nat
    decreases p,
{
    if p == 0 {
        0
    } else if p <= t.len() && t[p - 1] == '\n' {
        p
    } else {
        line_start(t, (p - 1) as nat)
    }
}

/// The position of the newline that ends the line holding `p`, or the end of the text.
pub open spec fn line_end(t: Seq<char>, p: nat) -> nat
    decreases t.len() - p,
{
    if p >= t.len() {
        t.len()
    } else if t[p as int] == '\n' {
        p
    } else {
        line_end(t, p + 1)
    }
}

/// The end of the run of word characters that starts at `p`.
pub open spec fn skip_word(t: Seq<char>, p: nat) -> nat
    decreases t.len() - p,
{
    if p >= t.len() {
        p
    } else if !is_blank(t[p as int]) {
        skip_word(t, p + 1)
    } else {
        p
    }
}

/// The end of the run of blanks that starts at `p`.
pub open spec fn skip_blank(t: Seq<char>, p: nat) -> nat
    decreases t.len() - p,
{
    if p >= t.len() {
        p
    } else if is_blank(t[p as int]) {
        skip_blank(t, p + 1)
    } else {
        p
    }
}

/// Going back from `q`, the last position that is not a blank (or 0).
pub open spec fn blank_back(t: Seq<char>, q: nat) -> nat
    decreases q,
{
    if q == 0 {
        0
    } else if q < t.len() && is_blank(t[q as int]) {
        blank_back(t, (q - 1) as nat)
    } else {
        q
    }
}

/// The first position of the word that holds `q`.
pub open spec fn word_start(t: Seq<char>, q: nat) -> nat
    decreases q,
{
    if q == 0 {
        0
    } else if q <= t.len() && !is_blank(t[q - 1]) {
        word_start(t, (q - 1) as nat)
    } else {
        q
    }
}

/// The motions a cursor can make, one step at a time.
#[derive(Clone, Copy, Debug, PartialEq, Eq, Structural)]
pub enum Motion {
    Left,
    Right,
    Up,
    Down,
    WordForward,
    WordBackward,
    NextLine,
}

/// One line up, keeping the column where the line above is long enough.
pub open spec fn up_one(t: Seq<char>, p: nat) -> nat {
    let s = line_start(t, p);
    if s == 0 {
        p
    } else {
        let ps = line_start(t, (s - 1) as nat);
        let col = p - s;
        if ps + col < s - 1 {
            (ps + col) as nat
        } else {
            (s - 1) as nat
        }
    }
}

/// One line down, keeping the column where the line below is long enough.
pub open spec fn down_one(t: Seq<char>, p: nat) -> nat {
    let e = line_end(t, p);
    if e >= t.len() {
        p
    } else {
        let ns = e + 1;
        let ne = line_end(t, ns);
        let col = p - line_start(t, p);
        if ns + col < ne {
            (ns + col) as nat
        } else {
            ne
        }
    }
}

/// The start of the next line; on the last line, the start of that line.
pub open spec fn next_line(t: Seq<char>, p: nat) -> nat {
    let e = line_end(t, p);
    if e >= t.len() {
        line_start(t, p)
    } else {
        e + 1
    }
}

/// Where one step of `m` from `p` lands.
pub open spec fn step(t: Seq<char>, m: Motion, p: nat) -> nat {
    match m {
        Motion::Left => if p == 0 { 0 } else { (p - 1) as nat },
        Motion::Right => if p < t.len() { p + 1 } else { p },
        Motion::Up => up_one(t, p),
        Motion::Down => down_one(t, p),
        Motion::WordForward => skip_blank(t, skip_word(t, p)),
        Motion::WordBackward => if p == 0 { 0 } else { word_start(t, blank_back(t, (p - 1) as nat)) },
        Motion::NextLine => next_line(t, p),
    }
}

/// Where `n` steps of `m` from `p` land.
pub open spec fn repeat(t: Seq<char>, m: Motion, p: nat, n: nat) -> nat
    decreases n,
{
    if n == 0 {
        p
    } else {
        repeat(t, m, step(t, m, p), (n - 1) as nat)
    }
}

pub proof fn lemma_line_start_bound(t: Seq<char>, p: nat)
    ensures
        line_start(t, p) <= p,
    decreases p,
{
    if p > 0 {
        lemma_line_start_bound(t, (p - 1) as nat);
    }
}

pub proof fn lemma_line_end_bound(t: Seq<char>, p: nat)
    requires
        p <= t.len(),
    ensures
        p <= line_end(t, p) <= t.len(),
    decreases t.len() - p,
{
    if p < t.len() {
        lemma_line_end_bound(t, p + 1);
    }
}

pub proof fn lemma_word_bounds(t: Seq<char>, p: nat)
    requires
        p <= t.len(),
    ensures
        p <= skip_word(t, p) <= t.len(),
        p <= skip_blank(t, p) <= t.len(),
        blank_back(t, p) <= p,
        word_start(t, p) <= p,
    decreases t.len() - p,
{
    if p < t.len() {
        lemma_word_bounds(t, p + 1);
    }
    lemma_back_bounds(t, p);
}

proof fn lemma_back_bounds(t: Seq<char>, p: nat)
    ensures
        blank_back(t, p) <= p,
        word_start(t, p) <= p,
    decreases p,
{
    if p > 0 {
        lemma_back_bounds(t, (p - 1) as nat);
    }
}

/// A step from a position in the text stays in the text.
pub proof fn lemma_step_bound(t: Seq<char>, m: Motion, p: nat)
    requires
        p <= t.len(),
    ensures
        step(t, m, p) <= t.len(),
{
    lemma_line_start_bound(t, p);
    lemma_line_end_bound(t, p);
    lemma_word_bounds(t, p);
    let s = line_start(t, p);
    if s > 0 {
        lemma_line_start_bound(t, (s - 1) as nat);
    }
    let e = line_end(t, p);
    if e < t.len() {
        lemma_line_end_bound(t, e + 1);
    }
    lemma_word_bounds(t, skip_word(t, p));
    if p > 0 {
        lemma_back_bounds(t, (p - 1) as nat);
        lemma_back_bounds(t, blank_back(t, (p - 1) as nat));
    }
}

/// Once a step stays put, so do all later steps.
pub proof fn lemma_repeat_fixed(t: Seq<char>, m: Motion, p: nat, n: nat)
    requires
        step(t, m, p) == p,
    ensures
        repeat(t, m, p, n) == p,
    decreases n,
{
    if n > 0 {
        lemma_repeat_fixed(t, m, p, (n - 1) as nat);
    }
}

pub(crate) fn line_start_of(t: &Vec<char>, p: usize) -> (r: usize)
    requires
        p <= t@.len(),
    ensures
        r == line_start(t@, p as nat),
{
    let mut i: usize = p;
    while i > 0 && t[i - 1] != '\n'
        invariant
            i <= p <= t@.len(),
            line_start(t@, i as nat) == line_start(t@, p as nat),
        decreases i,
    {
        i = i - 1;
    }
    i
}

pub(crate) fn line_end_of(t: &Vec<char>, p: usize) -> (r: usize)
    requires
        p <= t@.len(),
    ensures
        r == line_end(t@, p as nat),
{
    let mut i: usize = p;
    while i < t.len() && t[i] != '\n'
        invariant
            p <= i <= t@.len(),
            line_end(t@, i as nat) == line_end(t@, p as nat),
        decreases t@.len() - i,
    {
        i = i + 1;
    }
    i
}

fn skip_word_of(t: &Vec<char>, p: usize) -> (r: usize)
    requires
        p <= t@.len(),
    ensures
        r == skip_word(t@, p as nat),
{
    let mut i: usize = p;
    while i < t.len() && !blank(t[i])
        invariant
            p <= i <= t@.len(),
            skip_word(t@, i as nat) == skip_word(t@, p as nat),
        decreases t@.len() - i,
    {
        i = i + 1;
    }
    i
}

fn skip_blank_of(t: &Vec<char>, p: usize) -> (r: usize)
    requires
        p <= t@.len(),
    ensures
        r == skip_blank(t@, p as nat),
{
    let mut i: usize = p;
    while i < t.len() && blank(t[i])
        invariant
            p <= i <= t@.len(),
            skip_blank(t@, i as nat) == skip_blank(t@, p as nat),
        decreases t@.len() - i,
    {
        i = i + 1;
    }
    i
}

fn blank_back_of(t: &Vec<char>, q: usize) -> (r: usize)
    requires
        q < t@.len(),
    ensures
        r == blank_back(t@, q as nat),
{
    let mut i: usize = q;
    while i > 0 && blank(t[i])
        invariant
            i <= q < t@.len(),
            blank_back(t@, i as nat) == blank_back(t@, q as nat),
        decreases i,
    {
        i = i - 1;
    }
    i
}

fn word_start_of(t: &Vec<char>, q: usize) -> (r: usize)
    requires
        q <= t@.len(),
    ensures
        r == word_start(t@, q as nat),
{
    let mut i: usize = q;
    while i > 0 && !blank(t[i - 1])
        invariant
            i <= q <= t@.len(),
            word_start(t@, i as nat) == word_start(t@, q as nat),
        decreases i,
    {
        i = i - 1;
    }
    i
}

/// Where one step of `m` from `p` lands.
pub fn step_from(t: &Vec<char>, m: Motion, p: usize) -> (r: usize)
    requires
        p <= t@.len(),
    ensures
        r == step(t@, m, p as nat),
        r <= t@.len(),
{
    proof {
        lemma_step_bound(t@, m, p as nat);
    }
    match m {
        Motion::Left => if p == 0 { 0 } else { p - 1 },
        Motion::Right => if p < t.len() { p + 1 } else { p },
        Motion::Up => {
            let s = line_start_of(t, p);
            proof {
                lemma_line_start_bound(t@, p as nat);
            }
            if s == 0 {
                p
            } else {
                let ps = line_start_of(t, s - 1);
                proof {
                    lemma_line_start_bound(t@, (s - 1) as nat);
                }
                let col = p - s;
                if ps + col < s - 1 {
                    ps + col
                } else {
                    s - 1
                }
            }
        },
        Motion::Down => {
            let e = line_end_of(t, p);
            proof {
                lemma_line_end_bound(t@, p as nat);
                lemma_line_start_bound(t@, p as nat);
            }
            if e >= t.len() {
                p
            } else {
                let ns = e + 1;
                let ne = line_end_of(t, ns);
                proof {
                    lemma_line_end_bound(t@, ns as nat);
                }
                let col = p - line_start_of(t, p);
                if col < ne - ns {
                    ns + col
                } else {
                    ne
                }
            }
        },
        Motion::WordForward => {
            let w = skip_word_of(t, p);
            proof {
                lemma_word_bounds(t@, p as nat);
            }
            skip_blank_of(t, w)
        },
        Motion::WordBackward => {
            if p == 0 {
                0
            } else {
                let q = blank_back_of(t, p - 1);
                proof {
                    lemma_back_bounds(t@, (p - 1) as nat);
                }
                word_start_of(t, q)
            }
        },
        Motion::NextLine => {
            let e = line_end_of(t, p);
            proof {
                lemma_line_end_bound(t@, p as nat);
            }
            if e >= t.len() {
                line_start_of(t, p)
            } else {
                e + 1
            }
        },
    }
}

/// Where `n` steps of `m` from `p` land; stops early once a step stays put.
pub fn repeat_from(t: &Vec<char>, m: Motion, p: usize, n: usize) -> (r: usize)
    requires
        p <= t@.len(),
    ensures
        r == repeat(t@, m, p as nat, n as nat),
        r <= t@.len(),
{
    let mut cur: usize = p;
    let mut i: usize = 0;
    while i < n
        invariant
            i <= n,
            cur <= t@.len(),
            repeat(t@, m, cur as nat, (n - i) as nat) == repeat(t@, m, p as nat, n as nat),
        decreases n - i,
    {
        let next = step_from(t, m, cur);
        if next == cur {
            proof {
                lemma_repeat_fixed(t@, m, cur as nat, (n - i) as nat);
            }
            return cur;
        }
        cur = next;
        i = i + 1;
    }
    cur
}

} // verus!
