//! Key events.
use vstd::prelude::*;

verus! {

/// One key event.
#[derive(Clone, Copy, Debug, PartialEq, Eq, Structural)]
pub enum Key {
    Char(char),
    Ctrl(char),
    Alt(char),
    Left,
    Right,
    Up,
    Down,
    Esc,
}

/// The value of a decimal digit key.
pub open spec fn digit_of(k: Key) -> Option<nat> {
    match k {
        Key::Char(c) => if '0' <= c && c <= '9' {
            Some((c as u32 - '0' as u32) as nat)
        } else {
            None
        },
        _ => None,
    }
}

/// The value of `k` when it is a decimal digit.
pub fn digit(k: Key) -> (r: Option<usize>)
    ensures
        r matches Some(d) ==> d <= 9,
        r == (match digit_of(k) {
            Some(d) => Some(d as usize),
            None => None,
        }),
{
    match k {
        Key::Char(c) => if '0' <= c && c <= '9' {
            Some((c as u32 - '0' as u32) as usize)
        } else {
            None
        },
        _ => None,
    }
}

} // verus!
