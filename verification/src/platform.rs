//! Small decisions about the platform the player runs on.

use vstd::prelude::*;
use crate::text::chars_of;

verus! {

broadcast use vstd::seq_lib::group_seq_properties;

/// A mouse button.
#[derive(Clone, Copy, Debug, PartialEq, Eq, Structural)]
pub enum MouseButton {
    Left,
    Middle,
    Right,
    Unknown,
}

/// The position of a mouse button among the buttons.
pub open spec fn button_index(b: MouseButton) -> nat {
    match b {
        MouseButton::Left => 0,
        MouseButton::Middle => 1,
        MouseButton::Right => 2,
        MouseButton::Unknown => 3,
    }
}

/// The touch id a mouse button's presses take: counted down from the top
/// of the id range, away from the ids of real touches.
pub fn button_to_id(button: MouseButton) -> (id: u64)
    ensures
        id == u64::MAX - button_index(button),
{
    u64::MAX - match button {
        MouseButton::Left => 0,
        MouseButton::Middle => 1,
        MouseButton::Right => 2,
        MouseButton::Unknown => 3,
    }
}

/// The mouse buttons take the topmost touch ids: the left button the
/// highest, then the middle, the right and an unknown button below it.
pub proof fn lemma_button_ids(b: MouseButton)
    ensures
        b == MouseButton::Left ==> u64::MAX - button_index(b) == u64::MAX,
        b == MouseButton::Middle ==> u64::MAX - button_index(b) == u64::MAX - 1,
        b == MouseButton::Right ==> u64::MAX - button_index(b) == u64::MAX - 2,
        b == MouseButton::Unknown ==> u64::MAX - button_index(b) == u64::MAX - 3,
{
}

/// Whether `c` is an ASCII digit.
pub open spec fn is_ascii_digit(c: char) -> bool {
    '0' <= c <= '9'
}

/// The ASCII digits of `s`, in order.
pub open spec fn digits_of(s: Seq<char>) -> Seq<char>
    decreases s.len(),
{
    if s.len() == 0 {
        Seq::empty()
    } else if is_ascii_digit(s.last()) {
        digits_of(s.drop_last()).push(s.last())
    } else {
        digits_of(s.drop_last())
    }
}

/// Whether `a` comes before `b` or equals it, comparing character by
/// character, a sequence before any longer one it begins.
pub open spec fn lex_le(a: Seq<char>, b: Seq<char>) -> bool
    decreases a.len(),
{
    if a.len() == 0 {
        true
    } else if b.len() == 0 {
        false
    } else if a[0] != b[0] {
        a[0] < b[0]
    } else {
        lex_le(a.drop_first(), b.drop_first())
    }
}

fn digits(s: &str) -> (v: Vec<char>)
    ensures
        v@ == digits_of(s@),
{
    let cs = chars_of(s);
    let mut v: Vec<char> = Vec::new();
    let mut i: usize = 0;
    assert(cs@.take(0) =~= Seq::<char>::empty());
    while i < cs.len()
        invariant
            i <= cs.len(),
            cs@ == s@,
            v@ == digits_of(cs@.take(i as int)),
        decreases cs.len() - i,
    {
        let c = cs[i];
        assert(cs@.take(i + 1).drop_last() =~= cs@.take(i as int));
        if '0' <= c && c <= '9' {
            v.push(c);
        }
        i = i + 1;
    }
    assert(cs@.take(cs.len() as int) =~= cs@);
    v
}

/// Whether a feature that needs OS `version` is available on a system of
/// version `system_version`: the digits of the two, read in order, compare
/// no greater.
pub fn available(version: &str, system_version: &str) -> (b: bool)
    ensures
        b == lex_le(digits_of(version@), digits_of(system_version@)),
{
    let a = digits(version);
    let s = digits(system_version);
    let mut i: usize = 0;
    while i < a.len()
        invariant
            i <= a.len(),
            a@ == digits_of(version@),
            s@ == digits_of(system_version@),
            i <= s.len(),
            lex_le(a@, s@) == lex_le(a@.skip(i as int), s@.skip(i as int)),
        decreases a.len() - i,
    {
        if i >= s.len() {
            return false;
        }
        proof {
            assert(a@.skip(i as int).drop_first() =~= a@.skip(i + 1));
            assert(s@.skip(i as int).drop_first() =~= s@.skip(i + 1));
        }
        if a[i] != s[i] {
            return a[i] < s[i];
        }
        i = i + 1;
    }
    true
}

} // verus!
