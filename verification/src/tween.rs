//! Tween identifiers.
//!
//! A tween id packs a major easing family and a minor variant (in, out,
//! in-out) into one byte: `major * 3 + minor`. Ids `0..33` index the table
//! of easing functions; the functions themselves work on floats and live
//! outside the verified library.

use vstd::prelude::*;

verus! {

/// An identifier into the easing table.
pub type TweenId = u8;

/// Number of entries in the easing table.
pub const TWEEN_COUNT: u8 = 33;

/// An easing function of the table, by id.
pub struct StaticTween(pub TweenId);

/// The integral of an easing function of the table, by id.
pub struct IntStaticTween(pub TweenId);

/// Easing family.
#[derive(Clone, Copy, Debug, PartialEq, Eq, Structural)]
pub enum TweenMajor {
    Plain,
    Sine,
    Quad,
    Cubic,
    Quart,
    Quint,
    Expo,
    Circ,
    Back,
    Elastic,
    Bounce,
}

/// Easing variant within a family.
#[derive(Clone, Copy, Debug, PartialEq, Eq, Structural)]
pub enum TweenMinor {
    In,
    Out,
    InOut,
}

/// Position of a family in declaration order.
pub open spec fn major_index(major: TweenMajor) -> nat {
    match major {
        TweenMajor::Plain => 0,
        TweenMajor::Sine => 1,
        TweenMajor::Quad => 2,
        TweenMajor::Cubic => 3,
        TweenMajor::Quart => 4,
        TweenMajor::Quint => 5,
        TweenMajor::Expo => 6,
        TweenMajor::Circ => 7,
        TweenMajor::Back => 8,
        TweenMajor::Elastic => 9,
        TweenMajor::Bounce => 10,
    }
}

/// Position of a variant in declaration order.
pub open spec fn minor_index(minor: TweenMinor) -> nat {
    match minor {
        TweenMinor::In => 0,
        TweenMinor::Out => 1,
        TweenMinor::InOut => 2,
    }
}

/// The tween id of an easing family and variant: `major * 3 + minor`.
pub fn easing_from(major: TweenMajor, minor: TweenMinor) -> (id: TweenId)
    ensures
        id == 3 * major_index(major) + minor_index(minor),
        id < TWEEN_COUNT,
{
    let m: u8 = match major {
        TweenMajor::Plain => 0,
        TweenMajor::Sine => 1,
        TweenMajor::Quad => 2,
        TweenMajor::Cubic => 3,
        TweenMajor::Quart => 4,
        TweenMajor::Quint => 5,
        TweenMajor::Expo => 6,
        TweenMajor::Circ => 7,
        TweenMajor::Back => 8,
        TweenMajor::Elastic => 9,
        TweenMajor::Bounce => 10,
    };
    let n: u8 = match minor {
        TweenMinor::In => 0,
        TweenMinor::Out => 1,
        TweenMinor::InOut => 2,
    };
    m * 3 + n
}

/// The tween ids of the table: the families in order (plain, sine, quad,
/// cubic, quart, quint, expo, circ, back, elastic, bounce) take three ids
/// each from 0, and within a family in, out and in-out come in that
/// order.
pub proof fn lemma_tween_ids(major: TweenMajor, minor: TweenMinor)
    ensures
        minor == TweenMinor::In ==> minor_index(minor) == 0,
        minor == TweenMinor::Out ==> minor_index(minor) == 1,
        minor == TweenMinor::InOut ==> minor_index(minor) == 2,
        major == TweenMajor::Plain ==> 3 * major_index(major) + minor_index(minor) == 0 + minor_index(minor),
        major == TweenMajor::Sine ==> 3 * major_index(major) + minor_index(minor) == 3 + minor_index(minor),
        major == TweenMajor::Quad ==> 3 * major_index(major) + minor_index(minor) == 6 + minor_index(minor),
        major == TweenMajor::Cubic ==> 3 * major_index(major) + minor_index(minor) == 9 + minor_index(minor),
        major == TweenMajor::Quart ==> 3 * major_index(major) + minor_index(minor) == 12 + minor_index(minor),
        major == TweenMajor::Quint ==> 3 * major_index(major) + minor_index(minor) == 15 + minor_index(minor),
        major == TweenMajor::Expo ==> 3 * major_index(major) + minor_index(minor) == 18 + minor_index(minor),
        major == TweenMajor::Circ ==> 3 * major_index(major) + minor_index(minor) == 21 + minor_index(minor),
        major == TweenMajor::Back ==> 3 * major_index(major) + minor_index(minor) == 24 + minor_index(minor),
        major == TweenMajor::Elastic ==> 3 * major_index(major) + minor_index(minor) == 27 + minor_index(minor),
        major == TweenMajor::Bounce ==> 3 * major_index(major) + minor_index(minor) == 30 + minor_index(minor),
{
}

/// Distinct (family, variant) pairs get distinct tween ids.
pub proof fn lemma_easing_from_injective(a: TweenMajor, b: TweenMinor, c: TweenMajor, d: TweenMinor)
    requires
        3 * major_index(a) + minor_index(b) == 3 * major_index(c) + minor_index(d),
    ensures
        a == c,
        b == d,
{
}

} // verus!
