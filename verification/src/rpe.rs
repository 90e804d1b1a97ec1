//! Defaults and limits of the RPE chart format, how its version field
//! reads, and what kind of judge line a line's fields make.

use vstd::prelude::*;
use crate::info::{digits_value, is_digit, lemma_digits_value_prefix};
use crate::text::{chars_of, str_eq};

verus! {

/// The format version assumed when a chart names none.
pub fn rpe_version_default() -> (v: i32)
    ensures
        v == 160,
{
    160
}

/// The easing of a speed event: types `1..=28` are kept, any other is
/// linear (1).
pub fn speed_easing_type(type_id: i32) -> (t: i32)
    ensures
        t == (if 1 <= type_id <= 28 {
            type_id
        } else {
            1
        }),
        1 <= t <= 28,
{
    if 1 <= type_id && type_id <= 28 {
        type_id
    } else {
        1
    }
}

/// Whether every character of `s` is an ASCII digit.
pub open spec fn all_digits(s: Seq<char>) -> bool {
    forall|i: int| 0 <= i < s.len() ==> is_digit(#[trigger] s[i])
}

/// What `i32`'s `from_str` makes of a text: an optional `+` or `-`, then
/// one or more ASCII digits, whose value must fit in `i32`.
pub open spec fn spec_parse_i32(s: Seq<char>) -> Option<i32> {
    let signed = s.len() > 0 && (s[0] == '-' || s[0] == '+');
    let body = if signed {
        s.drop_first()
    } else {
        s
    };
    let v: int = if s.len() > 0 && s[0] == '-' {
        -(digits_value(body) as int)
    } else {
        digits_value(body) as int
    };
    if body.len() > 0 && all_digits(body) && i32::MIN <= v <= i32::MAX {
        Some(v as i32)
    } else {
        None
    }
}

/// Reads a text as an `i32` the way `i32`'s `from_str` does.
pub fn parse_i32(s: &str) -> (r: Option<i32>)
    ensures
        r == spec_parse_i32(s@),
{
    let cs = chars_of(s);
    let n = cs.len();
    let neg = n > 0 && cs[0] == '-';
    let start: usize = if n > 0 && (cs[0] == '-' || cs[0] == '+') {
        1
    } else {
        0
    };
    let ghost body = if start == 1 {
        s@.drop_first()
    } else {
        s@
    };
    assert(body =~= cs@.skip(start as int));
    assert((s@.len() > 0 && (s@[0] == '-' || s@[0] == '+')) == (start == 1));
    assert((s@.len() > 0 && s@[0] == '-') == neg);
    if start == n {
        return None;
    }
    let limit: i64 = 2147483648;
    let mut value: i64 = 0;
    let mut i = start;
    assert(body.take(0) =~= Seq::<char>::empty());
    while i < n
        invariant
            start <= i <= n,
            start < n,
            n == cs@.len(),
            cs@ == s@,
            body == cs@.skip(start as int),
            body == (if s@.len() > 0 && (s@[0] == '-' || s@[0] == '+') {
                s@.drop_first()
            } else {
                s@
            }),
            forall|j: int| 0 <= j < i - start ==> is_digit(#[trigger] body[j]),
            value == digits_value(body.take(i - start)),
            value <= limit,
            limit == 2147483648,
        decreases n - i,
    {
        let c = cs[i];
        assert(body[i - start] == c);
        if !('0' <= c && c <= '9') {
            assert(!is_digit(body[i - start]));
            assert(!all_digits(body));
            return None;
        }
        let digit: i64 = ((c as u32) - ('0' as u32)) as i64;
        assert(body.take(i - start + 1).drop_last() =~= body.take(i - start));
        assert(digits_value(body.take(i - start + 1)) == 10 * value + digit);
        value = value * 10 + digit;
        if value > limit {
            proof {
                if all_digits(body) {
                    lemma_digits_value_prefix(body, i - start + 1);
                    assert(digits_value(body) > 2147483648);
                }
            }
            return None;
        }
        i = i + 1;
    }
    assert(body.take(i - start) =~= body);
    if neg {
        Some((0 - value) as i32)
    } else if value < limit {
        Some(value as i32)
    } else {
        None
    }
}

/// What a chart's `RPEVersion` field holds, as JSON gives it.
pub enum VersionField {
    /// A number: its value when it is a whole number that fits in `i64`.
    Number(Option<i64>),
    /// A string.
    Text(String),
    /// Anything else, or nothing.
    Other,
}

/// The format version a chart's `RPEVersion` field names: a whole number
/// (cut down to `i32` as an `as` cast does), or a string that reads as an
/// `i32`; anything else is the default version.
pub fn rpe_version(field: &VersionField) -> (v: i32)
    ensures
        v == match field {
            VersionField::Number(Some(n)) => *n as i32,
            VersionField::Text(t) => match spec_parse_i32(t@) {
                Some(x) => x,
                None => 160,
            },
            _ => 160,
        },
{
    match field {
        VersionField::Number(Some(n)) => *n as i32,
        VersionField::Text(t) => match parse_i32(t.as_str()) {
            Some(x) => x,
            None => rpe_version_default(),
        },
        _ => rpe_version_default(),
    }
}

/// Where a judge line's look comes from.
#[derive(Clone, Copy, Debug, PartialEq, Eq, Structural)]
pub enum LineKindSource {
    /// The plain line.
    Normal,
    /// Painted by its paint events.
    Paint,
    /// Text, by its text events.
    Text,
    /// An animated image, by its GIF events, loaded from its texture file.
    Gif,
    /// An image already loaded for an earlier line with the same texture.
    CachedTexture,
    /// An image loaded from its texture file.
    LoadTexture,
}

/// The kind of line that an RPE line makes: with the plain `line.png`
/// texture, painted when it has paint events, else text when it has text
/// events, else plain; with any other texture, a GIF when it has GIF
/// events, else the image of that texture, loaded once per texture.
pub open spec fn spec_rpe_line_kind(plain: bool, paint: bool, text: bool, gif: bool, cached: bool) -> LineKindSource {
    if plain {
        if paint {
            LineKindSource::Paint
        } else if text {
            LineKindSource::Text
        } else {
            LineKindSource::Normal
        }
    } else if gif {
        LineKindSource::Gif
    } else if cached {
        LineKindSource::CachedTexture
    } else {
        LineKindSource::LoadTexture
    }
}

/// The kind of line an RPE line makes, from its texture name, whether it
/// has paint, text and GIF events, and whether its texture was already
/// loaded for another line.
pub fn rpe_line_kind(texture: &str, paint: bool, text: bool, gif: bool, cached: bool) -> (k: LineKindSource)
    ensures
        k == spec_rpe_line_kind(texture@ == "line.png"@, paint, text, gif, cached),
{
    if str_eq(texture, "line.png") {
        if paint {
            LineKindSource::Paint
        } else if text {
            LineKindSource::Text
        } else {
            LineKindSource::Normal
        }
    } else if gif {
        LineKindSource::Gif
    } else if cached {
        LineKindSource::CachedTexture
    } else {
        LineKindSource::LoadTexture
    }
}

} // verus!
