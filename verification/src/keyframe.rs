//! Keyframes and easing codes, with their binary encoding.
//!
//! A keyframe stores its time as a uleb delta from the running time, then
//! its value, then its easing: a tag byte whose top two bits give the kind
//! of easing and whose low bits give the table id, then the easing's
//! points.

use vstd::prelude::*;
use crate::bin::{
    le_u32_value, lemma_time_roundtrip, lemma_u32_le_roundtrip, u32_to_le, uleb_decode,
    uleb_encode, BinaryData, BinaryError, BinaryReader, BinaryWriter, F32Bits,
};
use crate::tween::{TweenId, TWEEN_COUNT};

verus! {

/// How a keyframe eases towards the next one.
#[derive(Clone, Copy, Debug, PartialEq, Eq, Structural)]
pub enum TweenCode {
    /// An easing function of the table, by id.
    Static(TweenId),
    /// An easing function of the table, by id, taken over the part of its
    /// domain between two points.
    Clamped(TweenId, F32Bits, F32Bits),
    /// A cubic Bézier easing with control points `(x1, y1)` and `(x2, y2)`.
    Bezier(F32Bits, F32Bits, F32Bits, F32Bits),
    /// Any other easing; the binary format has no place for it.
    Other,
}

/// Whether the reader accepts the encoding of `tw`: a table id must index
/// the table.
pub open spec fn tween_valid(tw: TweenCode) -> bool {
    match tw {
        TweenCode::Static(id) => id < TWEEN_COUNT,
        TweenCode::Clamped(id, _, _) => id < TWEEN_COUNT,
        TweenCode::Bezier(..) => true,
        TweenCode::Other => false,
    }
}

/// The bytes that store `tw`: a tag byte whose top two bits give the kind
/// (`00` table, `10` clamped, `11` Bézier) and whose low bits give the
/// table id, then the points. Nothing is stored for other easings.
pub open spec fn tween_encode(tw: TweenCode) -> Seq<u8> {
    match tw {
        TweenCode::Static(id) => seq![id],
        TweenCode::Clamped(id, a, b) => seq![0x80u8 | id] + u32_to_le(a.0) + u32_to_le(b.0),
        TweenCode::Bezier(a, b, c, d) => seq![0xC0u8] + u32_to_le(a.0) + u32_to_le(b.0)
            + u32_to_le(c.0) + u32_to_le(d.0),
        TweenCode::Other => Seq::empty(),
    }
}

/// An easing's tag byte: a table easing is its id alone; a clamped one
/// is `0x80` with the id in the low bits, then its two bounds; a Bézier
/// one is `0xC0`, then its four coordinates.
pub proof fn lemma_tween_tags(tw: TweenCode)
    ensures
        tw matches TweenCode::Static(id) ==> tween_encode(tw) == seq![id],
        tw matches TweenCode::Clamped(id, _, _) ==> tween_encode(tw).len() == 9 && tween_encode(tw)[0] == (0x80u8 | id),
        tw is Bezier ==> tween_encode(tw).len() == 17 && tween_encode(tw)[0] == 0xC0u8,
        tw is Other ==> tween_encode(tw).len() == 0,
{
    match tw {
        TweenCode::Clamped(id, a, b) => {
            lemma_u32_le_roundtrip(a.0);
            lemma_u32_le_roundtrip(b.0);
        },
        TweenCode::Bezier(a, b, c, d) => {
            lemma_u32_le_roundtrip(a.0);
            lemma_u32_le_roundtrip(b.0);
            lemma_u32_le_roundtrip(c.0);
            lemma_u32_le_roundtrip(d.0);
        },
        _ => {},
    }
}

/// The `f32` stored at index `i` of `bytes`.
pub open spec fn f32_at(bytes: Seq<u8>, i: int) -> F32Bits {
    F32Bits(le_u32_value(bytes.skip(i)) as u32)
}

/// The easing at the front of `bytes` and the number of bytes it takes.
pub open spec fn tween_decode(bytes: Seq<u8>) -> Result<(TweenCode, nat), BinaryError> {
    if bytes.len() == 0 {
        Err(BinaryError::UnexpectedEof)
    } else {
        let b = bytes[0];
        if b & 0xC0u8 == 0 {
            if b < TWEEN_COUNT {
                Ok((TweenCode::Static(b), 1))
            } else {
                Err(BinaryError::InvalidTween)
            }
        } else if b & 0xC0u8 == 0x80 {
            if bytes.len() < 9 {
                Err(BinaryError::UnexpectedEof)
            } else if b & 0x7Fu8 < TWEEN_COUNT {
                Ok((TweenCode::Clamped(b & 0x7Fu8, f32_at(bytes, 1), f32_at(bytes, 5)), 9))
            } else {
                Err(BinaryError::InvalidTween)
            }
        } else if b & 0xC0u8 == 0xC0 {
            if bytes.len() < 17 {
                Err(BinaryError::UnexpectedEof)
            } else {
                Ok(
                    (
                        TweenCode::Bezier(
                            f32_at(bytes, 1),
                            f32_at(bytes, 5),
                            f32_at(bytes, 9),
                            f32_at(bytes, 13),
                        ),
                        17,
                    ),
                )
            }
        } else {
            Err(BinaryError::InvalidTween)
        }
    }
}

proof fn lemma_f32_at(x: F32Bits, pre: Seq<u8>, rest: Seq<u8>)
    ensures
        f32_at(pre + u32_to_le(x.0) + rest, pre.len() as int) == x,
{
    lemma_u32_le_roundtrip(x.0);
    let b = (pre + u32_to_le(x.0) + rest).skip(pre.len() as int);
    let e = u32_to_le(x.0);
    assert(b[0] == e[0] && b[1] == e[1] && b[2] == e[2] && b[3] == e[3]);
}

/// An easing the reader accepts is read back from its encoding.
pub proof fn lemma_tween_roundtrip(tw: TweenCode, rest: Seq<u8>)
    requires
        tween_valid(tw),
    ensures
        tween_decode(tween_encode(tw) + rest) == Ok::<(TweenCode, nat), BinaryError>(
            (tw, tween_encode(tw).len()),
        ),
{
    let bytes = tween_encode(tw) + rest;
    match tw {
        TweenCode::Static(id) => {
            assert(id & 0xC0u8 == 0) by (bit_vector)
                requires
                    id < 33u8,
            ;
        },
        TweenCode::Clamped(id, a, b) => {
            let t = 0x80u8 | id;
            assert(t & 0xC0u8 == 0x80u8 && t & 0x7Fu8 == id) by (bit_vector)
                requires
                    t == 0x80u8 | id,
                    id < 33u8,
            ;
            let e1 = seq![t];
            let e2 = u32_to_le(a.0);
            let e3 = u32_to_le(b.0);
            lemma_u32_le_roundtrip(a.0);
            lemma_u32_le_roundtrip(b.0);
            assert(bytes =~= e1 + e2 + (e3 + rest));
            lemma_f32_at(a, e1, e3 + rest);
            assert(bytes =~= (e1 + e2) + e3 + rest);
            lemma_f32_at(b, e1 + e2, rest);
        },
        TweenCode::Bezier(a, b, c, d) => {
            assert(0xC0u8 & 0xC0u8 == 0xC0u8) by (bit_vector);
            let e1 = seq![0xC0u8];
            let e2 = u32_to_le(a.0);
            let e3 = u32_to_le(b.0);
            let e4 = u32_to_le(c.0);
            let e5 = u32_to_le(d.0);
            lemma_u32_le_roundtrip(a.0);
            lemma_u32_le_roundtrip(b.0);
            lemma_u32_le_roundtrip(c.0);
            lemma_u32_le_roundtrip(d.0);
            assert(bytes =~= e1 + e2 + (e3 + e4 + e5 + rest));
            lemma_f32_at(a, e1, e3 + e4 + e5 + rest);
            assert(bytes =~= (e1 + e2) + e3 + (e4 + e5 + rest));
            lemma_f32_at(b, e1 + e2, e4 + e5 + rest);
            assert(bytes =~= (e1 + e2 + e3) + e4 + (e5 + rest));
            lemma_f32_at(c, e1 + e2 + e3, e5 + rest);
            assert(bytes =~= (e1 + e2 + e3 + e4) + e5 + rest);
            lemma_f32_at(d, e1 + e2 + e3 + e4, rest);
        },
        TweenCode::Other => {},
    }
}

/// Reads an easing.
fn read_tween(r: &mut BinaryReader) -> (res: Result<TweenCode, BinaryError>)
    ensures
        match tween_decode(old(r).remaining()) {
            Ok((tw, n)) => res == Ok::<TweenCode, BinaryError>(tw)
                && final(r).remaining() == old(r).remaining().skip(n as int)
                && final(r).time_ms() == old(r).time_ms(),
            Err(e) => res == Err::<TweenCode, BinaryError>(e),
        },
{
    let ghost rem = r.remaining();
    let b = match r.read::<u8>() {
        Ok(b) => b,
        Err(e) => {
            return Err(e);
        },
    };
    if b & 0xC0 == 0 {
        if b < TWEEN_COUNT {
            Ok(TweenCode::Static(b))
        } else {
            Err(BinaryError::InvalidTween)
        }
    } else if b & 0xC0 == 0x80 {
        let start = match r.read::<F32Bits>() {
            Ok(x) => x,
            Err(e) => {
                return Err(e);
            },
        };
        let end = match r.read::<F32Bits>() {
            Ok(x) => x,
            Err(e) => {
                return Err(e);
            },
        };
        proof {
            assert(rem.skip(1).skip(4) =~= rem.skip(5));
            assert(rem.skip(5).skip(4) =~= rem.skip(9));
        }
        if b & 0x7F < TWEEN_COUNT {
            Ok(TweenCode::Clamped(b & 0x7F, start, end))
        } else {
            Err(BinaryError::InvalidTween)
        }
    } else if b & 0xC0 == 0xC0 {
        let x1 = match r.read::<F32Bits>() {
            Ok(x) => x,
            Err(e) => {
                return Err(e);
            },
        };
        let y1 = match r.read::<F32Bits>() {
            Ok(x) => x,
            Err(e) => {
                return Err(e);
            },
        };
        let x2 = match r.read::<F32Bits>() {
            Ok(x) => x,
            Err(e) => {
                return Err(e);
            },
        };
        let y2 = match r.read::<F32Bits>() {
            Ok(x) => x,
            Err(e) => {
                return Err(e);
            },
        };
        proof {
            assert(rem.skip(1).skip(4) =~= rem.skip(5));
            assert(rem.skip(5).skip(4) =~= rem.skip(9));
            assert(rem.skip(9).skip(4) =~= rem.skip(13));
            assert(rem.skip(13).skip(4) =~= rem.skip(17));
        }
        Ok(TweenCode::Bezier(x1, y1, x2, y2))
    } else {
        Err(BinaryError::InvalidTween)
    }
}

/// Writes an easing.
fn write_tween(w: &mut BinaryWriter, tw: TweenCode)
    ensures
        final(w).bytes() == old(w).bytes() + tween_encode(tw),
        final(w).time_ms() == old(w).time_ms(),
{
    match tw {
        TweenCode::Static(id) => {
            let _ = w.write_val(id);
        },
        TweenCode::Clamped(id, a, b) => {
            let _ = w.write_val(0x80u8 | id);
            let _ = w.write_val(a);
            let _ = w.write_val(b);
        },
        TweenCode::Bezier(a, b, c, d) => {
            let _ = w.write_val(0xC0u8);
            let _ = w.write_val(a);
            let _ = w.write_val(b);
            let _ = w.write_val(c);
            let _ = w.write_val(d);
        },
        TweenCode::Other => {},
    }
    assert(w.bytes() =~= old(w).bytes() + tween_encode(tw));
}

/// A value at a point in time, with the easing towards the next keyframe.
#[derive(Clone, Debug)]
pub struct Keyframe<T> {
    /// Time in milliseconds.
    pub time_ms: u32,
    pub value: T,
    pub tween: TweenCode,
}

/// What a keyframe holds: time, value, easing.
pub type KeyframeView<V> = (u32, V, TweenCode);

impl<T: View> View for Keyframe<T> {
    type V = KeyframeView<T::V>;

    open spec fn view(&self) -> KeyframeView<T::V> {
        (self.time_ms, self.value@, self.tween)
    }
}

impl<T> Keyframe<T> {
    /// A keyframe with an easing of the table.
    pub fn new(time_ms: u32, value: T, tween: TweenId) -> (k: Self)
        ensures
            k.time_ms == time_ms,
            k.value == value,
            k.tween == TweenCode::Static(tween),
    {
        Keyframe { time_ms, value, tween: TweenCode::Static(tween) }
    }
}

impl<T: BinaryData> BinaryData for Keyframe<T> {
    closed spec fn spec_wf(v: KeyframeView<T::V>) -> bool {
        T::spec_wf(v.1) && tween_valid(v.2)
    }

    closed spec fn spec_writable(v: KeyframeView<T::V>, t: u32) -> bool {
        t <= v.0 && T::spec_writable(v.1, v.0)
    }

    /// The time as a uleb delta from the running time, the value, the
    /// easing.
    closed spec fn spec_encode(v: KeyframeView<T::V>, t: u32) -> Seq<u8> {
        uleb_encode((v.0 - t) as nat) + T::spec_encode(v.1, v.0) + tween_encode(v.2)
    }

    closed spec fn spec_time_after(v: KeyframeView<T::V>, t: u32) -> u32 {
        T::spec_time_after(v.1, v.0)
    }

    closed spec fn spec_decode(bytes: Seq<u8>, t: u32) -> Result<
        (KeyframeView<T::V>, nat, u32),
        BinaryError,
    > {
        match uleb_decode(bytes) {
            Ok((d, k)) => {
                let time = t + d % 0x1_0000_0000;
                if time > u32::MAX {
                    Err(BinaryError::TimeOverflow)
                } else {
                    match T::spec_decode(bytes.skip(k as int), time as u32) {
                        Ok((v, n, t1)) => match tween_decode(bytes.skip((k + n) as int)) {
                            Ok((tw, m)) => Ok(((time as u32, v, tw), k + n + m, t1)),
                            Err(e) => Err(e),
                        },
                        Err(e) => Err(e),
                    }
                }
            },
            Err(e) => Err(e),
        }
    }

    proof fn lemma_decode_len(bytes: Seq<u8>, t: u32) {
        crate::bin::lemma_uleb_parse_len(bytes, 0);
        match uleb_decode(bytes) {
            Ok((d, k)) => {
                let time = t + d % 0x1_0000_0000;
                if time <= u32::MAX {
                    T::lemma_decode_len(bytes.skip(k as int), time as u32);
                    match T::spec_decode(bytes.skip(k as int), time as u32) {
                        Ok((v, n, t1)) => {
                            assert(bytes.skip(k as int).skip(n as int) =~= bytes.skip((k + n) as int));
                            match tween_decode(bytes.skip((k + n) as int)) {
                                Ok((tw, m)) => {},
                                Err(e) => {},
                            }
                        },
                        Err(e) => {},
                    }
                }
            },
            Err(e) => {},
        }
    }

    proof fn lemma_roundtrip(v: KeyframeView<T::V>, t: u32, rest: Seq<u8>) {
        let e1 = uleb_encode((v.0 - t) as nat);
        let e2 = T::spec_encode(v.1, v.0);
        let e3 = tween_encode(v.2);
        let bytes = e1 + e2 + e3 + rest;
        assert(bytes =~= e1 + (e2 + e3 + rest));
        lemma_time_roundtrip(t, v.0, e2 + e3 + rest);
        assert(bytes.skip(e1.len() as int) =~= e2 + (e3 + rest));
        T::lemma_roundtrip(v.1, v.0, e3 + rest);
        assert(bytes.skip((e1.len() + e2.len()) as int) =~= e3 + rest);
        lemma_tween_roundtrip(v.2, rest);
    }

    fn read_binary(r: &mut BinaryReader) -> (res: Result<Keyframe<T>, BinaryError>) {
        let ghost rem = r.remaining();
        let time_ms = match r.time_ms_delta() {
            Ok(t) => t,
            Err(e) => {
                return Err(e);
            },
        };
        let ghost k: nat = uleb_decode(rem)->Ok_0.1;
        let value = match r.read::<T>() {
            Ok(v) => v,
            Err(e) => {
                return Err(e);
            },
        };
        let ghost n: nat = T::spec_decode(rem.skip(k as int), time_ms)->Ok_0.1;
        proof {
            crate::bin::lemma_uleb_parse_len(rem, 0);
            T::lemma_decode_len(rem.skip(k as int), time_ms);
            assert(rem.skip(k as int).skip(n as int) =~= rem.skip((k + n) as int));
        }
        let tween = match read_tween(r) {
            Ok(tw) => tw,
            Err(e) => {
                return Err(e);
            },
        };
        proof {
            let m = tween_decode(rem.skip((k + n) as int))->Ok_0.1;
            assert(rem.skip((k + n) as int).skip(m as int) =~= rem.skip((k + n + m) as int));
        }
        Ok(Keyframe { time_ms, value, tween })
    }

    fn write_binary(&self, w: &mut BinaryWriter) -> (res: Result<(), BinaryError>) {
        let _ = w.time_ms_delta(self.time_ms);
        let _ = w.write(&self.value);
        write_tween(w, self.tween);
        assert(w.bytes() =~= old(w).bytes() + Self::spec_encode(self@, old(w).time_ms()));
        Ok(())
    }
}

} // verus!
