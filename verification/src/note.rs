//! Notes as a chart file stores them, with their binary encoding.

use vstd::prelude::*;
use crate::keyframe::f32_at;
use crate::bin::{
    lemma_time_roundtrip, lemma_u32_le_roundtrip, u32_to_le, uleb_decode, uleb_encode,
    BinaryData, BinaryError, BinaryReader, BinaryWriter, F32Bits,
};
use crate::object::{AnimView, Object};

verus! {



/// The bit pattern of the `f32` 1.0, a note's default speed.
pub const F32_ONE_BITS: u32 = 0x3f80_0000;

/// What the player does with a note.
#[derive(Clone, Copy, Debug, PartialEq, Eq, Structural)]
pub enum NoteKind {
    Click,
    /// Held until `end_time` (seconds), where the note's tail is at
    /// `end_height`.
    Hold { end_time: F32Bits, end_height: F32Bits },
    Flick,
    Drag,
}

/// The bytes of a note kind: 0 click, 1 hold (then end time and end
/// height), 2 flick, 3 drag.
pub open spec fn note_kind_encode(k: NoteKind) -> Seq<u8> {
    match k {
        NoteKind::Click => seq![0u8],
        NoteKind::Hold { end_time, end_height } => seq![1u8] + u32_to_le(end_time.0) + u32_to_le(
            end_height.0,
        ),
        NoteKind::Flick => seq![2u8],
        NoteKind::Drag => seq![3u8],
    }
}

/// The note kind at the front of `bytes` and the number of bytes it takes.
pub open spec fn note_kind_decode(bytes: Seq<u8>) -> Result<(NoteKind, nat), BinaryError> {
    if bytes.len() == 0 {
        Err(BinaryError::UnexpectedEof)
    } else if bytes[0] == 0 {
        Ok((NoteKind::Click, 1))
    } else if bytes[0] == 1 {
        if bytes.len() < 9 {
            Err(BinaryError::UnexpectedEof)
        } else {
            Ok((NoteKind::Hold { end_time: f32_at(bytes, 1), end_height: f32_at(bytes, 5) }, 9))
        }
    } else if bytes[0] == 2 {
        Ok((NoteKind::Flick, 1))
    } else if bytes[0] == 3 {
        Ok((NoteKind::Drag, 1))
    } else {
        Err(BinaryError::InvalidNoteKind)
    }
}

/// The bytes of a note's speed: 0 for the default 1.0, else 1 and the
/// speed.
pub open spec fn speed_encode(s: F32Bits) -> Seq<u8> {
    if s.0 == F32_ONE_BITS {
        seq![0u8]
    } else {
        seq![1u8] + u32_to_le(s.0)
    }
}

/// The speed at the front of `bytes` and the number of bytes it takes: a
/// flag byte, and the speed only when the flag is 1.
pub open spec fn speed_decode(bytes: Seq<u8>) -> Result<(F32Bits, nat), BinaryError> {
    if bytes.len() == 0 {
        Err(BinaryError::UnexpectedEof)
    } else if bytes[0] == 1 {
        if bytes.len() < 5 {
            Err(BinaryError::UnexpectedEof)
        } else {
            Ok((f32_at(bytes, 1), 5))
        }
    } else {
        Ok((F32Bits(F32_ONE_BITS), 1))
    }
}

/// A note as a chart file stores it.
pub struct Note {
    pub object: Object,
    pub kind: NoteKind,
    /// Time in milliseconds.
    pub time_ms: u32,
    pub height: F32Bits,
    pub speed: F32Bits,
    /// Whether the note falls from above its judge line.
    pub above: bool,
    /// Whether the note is for show only.
    pub fake: bool,
}

/// What a note holds.
pub struct NoteView {
    pub object: Seq<AnimView>,
    pub kind: NoteKind,
    pub time_ms: u32,
    pub height: F32Bits,
    pub speed: F32Bits,
    pub above: bool,
    pub fake: bool,
}

impl View for Note {
    type V = NoteView;

    open spec fn view(&self) -> NoteView {
        NoteView {
            object: self.object@,
            kind: self.kind,
            time_ms: self.time_ms,
            height: self.height,
            speed: self.speed,
            above: self.above,
            fake: self.fake,
        }
    }
}

/// The bytes of a note after its time: height, speed, above, fake.
pub open spec fn note_tail_encode(v: NoteView) -> Seq<u8> {
    u32_to_le(v.height.0) + speed_encode(v.speed) + bool::spec_encode(v.above, 0)
        + bool::spec_encode(v.fake, 0)
}

/// The bytes of a note after its object, written at running time `t`.
pub open spec fn note_body_encode(v: NoteView, t: u32) -> Seq<u8> {
    note_kind_encode(v.kind) + uleb_encode((v.time_ms - t) as nat) + note_tail_encode(v)
}

/// The fields of a note that follow its time, at the front of `bytes`:
/// height, speed, above, fake; and the number of bytes they take.
pub open spec fn note_tail_decode(bytes: Seq<u8>) -> Result<
    ((F32Bits, F32Bits, bool, bool), nat),
    BinaryError,
> {
    if bytes.len() < 4 {
        Err(BinaryError::UnexpectedEof)
    } else {
        match speed_decode(bytes.skip(4)) {
            Ok((speed, k)) => {
                let rest = bytes.skip((4 + k) as int);
                if rest.len() < 2 {
                    Err(BinaryError::UnexpectedEof)
                } else {
                    Ok(((f32_at(bytes, 0), speed, rest[0] == 1, rest[1] == 1), k + 6))
                }
            },
            Err(e) => Err(e),
        }
    }
}

/// The rest of a note at the front of `bytes` once its object has been
/// read, leaving the running time at `t`.
#[verifier::opaque]
pub open spec fn note_body_decode(bytes: Seq<u8>, object: Seq<AnimView>, t: u32) -> Result<
    (NoteView, nat, u32),
    BinaryError,
> {
    match note_kind_decode(bytes) {
        Ok((kind, n1)) => match uleb_decode(bytes.skip(n1 as int)) {
            Ok((d, n2)) => {
                let time = t + d % 0x1_0000_0000;
                if time > u32::MAX {
                    Err(BinaryError::TimeOverflow)
                } else {
                    match note_tail_decode(bytes.skip((n1 + n2) as int)) {
                        Ok(((height, speed, above, fake), n3)) => Ok(
                            (
                                NoteView {
                                    object,
                                    kind,
                                    time_ms: time as u32,
                                    height,
                                    speed,
                                    above,
                                    fake,
                                },
                                n1 + n2 + n3,
                                time as u32,
                            ),
                        ),
                        Err(e) => Err(e),
                    }
                }
            },
            Err(e) => Err(e),
        },
        Err(e) => Err(e),
    }
}

proof fn lemma_le_front(x: u32, rest: Seq<u8>)
    ensures
        (u32_to_le(x) + rest).len() >= 4,
        f32_at(u32_to_le(x) + rest, 0) == F32Bits(x),
{
    lemma_u32_le_roundtrip(x);
    let b = (u32_to_le(x) + rest).skip(0);
    assert(b =~= u32_to_le(x) + rest);
    let e = u32_to_le(x);
    assert(b[0] == e[0] && b[1] == e[1] && b[2] == e[2] && b[3] == e[3]);
}

proof fn lemma_note_kind_roundtrip(k: NoteKind, rest: Seq<u8>)
    ensures
        note_kind_decode(note_kind_encode(k) + rest) == Ok::<(NoteKind, nat), BinaryError>(
            (k, note_kind_encode(k).len()),
        ),
{
    match k {
        NoteKind::Hold { end_time, end_height } => {
            let e1 = u32_to_le(end_time.0);
            let e2 = u32_to_le(end_height.0);
            let bytes = seq![1u8] + e1 + e2 + rest;
            lemma_u32_le_roundtrip(end_time.0);
            lemma_u32_le_roundtrip(end_height.0);
            assert(bytes.skip(1) =~= e1 + (e2 + rest));
            lemma_le_front(end_time.0, e2 + rest);
            assert(bytes.skip(5) =~= e2 + rest);
            lemma_le_front(end_height.0, rest);
            assert(bytes.skip(1).skip(0) =~= bytes.skip(1));
            assert(bytes.skip(5).skip(0) =~= bytes.skip(5));
        },
        _ => {},
    }
}

proof fn lemma_speed_roundtrip(s: F32Bits, rest: Seq<u8>)
    ensures
        speed_decode(speed_encode(s) + rest) == Ok::<(F32Bits, nat), BinaryError>(
            (s, speed_encode(s).len()),
        ),
{
    if s.0 != F32_ONE_BITS {
        let e = u32_to_le(s.0);
        let bytes = seq![1u8] + e + rest;
        lemma_u32_le_roundtrip(s.0);
        assert(bytes.skip(1) =~= e + rest);
        lemma_le_front(s.0, rest);
        assert(bytes.skip(1).skip(0) =~= bytes.skip(1));
    }
}

/// The fields after a note's time are read back from their encoding.
proof fn lemma_note_tail_roundtrip(v: NoteView, rest: Seq<u8>)
    ensures
        note_tail_decode(note_tail_encode(v) + rest) == Ok::<
            ((F32Bits, F32Bits, bool, bool), nat),
            BinaryError,
        >(((v.height, v.speed, v.above, v.fake), note_tail_encode(v).len())),
{
    let e3 = u32_to_le(v.height.0);
    let e4 = speed_encode(v.speed);
    let e5 = bool::spec_encode(v.above, 0);
    let e6 = bool::spec_encode(v.fake, 0);
    let flags = e5 + e6 + rest;
    let bytes = e3 + e4 + e5 + e6 + rest;
    lemma_u32_le_roundtrip(v.height.0);
    lemma_le_front(v.height.0, e4 + flags);
    assert(bytes =~= e3 + (e4 + flags));
    assert(bytes.skip(4) =~= e4 + flags);
    lemma_speed_roundtrip(v.speed, flags);
    let k = e4.len();
    assert(bytes.skip((4 + k) as int) =~= flags);
    assert(flags[0] == e5[0]);
    assert(flags[1] == e6[0]);
    assert((flags[0] == 1) == v.above);
    assert((flags[1] == 1) == v.fake);
}

/// How the rest of a note decodes once its kind and time have been read.
proof fn lemma_note_body_decode_parts(
    bytes: Seq<u8>,
    object: Seq<AnimView>,
    t: u32,
    kind: NoteKind,
    n1: nat,
    d: u64,
    n2: nat,
)
    requires
        note_kind_decode(bytes) == Ok::<(NoteKind, nat), BinaryError>((kind, n1)),
        uleb_decode(bytes.skip(n1 as int)) == Ok::<(u64, nat), BinaryError>((d, n2)),
        t + d % 0x1_0000_0000 <= u32::MAX,
    ensures
        note_body_decode(bytes, object, t) == match note_tail_decode(bytes.skip((n1 + n2) as int)) {
            Ok(((height, speed, above, fake), n3)) => Ok::<(NoteView, nat, u32), BinaryError>(
                (
                    NoteView {
                        object,
                        kind,
                        time_ms: (t + d % 0x1_0000_0000) as u32,
                        height,
                        speed,
                        above,
                        fake,
                    },
                    n1 + n2 + n3,
                    (t + d % 0x1_0000_0000) as u32,
                ),
            ),
            Err(e) => Err(e),
        },
{
    reveal(note_body_decode);
}

proof fn lemma_skip_front(a: Seq<u8>, b: Seq<u8>)
    ensures
        (a + b).skip(a.len() as int) == b,
{
    assert((a + b).skip(a.len() as int) =~= b);
}

/// The rest of a note is read back from its encoding.
#[verifier::rlimit(30)]
proof fn lemma_note_body_roundtrip(v: NoteView, t: u32, rest: Seq<u8>)
    requires
        t <= v.time_ms,
    ensures
        note_body_decode(note_body_encode(v, t) + rest, v.object, t) == Ok::<
            (NoteView, nat, u32),
            BinaryError,
        >((v, note_body_encode(v, t).len(), v.time_ms)),
{
    let e1 = note_kind_encode(v.kind);
    let e2 = uleb_encode((v.time_ms - t) as nat);
    let e3 = note_tail_encode(v);
    let r3 = e3 + rest;
    let r2 = e2 + r3;
    let bytes = e1 + e2 + e3 + rest;
    assert(e1 + r2 =~= bytes);
    assert(e1 + e2 + r3 =~= bytes);
    lemma_note_kind_roundtrip(v.kind, r2);
    lemma_skip_front(e1, r2);
    lemma_time_roundtrip(t, v.time_ms, r3);
    let d = uleb_decode(r2)->Ok_0.0;
    lemma_skip_front(e1 + e2, r3);
    lemma_note_tail_roundtrip(v, rest);
    lemma_note_body_decode_parts(bytes, v.object, t, v.kind, e1.len(), d, e2.len());
    let w = NoteView {
        object: v.object,
        kind: v.kind,
        time_ms: v.time_ms,
        height: v.height,
        speed: v.speed,
        above: v.above,
        fake: v.fake,
    };
    assert(w == v);
}

/// A note's speed is the byte 0 when it is the default 1.0 (bits
/// `0x3f80_0000`), else the byte 1 and the speed's four bytes.
pub proof fn lemma_speed_bytes(s: F32Bits)
    ensures
        s.0 == 0x3f80_0000 ==> speed_encode(s) == seq![0u8],
        s.0 != 0x3f80_0000 ==> speed_encode(s).len() == 5 && speed_encode(s)[0] == 1u8,
{
    lemma_u32_le_roundtrip(s.0);
}

/// The note-kind byte of the file format: 0 a click, 1 a hold (its end
/// time and end height follow), 2 a flick, 3 a drag. A reader gives back
/// the kind each byte names, whatever follows, and refuses any other byte.
pub proof fn lemma_note_kind_codes(end_time: F32Bits, end_height: F32Bits, rest: Seq<u8>, b: u8)
    ensures
        note_kind_encode(NoteKind::Click) == seq![0u8],
        note_kind_encode(NoteKind::Flick) == seq![2u8],
        note_kind_encode(NoteKind::Drag) == seq![3u8],
        note_kind_encode(NoteKind::Hold { end_time, end_height }).len() == 9,
        note_kind_encode(NoteKind::Hold { end_time, end_height })[0] == 1u8,
        note_kind_decode(seq![0u8] + rest) == Ok::<(NoteKind, nat), BinaryError>((NoteKind::Click, 1)),
        note_kind_decode(seq![2u8] + rest) == Ok::<(NoteKind, nat), BinaryError>((NoteKind::Flick, 1)),
        note_kind_decode(seq![3u8] + rest) == Ok::<(NoteKind, nat), BinaryError>((NoteKind::Drag, 1)),
        note_kind_encode(NoteKind::Hold { end_time, end_height }) == seq![1u8] + u32_to_le(end_time.0) + u32_to_le(
            end_height.0,
        ),
        note_kind_decode(seq![1u8] + u32_to_le(end_time.0) + u32_to_le(end_height.0) + rest) == Ok::<
            (NoteKind, nat),
            BinaryError,
        >((NoteKind::Hold { end_time, end_height }, 9)),
        b > 3 ==> note_kind_decode(seq![b] + rest) == Err::<(NoteKind, nat), BinaryError>(
            BinaryError::InvalidNoteKind,
        ),
{
    assert((seq![0u8] + rest)[0] == 0u8);
    assert((seq![1u8] + rest)[0] == 1u8);
    assert((seq![2u8] + rest)[0] == 2u8);
    assert((seq![3u8] + rest)[0] == 3u8);
    assert((seq![b] + rest)[0] == b);
    lemma_u32_le_roundtrip(end_time.0);
    lemma_u32_le_roundtrip(end_height.0);
    let hold = NoteKind::Hold { end_time, end_height };
    lemma_note_kind_roundtrip(hold, rest);
    assert(note_kind_encode(hold) + rest =~= seq![1u8] + u32_to_le(end_time.0) + u32_to_le(end_height.0) + rest);
}

/// In a note's bytes, the byte right after its object is its kind's code:
/// 0 a click, 1 a hold, 2 a flick, 3 a drag.
pub proof fn lemma_note_kind_byte(v: NoteView, t: u32)
    ensures
        Note::spec_encode(v, t).len() > Object::spec_encode(v.object, t).len(),
        Note::spec_encode(v, t)[Object::spec_encode(v.object, t).len() as int] == match v.kind {
            NoteKind::Click => 0u8,
            NoteKind::Hold { .. } => 1u8,
            NoteKind::Flick => 2u8,
            NoteKind::Drag => 3u8,
        },
{
    let o = Object::spec_encode(v.object, t);
    let body = note_body_encode(v, Object::spec_time_after(v.object, t));
    let k = note_kind_encode(v.kind);
    assert(body[0] == k[0]);
    assert((o + body)[o.len() as int] == body[0]);
}

impl BinaryData for Note {
    open spec fn spec_wf(v: NoteView) -> bool {
        Object::spec_wf(v.object)
    }

    open spec fn spec_writable(v: NoteView, t: u32) -> bool {
        Object::spec_writable(v.object, t) && Object::spec_time_after(v.object, t) <= v.time_ms
    }

    /// The object, the kind, the time as a uleb delta, the height, the
    /// speed, above and fake.
    open spec fn spec_encode(v: NoteView, t: u32) -> Seq<u8> {
        Object::spec_encode(v.object, t) + note_body_encode(v, Object::spec_time_after(v.object, t))
    }

    open spec fn spec_time_after(v: NoteView, t: u32) -> u32 {
        v.time_ms
    }

    open spec fn spec_decode(bytes: Seq<u8>, t: u32) -> Result<(NoteView, nat, u32), BinaryError> {
        match Object::spec_decode(bytes, t) {
            Ok((object, n0, t1)) => match note_body_decode(bytes.skip(n0 as int), object, t1) {
                Ok((v, n, t2)) => Ok((v, n0 + n, t2)),
                Err(e) => Err(e),
            },
            Err(e) => Err(e),
        }
    }

    proof fn lemma_decode_len(bytes: Seq<u8>, t: u32) {
        reveal(note_body_decode);
        Object::lemma_decode_len(bytes, t);
        match Object::spec_decode(bytes, t) {
            Ok((object, n0, t1)) => {
                let b = bytes.skip(n0 as int);
                match note_kind_decode(b) {
                    Ok((kind, n1)) => {
                        crate::bin::lemma_uleb_parse_len(b.skip(n1 as int), 0);
                        match uleb_decode(b.skip(n1 as int)) {
                            Ok((d, n2)) => {
                                assert(b.skip(n1 as int).skip(n2 as int) =~= b.skip((n1 + n2) as int));
                            },
                            Err(e) => {},
                        }
                    },
                    Err(e) => {},
                }
            },
            Err(e) => {},
        }
    }

    proof fn lemma_roundtrip(v: NoteView, t: u32, rest: Seq<u8>) {
        let t1 = Object::spec_time_after(v.object, t);
        let e0 = Object::spec_encode(v.object, t);
        let body = note_body_encode(v, t1);
        let bytes = e0 + body + rest;
        assert(bytes =~= e0 + (body + rest));
        Object::lemma_roundtrip(v.object, t, body + rest);
        assert(bytes.skip(e0.len() as int) =~= body + rest);
        lemma_note_body_roundtrip(v, t1, rest);
    }

    #[verifier::rlimit(40)]
    fn read_binary(r: &mut BinaryReader) -> (res: Result<Note, BinaryError>) {
        reveal(note_body_decode);
        let ghost rem = r.remaining();
        proof {
            Object::lemma_decode_len(rem, r.time_ms());
        }
        let object = match r.read::<Object>() {
            Ok(o) => o,
            Err(e) => {
                return Err(e);
            },
        };
        let ghost n0 = Object::spec_decode(rem, old(r).time_ms())->Ok_0.1;
        let ghost b = r.remaining();
        let kind = match read_note_kind(r) {
            Ok(k) => k,
            Err(e) => {
                return Err(e);
            },
        };
        let ghost n1 = note_kind_decode(b)->Ok_0.1;
        proof {
            assert(n1 <= b.len());
        }
        let time_ms = match r.time_ms_delta() {
            Ok(t) => t,
            Err(e) => {
                return Err(e);
            },
        };
        let ghost n2 = uleb_decode(b.skip(n1 as int))->Ok_0.1;
        proof {
            crate::bin::lemma_uleb_parse_len(b.skip(n1 as int), 0);
            assert(b.skip(n1 as int).skip(n2 as int) =~= b.skip((n1 + n2) as int));
        }
        let ghost c = r.remaining();
        let height = match r.read::<F32Bits>() {
            Ok(x) => x,
            Err(e) => {
                return Err(e);
            },
        };
        assert(c.skip(0) =~= c);
        let has_speed = match r.read::<bool>() {
            Ok(x) => x,
            Err(e) => {
                return Err(e);
            },
        };
        assert(c.skip(4).skip(1) =~= c.skip(5));
        assert(c.skip(4).drop_first() =~= c.skip(5));
        let speed = if has_speed {
            match r.read::<F32Bits>() {
                Ok(x) => {
                    assert(c.skip(5).skip(4) =~= c.skip(9));
                    x
                },
                Err(e) => {
                    return Err(e);
                },
            }
        } else {
            F32Bits(F32_ONE_BITS)
        };
        let ghost k: nat = if has_speed {
            5
        } else {
            1
        };
        let ghost rest = c.skip((4 + k) as int);
        assert(r.remaining() == rest);
        let above = match r.read::<bool>() {
            Ok(x) => x,
            Err(e) => {
                return Err(e);
            },
        };
        let fake = match r.read::<bool>() {
            Ok(x) => x,
            Err(e) => {
                return Err(e);
            },
        };
        proof {
            assert(rest.skip(1).skip(1) =~= rest.skip(2));
            assert(rest.skip(1)[0] == rest[1]);
            assert(c.skip((4 + k) as int).skip(2) =~= c.skip((k + 6) as int));
            assert(b.skip((n1 + n2) as int).skip((k + 6) as int) =~= b.skip(
                (n1 + n2 + k + 6) as int,
            ));
            assert(rem.skip(n0 as int).skip((n1 + n2 + k + 6) as int) =~= rem.skip(
                (n0 + n1 + n2 + k + 6) as int,
            ));
        }
        Ok(Note { object, kind, time_ms, height, speed, above, fake })
    }

    fn write_binary(&self, w: &mut BinaryWriter) -> (res: Result<(), BinaryError>) {
        let _ = w.write(&self.object);
        let ghost t1 = w.time_ms();
        let ghost b = w.bytes();
        write_note_kind(w, self.kind);
        let ghost b1 = w.bytes();
        let _ = w.time_ms_delta(self.time_ms);
        let ghost b2 = w.bytes();
        let _ = w.write_val(self.height);
        let ghost b3 = w.bytes();
        if self.speed.0 == F32_ONE_BITS {
            let _ = w.write_val(false);
        } else {
            let _ = w.write_val(true);
            let _ = w.write_val(self.speed);
            assert(w.bytes() =~= b3 + speed_encode(self.speed));
        }
        assert(w.bytes() =~= b3 + speed_encode(self.speed));
        let ghost b4 = w.bytes();
        let _ = w.write_val(self.above);
        let _ = w.write_val(self.fake);
        proof {
            let v = self@;
            let e1 = note_kind_encode(v.kind);
            let e2 = uleb_encode((v.time_ms - t1) as nat);
            let e3 = u32_to_le(v.height.0);
            let e4 = speed_encode(v.speed);
            let e5 = bool::spec_encode(v.above, 0);
            let e6 = bool::spec_encode(v.fake, 0);
            assert(b1 == b + e1);
            assert(b2 == b1 + e2);
            assert(b3 == b2 + e3);
            assert(b4 == b3 + e4);
            assert(w.bytes() =~= b4 + e5 + e6);
            assert(w.bytes() =~= b2 + note_tail_encode(v));
            assert(w.bytes() =~= b + note_body_encode(v, t1));
            assert(w.bytes() =~= old(w).bytes() + Self::spec_encode(v, old(w).time_ms()));
        }
        Ok(())
    }
}

/// Reads a note kind.
fn read_note_kind(r: &mut BinaryReader) -> (res: Result<NoteKind, BinaryError>)
    ensures
        match note_kind_decode(old(r).remaining()) {
            Ok((k, n)) => res == Ok::<NoteKind, BinaryError>(k)
                && final(r).remaining() == old(r).remaining().skip(n as int)
                && final(r).time_ms() == old(r).time_ms(),
            Err(e) => res == Err::<NoteKind, BinaryError>(e),
        },
{
    let ghost rem = r.remaining();
    let b = match r.read::<u8>() {
        Ok(b) => b,
        Err(e) => {
            return Err(e);
        },
    };
    if b == 0 {
        Ok(NoteKind::Click)
    } else if b == 1 {
        let end_time = match r.read::<F32Bits>() {
            Ok(x) => x,
            Err(e) => {
                return Err(e);
            },
        };
        let end_height = match r.read::<F32Bits>() {
            Ok(x) => x,
            Err(e) => {
                return Err(e);
            },
        };
        proof {
            assert(rem.skip(1).skip(4) =~= rem.skip(5));
            assert(rem.skip(5).skip(4) =~= rem.skip(9));
        }
        Ok(NoteKind::Hold { end_time, end_height })
    } else if b == 2 {
        Ok(NoteKind::Flick)
    } else if b == 3 {
        Ok(NoteKind::Drag)
    } else {
        Err(BinaryError::InvalidNoteKind)
    }
}

/// Writes a note kind.
fn write_note_kind(w: &mut BinaryWriter, k: NoteKind)
    ensures
        final(w).bytes() == old(w).bytes() + note_kind_encode(k),
        final(w).time_ms() == old(w).time_ms(),
{
    match k {
        NoteKind::Click => {
            let _ = w.write_val(0u8);
        },
        NoteKind::Hold { end_time, end_height } => {
            let _ = w.write_val(1u8);
            let _ = w.write_val(end_time);
            let _ = w.write_val(end_height);
        },
        NoteKind::Flick => {
            let _ = w.write_val(2u8);
        },
        NoteKind::Drag => {
            let _ = w.write_val(3u8);
        },
    }
    assert(w.bytes() =~= old(w).bytes() + note_kind_encode(k));
}

} // verus!
