//! The animated objects of a chart: the transform of a judge line or a
//! note, and the controls that depend on a note's height, with their
//! binary encoding.

use vstd::prelude::*;
use crate::anim::{lemma_anim_timeless, Anim, SegmentView};
use crate::keyframe::KeyframeView;
use crate::bin::{
    all_wf, decode_seq, encode_seq, lemma_decode_seq_len, lemma_seq_roundtrip, seq_writable,
    seq_time_after, views_of, BinaryData, BinaryError, BinaryReader, BinaryWriter, F32Bits,
};

verus! {

broadcast use vstd::seq_lib::group_seq_properties;

/// An animated `f32`.
pub type AnimFloat = Anim<F32Bits>;

/// What an animated `f32` holds: its keyframe lists.
pub type AnimView = Seq<SegmentView<F32Bits>>;

/// An animated pair of `f32`s.
pub struct AnimVector(pub AnimFloat, pub AnimFloat);

/// The empty chain, as a view.
pub open spec fn empty_anim() -> AnimView {
    seq![Seq::<KeyframeView<F32Bits>>::empty()]
}

/// The animation of an object's coordinate system within its parent's.
pub struct Object {
    pub alpha: AnimFloat,
    pub scale: AnimVector,
    /// Rotation in degrees.
    pub rotation: AnimFloat,
    pub translation: AnimVector,
}

impl View for Object {
    /// The six animations in the order the format stores them: alpha,
    /// scale x and y, rotation, translation x and y.
    type V = Seq<AnimView>;

    open spec fn view(&self) -> Seq<AnimView> {
        seq![
            self.alpha@,
            self.scale.0@,
            self.scale.1@,
            self.rotation@,
            self.translation.0@,
            self.translation.1@,
        ]
    }
}

impl Object {
    /// An object whose six animations are all empty.
    pub fn new() -> (o: Self)
        ensures
            o@ == seq![empty_anim(), empty_anim(), empty_anim(), empty_anim(), empty_anim(), empty_anim()],
    {
        Object {
            alpha: Anim::default(),
            scale: AnimVector(Anim::default(), Anim::default()),
            rotation: Anim::default(),
            translation: AnimVector(Anim::default(), Anim::default()),
        }
    }

    /// Whether all six animations are empty.
    pub fn is_default(&self) -> (b: bool)
        ensures
            b == (forall|i: int| 0 <= i < 6 ==> #[trigger] self@[i] == empty_anim()),
    {
        let b = self.alpha.is_default() && self.scale.0.is_default() && self.scale.1.is_default()
            && self.rotation.is_default() && self.translation.0.is_default()
            && self.translation.1.is_default();
        proof {
            if !b {
                if !(self@[0] == empty_anim()) {
                } else if !(self@[1] == empty_anim()) {
                } else if !(self@[2] == empty_anim()) {
                } else if !(self@[3] == empty_anim()) {
                } else if !(self@[4] == empty_anim()) {
                } else {
                    assert(!(self@[5] == empty_anim()));
                }
            }
        }
        b
    }
}

impl BinaryData for Object {
    closed spec fn spec_wf(v: Seq<AnimView>) -> bool {
        v.len() == 6 && all_wf::<AnimFloat>(v)
    }

    closed spec fn spec_writable(v: Seq<AnimView>, t: u32) -> bool {
        seq_writable::<AnimFloat>(v, t)
    }

    /// The six animations, one after another.
    closed spec fn spec_encode(v: Seq<AnimView>, t: u32) -> Seq<u8> {
        encode_seq::<AnimFloat>(v, t)
    }

    closed spec fn spec_time_after(v: Seq<AnimView>, t: u32) -> u32 {
        seq_time_after::<AnimFloat>(v, t)
    }

    closed spec fn spec_decode(bytes: Seq<u8>, t: u32) -> Result<(Seq<AnimView>, nat, u32), BinaryError> {
        decode_seq::<AnimFloat>(bytes, 6, t)
    }

    proof fn lemma_decode_len(bytes: Seq<u8>, t: u32) {
        lemma_decode_seq_len::<AnimFloat>(bytes, 6, t);
    }

    proof fn lemma_roundtrip(v: Seq<AnimView>, t: u32, rest: Seq<u8>) {
        lemma_seq_roundtrip::<AnimFloat>(v, t, rest);
    }

    fn read_binary(r: &mut BinaryReader) -> (res: Result<Object, BinaryError>) {
        let mut v = match r.read_seq::<AnimFloat>(6) {
            Ok(v) => v,
            Err(e) => {
                return Err(e);
            },
        };
        let ghost vs = views_of(v@);
        proof {
            lemma_decode_seq_len::<AnimFloat>(old(r).remaining(), 6, old(r).time_ms());
            crate::bin::lemma_decode_seq_count::<AnimFloat>(old(r).remaining(), 6, old(r).time_ms());
            assert(v@.len() == 6);
        }
        let ghost items = v@;
        let ty = v.pop().unwrap();
        let tx = v.pop().unwrap();
        let rotation = v.pop().unwrap();
        let sy = v.pop().unwrap();
        let sx = v.pop().unwrap();
        let alpha = v.pop().unwrap();
        let o = Object {
            alpha,
            scale: AnimVector(sx, sy),
            rotation,
            translation: AnimVector(tx, ty),
        };
        proof {
            assert(alpha == items[0] && sx == items[1] && sy == items[2] && rotation == items[3]
                && tx == items[4] && ty == items[5]);
            assert(vs[0] == items[0]@ && vs[1] == items[1]@ && vs[2] == items[2]@ && vs[3]
                == items[3]@ && vs[4] == items[4]@ && vs[5] == items[5]@);
            assert(o@ =~= vs);
        }
        Ok(o)
    }

    fn write_binary(&self, w: &mut BinaryWriter) -> (res: Result<(), BinaryError>) {
        let ghost all = self@;
        let ghost t0 = w.time_ms();
        let ghost goal = old(w).bytes() + encode_seq::<AnimFloat>(all, t0);
        assert(all.skip(0) =~= all);
        w.write_step(&self.alpha, Ghost(all), Ghost(0), Ghost(goal));
        w.write_step(&self.scale.0, Ghost(all), Ghost(1), Ghost(goal));
        w.write_step(&self.scale.1, Ghost(all), Ghost(2), Ghost(goal));
        w.write_step(&self.rotation, Ghost(all), Ghost(3), Ghost(goal));
        w.write_step(&self.translation.0, Ghost(all), Ghost(4), Ghost(goal));
        w.write_step(&self.translation.1, Ghost(all), Ghost(5), Ghost(goal));
        proof {
            assert(all.skip(6) =~= Seq::<AnimView>::empty());
            assert(w.bytes() =~= goal);
        }
        Ok(())
    }
}

/// The animation of an object by the height of a note above its judge
/// line: alpha, size, position and y offset.
pub struct CtrlObject {
    pub alpha: AnimFloat,
    pub size: AnimFloat,
    pub pos: AnimFloat,
    pub y: AnimFloat,
}

impl View for CtrlObject {
    /// The four animations in the order the format stores them.
    type V = Seq<AnimView>;

    open spec fn view(&self) -> Seq<AnimView> {
        seq![self.alpha@, self.size@, self.pos@, self.y@]
    }
}

/// The tag byte that opens a control object.
pub const CTRL_OBJECT_TAG: u8 = 8;

impl BinaryData for CtrlObject {
    closed spec fn spec_wf(v: Seq<AnimView>) -> bool {
        v.len() == 4 && all_wf::<AnimFloat>(v)
    }

    closed spec fn spec_writable(v: Seq<AnimView>, t: u32) -> bool {
        seq_writable::<AnimFloat>(v, t)
    }

    /// The tag byte 8, then the four animations.
    closed spec fn spec_encode(v: Seq<AnimView>, t: u32) -> Seq<u8> {
        seq![CTRL_OBJECT_TAG] + encode_seq::<AnimFloat>(v, t)
    }

    closed spec fn spec_time_after(v: Seq<AnimView>, t: u32) -> u32 {
        seq_time_after::<AnimFloat>(v, t)
    }

    closed spec fn spec_decode(bytes: Seq<u8>, t: u32) -> Result<(Seq<AnimView>, nat, u32), BinaryError> {
        if bytes.len() == 0 {
            Err(BinaryError::UnexpectedEof)
        } else if bytes[0] != CTRL_OBJECT_TAG {
            Err(BinaryError::InvalidCtrlObject)
        } else {
            match decode_seq::<AnimFloat>(bytes.drop_first(), 4, t) {
                Ok((vs, n, t1)) => Ok((vs, n + 1, t1)),
                Err(e) => Err(e),
            }
        }
    }

    proof fn lemma_decode_len(bytes: Seq<u8>, t: u32) {
        if bytes.len() > 0 {
            lemma_decode_seq_len::<AnimFloat>(bytes.drop_first(), 4, t);
        }
    }

    proof fn lemma_roundtrip(v: Seq<AnimView>, t: u32, rest: Seq<u8>) {
        let bytes = seq![CTRL_OBJECT_TAG] + encode_seq::<AnimFloat>(v, t) + rest;
        assert(bytes.drop_first() =~= encode_seq::<AnimFloat>(v, t) + rest);
        lemma_seq_roundtrip::<AnimFloat>(v, t, rest);
    }

    fn read_binary(r: &mut BinaryReader) -> (res: Result<CtrlObject, BinaryError>) {
        let ghost rem = r.remaining();
        let tag = match r.read::<u8>() {
            Ok(b) => b,
            Err(e) => {
                return Err(e);
            },
        };
        if tag != CTRL_OBJECT_TAG {
            return Err(BinaryError::InvalidCtrlObject);
        }
        proof {
            assert(rem.skip(1) =~= rem.drop_first());
        }
        let mut v = match r.read_seq::<AnimFloat>(4) {
            Ok(v) => v,
            Err(e) => {
                return Err(e);
            },
        };
        let ghost vs = views_of(v@);
        proof {
            lemma_decode_seq_len::<AnimFloat>(rem.drop_first(), 4, old(r).time_ms());
            crate::bin::lemma_decode_seq_count::<AnimFloat>(rem.drop_first(), 4, old(r).time_ms());
            let n = decode_seq::<AnimFloat>(rem.drop_first(), 4, old(r).time_ms())->Ok_0.1;
            assert(rem.drop_first().skip(n as int) =~= rem.skip((n + 1) as int));
        }
        let ghost items = v@;
        let y = v.pop().unwrap();
        let pos = v.pop().unwrap();
        let size = v.pop().unwrap();
        let alpha = v.pop().unwrap();
        let c = CtrlObject { alpha, size, pos, y };
        proof {
            assert(alpha == items[0] && size == items[1] && pos == items[2] && y == items[3]);
            assert(vs[0] == items[0]@ && vs[1] == items[1]@ && vs[2] == items[2]@ && vs[3]
                == items[3]@);
            assert(c@ =~= vs);
        }
        Ok(c)
    }

    fn write_binary(&self, w: &mut BinaryWriter) -> (res: Result<(), BinaryError>) {
        let _ = w.write_val(CTRL_OBJECT_TAG);
        let ghost all = self@;
        let ghost t0 = w.time_ms();
        let ghost goal = w.bytes() + encode_seq::<AnimFloat>(all, t0);
        assert(all.skip(0) =~= all);
        w.write_step(&self.alpha, Ghost(all), Ghost(0), Ghost(goal));
        w.write_step(&self.size, Ghost(all), Ghost(1), Ghost(goal));
        w.write_step(&self.pos, Ghost(all), Ghost(2), Ghost(goal));
        w.write_step(&self.y, Ghost(all), Ghost(3), Ghost(goal));
        proof {
            assert(all.skip(4) =~= Seq::<AnimView>::empty());
            assert(w.bytes() =~= old(w).bytes() + Self::spec_encode(all, t0));
        }
        Ok(())
    }
}

/// A control object opens with the byte 8, and a reader refuses one that
/// opens with any other byte.
pub proof fn lemma_ctrl_object_tag(v: Seq<AnimView>, t: u32, b: u8, rest: Seq<u8>)
    ensures
        CtrlObject::spec_encode(v, t)[0] == 8u8,
        b != 8 ==> CtrlObject::spec_decode(seq![b] + rest, t) == Err::<(Seq<AnimView>, nat, u32), BinaryError>(
            BinaryError::InvalidCtrlObject,
        ),
{
    assert((seq![b] + rest)[0] == b);
}

/// The bytes of animations written one after another, and whether they
/// can be written, do not depend on the running time.
proof fn lemma_anims_timeless(vs: Seq<AnimView>, t1: u32, t2: u32)
    ensures
        encode_seq::<AnimFloat>(vs, t1) == encode_seq::<AnimFloat>(vs, t2),
        seq_writable::<AnimFloat>(vs, t1) == seq_writable::<AnimFloat>(vs, t2),
    decreases vs.len(),
{
    if vs.len() > 0 {
        lemma_anim_timeless::<F32Bits>(vs[0], t1, t2);
        lemma_anims_timeless(
            vs.drop_first(),
            AnimFloat::spec_time_after(vs[0], t1),
            AnimFloat::spec_time_after(vs[0], t2),
        );
    }
}

/// The bytes of an object, and whether it can be written, do not depend on
/// the running time.
pub proof fn lemma_object_timeless(v: Seq<AnimView>, t1: u32, t2: u32)
    ensures
        Object::spec_encode(v, t1) == Object::spec_encode(v, t2),
        Object::spec_writable(v, t1) == Object::spec_writable(v, t2),
{
    lemma_anims_timeless(v, t1, t2);
}

/// The bytes of a control object, and whether it can be written, do not
/// depend on the running time.
pub proof fn lemma_ctrl_object_timeless(v: Seq<AnimView>, t1: u32, t2: u32)
    ensures
        CtrlObject::spec_encode(v, t1) == CtrlObject::spec_encode(v, t2),
        CtrlObject::spec_writable(v, t1) == CtrlObject::spec_writable(v, t2),
{
    lemma_anims_timeless(v, t1, t2);
}

} // verus!
