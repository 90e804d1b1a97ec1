//! Judge lines as a chart file stores them, with their binary encoding.
//!
//! A line is stored as its object, its kind, its height animation, its
//! notes, its color animation, its parent, whether notes show below it, the
//! interface element it carries, its control object, its incline and its z
//! index. A reader starts each line from running time zero; a writer keeps
//! the running time it has.

use vstd::prelude::*;
use crate::anim::{lemma_anim_timeless, Anim, SegmentView};
use crate::bin::{
    all_wf, decode_array_at, decode_at, encode_array, i32_to_le, lemma_decode_array_at_roundtrip,
    lemma_decode_at_len, lemma_decode_at_roundtrip, lemma_uleb_at_roundtrip, seq_time_after, seq_writable, uleb_at,
    uleb_encode, views_of, BinaryData, BinaryError, BinaryReader, BinaryWriter, F32Bits,
};
use crate::note::{Note, NoteView};
use crate::object::{
    lemma_ctrl_object_timeless, lemma_object_timeless, AnimFloat, AnimView, CtrlObject, Object,
};

verus! {

/// An RGBA color, one byte per channel.
#[derive(Clone, Copy, Debug, PartialEq, Eq, Structural)]
pub struct Rgba8(pub u8, pub u8, pub u8, pub u8);

impl View for Rgba8 {
    type V = Rgba8;

    open spec fn view(&self) -> Rgba8 {
        *self
    }
}

impl BinaryData for Rgba8 {
    open spec fn spec_wf(v: Rgba8) -> bool {
        true
    }

    open spec fn spec_writable(v: Rgba8, t: u32) -> bool {
        true
    }

    /// Red, green, blue, alpha.
    open spec fn spec_encode(v: Rgba8, t: u32) -> Seq<u8> {
        seq![v.0, v.1, v.2, v.3]
    }

    open spec fn spec_time_after(v: Rgba8, t: u32) -> u32 {
        t
    }

    open spec fn spec_decode(bytes: Seq<u8>, t: u32) -> Result<(Rgba8, nat, u32), BinaryError> {
        if bytes.len() < 4 {
            Err(BinaryError::UnexpectedEof)
        } else {
            Ok((Rgba8(bytes[0], bytes[1], bytes[2], bytes[3]), 4, t))
        }
    }

    proof fn lemma_decode_len(bytes: Seq<u8>, t: u32) {
    }

    proof fn lemma_roundtrip(v: Rgba8, t: u32, rest: Seq<u8>) {
    }

    fn read_binary(r: &mut BinaryReader) -> (res: Result<Rgba8, BinaryError>) {
        let ghost rem = r.remaining();
        let red = match r.read::<u8>() {
            Ok(b) => b,
            Err(e) => {
                return Err(e);
            },
        };
        let green = match r.read::<u8>() {
            Ok(b) => b,
            Err(e) => {
                return Err(e);
            },
        };
        let blue = match r.read::<u8>() {
            Ok(b) => b,
            Err(e) => {
                return Err(e);
            },
        };
        let alpha = match r.read::<u8>() {
            Ok(b) => b,
            Err(e) => {
                return Err(e);
            },
        };
        proof {
            assert(rem.skip(1).skip(1) =~= rem.skip(2));
            assert(rem.skip(2).skip(1) =~= rem.skip(3));
            assert(rem.skip(3).skip(1) =~= rem.skip(4));
        }
        Ok(Rgba8(red, green, blue, alpha))
    }

    fn write_binary(&self, w: &mut BinaryWriter) -> (res: Result<(), BinaryError>) {
        let _ = w.write_val(self.0);
        let _ = w.write_val(self.1);
        let _ = w.write_val(self.2);
        let _ = w.write_val(self.3);
        assert(w.bytes() =~= old(w).bytes() + Self::spec_encode(*self, old(w).time_ms()));
        Ok(())
    }
}

/// A part of the in-game interface that a judge line can carry.
#[derive(Clone, Copy, Debug, PartialEq, Eq, Structural)]
pub enum UIElement {
    Bar,
    Pause,
    ComboNumber,
    Combo,
    Score,
    Name,
    Level,
}

/// The code of an interface element, from 1 (bar) to 7 (level).
pub open spec fn ui_code(e: UIElement) -> u8 {
    match e {
        UIElement::Bar => 1,
        UIElement::Pause => 2,
        UIElement::ComboNumber => 3,
        UIElement::Combo => 4,
        UIElement::Score => 5,
        UIElement::Name => 6,
        UIElement::Level => 7,
    }
}

/// The interface element of a code; none for 0 and codes above 7.
pub open spec fn ui_from_code(b: u8) -> Option<UIElement> {
    if b == 1 {
        Some(UIElement::Bar)
    } else if b == 2 {
        Some(UIElement::Pause)
    } else if b == 3 {
        Some(UIElement::ComboNumber)
    } else if b == 4 {
        Some(UIElement::Combo)
    } else if b == 5 {
        Some(UIElement::Score)
    } else if b == 6 {
        Some(UIElement::Name)
    } else if b == 7 {
        Some(UIElement::Level)
    } else {
        None
    }
}

/// The code stored for an optional interface element: 0 for none.
pub open spec fn ui_option_code(e: Option<UIElement>) -> u8 {
    match e {
        Some(x) => ui_code(x),
        None => 0,
    }
}

impl UIElement {
    /// The interface element of a code, if the code names one.
    pub fn from_u8(val: u8) -> (e: Option<Self>)
        ensures
            e == ui_from_code(val),
    {
        match val {
            1 => Some(UIElement::Bar),
            2 => Some(UIElement::Pause),
            3 => Some(UIElement::ComboNumber),
            4 => Some(UIElement::Combo),
            5 => Some(UIElement::Score),
            6 => Some(UIElement::Name),
            7 => Some(UIElement::Level),
            _ => None,
        }
    }

    /// The code of this interface element.
    pub fn to_u8(self) -> (b: u8)
        ensures
            b == ui_code(self),
    {
        match self {
            UIElement::Bar => 1,
            UIElement::Pause => 2,
            UIElement::ComboNumber => 3,
            UIElement::Combo => 4,
            UIElement::Score => 5,
            UIElement::Name => 6,
            UIElement::Level => 7,
        }
    }
}

/// Every interface element is found again from its code, and every code
/// that names an element is that element's code.
pub proof fn lemma_ui_code_roundtrip(e: UIElement, b: u8)
    ensures
        ui_from_code(ui_code(e)) == Some(e),
        ui_from_code(b) matches Some(x) ==> ui_code(x) == b,
        ui_from_code(b) is None <==> (b == 0 || b > 7),
{
}

/// What a judge line shows.
pub enum JudgeLineKind {
    /// A plain line.
    Normal,
    /// A texture, by path.
    Texture(String),
    /// Text that changes over time.
    Text(Anim<String>),
    /// Painted strokes, with an animated brush size.
    Paint(AnimFloat),
}

/// What the kind of a judge line holds.
pub enum JudgeLineKindView {
    Normal,
    Texture(Seq<char>),
    Text(Seq<SegmentView<Seq<char>>>),
    Paint(AnimView),
}

impl View for JudgeLineKind {
    type V = JudgeLineKindView;

    open spec fn view(&self) -> JudgeLineKindView {
        match self {
            JudgeLineKind::Normal => JudgeLineKindView::Normal,
            JudgeLineKind::Texture(p) => JudgeLineKindView::Texture(p@),
            JudgeLineKind::Text(a) => JudgeLineKindView::Text(a@),
            JudgeLineKind::Paint(a) => JudgeLineKindView::Paint(a@),
        }
    }
}

impl BinaryData for JudgeLineKind {
    open spec fn spec_wf(v: JudgeLineKindView) -> bool {
        match v {
            JudgeLineKindView::Normal => true,
            JudgeLineKindView::Texture(p) => String::spec_wf(p),
            JudgeLineKindView::Text(a) => Anim::<String>::spec_wf(a),
            JudgeLineKindView::Paint(a) => AnimFloat::spec_wf(a),
        }
    }

    open spec fn spec_writable(v: JudgeLineKindView, t: u32) -> bool {
        match v {
            JudgeLineKindView::Text(a) => Anim::<String>::spec_writable(a, t),
            JudgeLineKindView::Paint(a) => AnimFloat::spec_writable(a, t),
            _ => true,
        }
    }

    /// A tag byte (0 plain, 1 texture, 2 text, 3 paint), then the path, the
    /// text animation or the brush animation.
    open spec fn spec_encode(v: JudgeLineKindView, t: u32) -> Seq<u8> {
        match v {
            JudgeLineKindView::Normal => seq![0u8],
            JudgeLineKindView::Texture(p) => seq![1u8] + String::spec_encode(p, t),
            JudgeLineKindView::Text(a) => seq![2u8] + Anim::<String>::spec_encode(a, t),
            JudgeLineKindView::Paint(a) => seq![3u8] + AnimFloat::spec_encode(a, t),
        }
    }

    open spec fn spec_time_after(v: JudgeLineKindView, t: u32) -> u32 {
        match v {
            JudgeLineKindView::Text(a) => Anim::<String>::spec_time_after(a, t),
            JudgeLineKindView::Paint(a) => AnimFloat::spec_time_after(a, t),
            _ => t,
        }
    }

    open spec fn spec_decode(bytes: Seq<u8>, t: u32) -> Result<(JudgeLineKindView, nat, u32), BinaryError> {
        if bytes.len() == 0 {
            Err(BinaryError::UnexpectedEof)
        } else if bytes[0] == 0 {
            Ok((JudgeLineKindView::Normal, 1, t))
        } else if bytes[0] == 1 {
            match String::spec_decode(bytes.drop_first(), t) {
                Ok((p, n, t1)) => Ok((JudgeLineKindView::Texture(p), n + 1, t1)),
                Err(e) => Err(e),
            }
        } else if bytes[0] == 2 {
            match Anim::<String>::spec_decode(bytes.drop_first(), t) {
                Ok((a, n, t1)) => Ok((JudgeLineKindView::Text(a), n + 1, t1)),
                Err(e) => Err(e),
            }
        } else if bytes[0] == 3 {
            match AnimFloat::spec_decode(bytes.drop_first(), t) {
                Ok((a, n, t1)) => Ok((JudgeLineKindView::Paint(a), n + 1, t1)),
                Err(e) => Err(e),
            }
        } else {
            Err(BinaryError::InvalidLineKind)
        }
    }

    proof fn lemma_decode_len(bytes: Seq<u8>, t: u32) {
        if bytes.len() > 0 {
            String::lemma_decode_len(bytes.drop_first(), t);
            Anim::<String>::lemma_decode_len(bytes.drop_first(), t);
            AnimFloat::lemma_decode_len(bytes.drop_first(), t);
        }
    }

    proof fn lemma_roundtrip(v: JudgeLineKindView, t: u32, rest: Seq<u8>) {
        match v {
            JudgeLineKindView::Normal => {},
            JudgeLineKindView::Texture(p) => {
                let e = String::spec_encode(p, t);
                assert((seq![1u8] + e + rest).drop_first() =~= e + rest);
                String::lemma_roundtrip(p, t, rest);
            },
            JudgeLineKindView::Text(a) => {
                let e = Anim::<String>::spec_encode(a, t);
                assert((seq![2u8] + e + rest).drop_first() =~= e + rest);
                Anim::<String>::lemma_roundtrip(a, t, rest);
            },
            JudgeLineKindView::Paint(a) => {
                let e = AnimFloat::spec_encode(a, t);
                assert((seq![3u8] + e + rest).drop_first() =~= e + rest);
                AnimFloat::lemma_roundtrip(a, t, rest);
            },
        }
    }

    fn read_binary(r: &mut BinaryReader) -> (res: Result<JudgeLineKind, BinaryError>) {
        let ghost rem = r.remaining();
        let tag = match r.read::<u8>() {
            Ok(b) => b,
            Err(e) => {
                return Err(e);
            },
        };
        proof {
            assert(rem.skip(1) =~= rem.drop_first());
        }
        if tag == 0 {
            Ok(JudgeLineKind::Normal)
        } else if tag == 1 {
            let path = match r.read::<String>() {
                Ok(p) => p,
                Err(e) => {
                    return Err(e);
                },
            };
            proof {
                String::lemma_decode_len(rem.drop_first(), old(r).time_ms());
                let n = String::spec_decode(rem.drop_first(), old(r).time_ms())->Ok_0.1;
                assert(rem.drop_first().skip(n as int) =~= rem.skip((n + 1) as int));
            }
            Ok(JudgeLineKind::Texture(path))
        } else if tag == 2 {
            let text = match r.read::<Anim<String>>() {
                Ok(a) => a,
                Err(e) => {
                    return Err(e);
                },
            };
            proof {
                Anim::<String>::lemma_decode_len(rem.drop_first(), old(r).time_ms());
                let n = Anim::<String>::spec_decode(rem.drop_first(), old(r).time_ms())->Ok_0.1;
                assert(rem.drop_first().skip(n as int) =~= rem.skip((n + 1) as int));
            }
            Ok(JudgeLineKind::Text(text))
        } else if tag == 3 {
            let brush = match r.read::<AnimFloat>() {
                Ok(a) => a,
                Err(e) => {
                    return Err(e);
                },
            };
            proof {
                AnimFloat::lemma_decode_len(rem.drop_first(), old(r).time_ms());
                let n = AnimFloat::spec_decode(rem.drop_first(), old(r).time_ms())->Ok_0.1;
                assert(rem.drop_first().skip(n as int) =~= rem.skip((n + 1) as int));
            }
            Ok(JudgeLineKind::Paint(brush))
        } else {
            Err(BinaryError::InvalidLineKind)
        }
    }

    fn write_binary(&self, w: &mut BinaryWriter) -> (res: Result<(), BinaryError>) {
        match self {
            JudgeLineKind::Normal => {
                let _ = w.write_val(0u8);
            },
            JudgeLineKind::Texture(path) => {
                let _ = w.write_val(1u8);
                let _ = w.write(path);
            },
            JudgeLineKind::Text(text) => {
                let _ = w.write_val(2u8);
                let _ = w.write(text);
            },
            JudgeLineKind::Paint(brush) => {
                let _ = w.write_val(3u8);
                let _ = w.write(brush);
            },
        }
        assert(w.bytes() =~= old(w).bytes() + Self::spec_encode(self@, old(w).time_ms()));
        Ok(())
    }
}

/// A judge line's kind opens with its tag byte: 0 plain, 1 a texture,
/// 2 text, 3 paint. A reader takes a leading 0 as the plain kind and
/// refuses a tag above 3.
pub proof fn lemma_line_kind_tags(v: JudgeLineKindView, t: u32, rest: Seq<u8>, b: u8)
    ensures
        JudgeLineKind::spec_encode(v, t).len() >= 1,
        JudgeLineKind::spec_encode(v, t)[0] == match v {
            JudgeLineKindView::Normal => 0u8,
            JudgeLineKindView::Texture(_) => 1u8,
            JudgeLineKindView::Text(_) => 2u8,
            JudgeLineKindView::Paint(_) => 3u8,
        },
        JudgeLineKind::spec_decode(seq![0u8] + rest, t) == Ok::<(JudgeLineKindView, nat, u32), BinaryError>(
            (JudgeLineKindView::Normal, 1, t),
        ),
        b > 3 ==> JudgeLineKind::spec_decode(seq![b] + rest, t) is Err,
{
    assert((seq![0u8] + rest)[0] == 0u8);
    assert((seq![b] + rest)[0] == b);
}

/// The bytes of a line kind, and whether it can be written, do not depend
/// on the running time.
pub proof fn lemma_kind_timeless(v: JudgeLineKindView, t1: u32, t2: u32)
    ensures
        JudgeLineKind::spec_encode(v, t1) == JudgeLineKind::spec_encode(v, t2),
        JudgeLineKind::spec_writable(v, t1) == JudgeLineKind::spec_writable(v, t2),
{
    match v {
        JudgeLineKindView::Text(a) => {
            lemma_anim_timeless::<String>(a, t1, t2);
        },
        JudgeLineKindView::Paint(a) => {
            lemma_anim_timeless::<F32Bits>(a, t1, t2);
        },
        _ => {},
    }
}

/// A judge line as a chart file stores it.
pub struct JudgeLine {
    pub object: Object,
    pub ctrl_obj: CtrlObject,
    pub kind: JudgeLineKind,
    pub height: AnimFloat,
    pub incline: AnimFloat,
    pub notes: Vec<Note>,
    pub color: Anim<Rgba8>,
    /// The index of the parent line, if any.
    pub parent: Option<u64>,
    pub z_index: i32,
    /// Whether notes below the line are shown.
    pub show_below: bool,
    pub attach_ui: Option<UIElement>,
}

/// What a judge line holds.
pub struct JudgeLineView {
    pub object: Seq<AnimView>,
    pub ctrl_obj: Seq<AnimView>,
    pub kind: JudgeLineKindView,
    pub height: AnimView,
    pub incline: AnimView,
    pub notes: Seq<NoteView>,
    pub color: Seq<SegmentView<Rgba8>>,
    pub parent: Option<u64>,
    pub z_index: i32,
    pub show_below: bool,
    pub attach_ui: Option<UIElement>,
}

impl View for JudgeLine {
    type V = JudgeLineView;

    open spec fn view(&self) -> JudgeLineView {
        JudgeLineView {
            object: self.object@,
            ctrl_obj: self.ctrl_obj@,
            kind: self.kind@,
            height: self.height@,
            incline: self.incline@,
            notes: views_of(self.notes@),
            color: self.color@,
            parent: self.parent,
            z_index: self.z_index,
            show_below: self.show_below,
            attach_ui: self.attach_ui,
        }
    }
}

/// The number that stores a line's parent: 0 for none, else its index
/// plus one.
pub open spec fn parent_code(p: Option<u64>) -> nat {
    match p {
        Some(i) => (i + 1) as nat,
        None => 0,
    }
}

/// The parent a stored number names.
pub open spec fn parent_from_code(c: u64) -> Option<u64> {
    if c == 0 {
        None
    } else {
        Some((c - 1) as u64)
    }
}

/// The running time before the notes of a line written from running
/// time `t`: after its object, kind and height.
pub open spec fn line_time_before_notes(v: JudgeLineView, t: u32) -> u32 {
    let t1 = Object::spec_time_after(v.object, t);
    let t2 = JudgeLineKind::spec_time_after(v.kind, t1);
    AnimFloat::spec_time_after(v.height, t2)
}

/// The running time before the control object of a line written from
/// running time `t`: after its notes and color.
pub open spec fn line_time_before_ctrl(v: JudgeLineView, t: u32) -> u32 {
    let t4 = seq_time_after::<Note>(v.notes, line_time_before_notes(v, t));
    Anim::<Rgba8>::spec_time_after(v.color, t4)
}

/// The running time after a line written from running time `t`.
pub open spec fn line_time_after(v: JudgeLineView, t: u32) -> u32 {
    let t6 = CtrlObject::spec_time_after(v.ctrl_obj, line_time_before_ctrl(v, t));
    AnimFloat::spec_time_after(v.incline, t6)
}

/// The bytes of a line written from running time `t`: object, kind,
/// height, notes (an array), color, parent (uleb), show below, interface
/// element code, control object, incline, z index.
pub open spec fn line_encode(v: JudgeLineView, t: u32) -> Seq<u8> {
    let t1 = Object::spec_time_after(v.object, t);
    let t2 = JudgeLineKind::spec_time_after(v.kind, t1);
    let t3 = line_time_before_notes(v, t);
    let t4 = seq_time_after::<Note>(v.notes, t3);
    let t5 = line_time_before_ctrl(v, t);
    let t6 = CtrlObject::spec_time_after(v.ctrl_obj, t5);
    Object::spec_encode(v.object, t) + JudgeLineKind::spec_encode(v.kind, t1) + AnimFloat::spec_encode(
        v.height,
        t2,
    ) + encode_array::<Note>(v.notes, t3) + Anim::<Rgba8>::spec_encode(v.color, t4) + uleb_encode(
        parent_code(v.parent),
    ) + bool::spec_encode(v.show_below, t5) + seq![ui_option_code(v.attach_ui)]
        + CtrlObject::spec_encode(v.ctrl_obj, t5) + AnimFloat::spec_encode(v.incline, t6)
        + i32_to_le(v.z_index)
}

/// Whether a writer at running time `t` can write the line: the time
/// stamps of each part do not go back, and a parent index has a successor.
pub open spec fn line_writable(v: JudgeLineView, t: u32) -> bool {
    let t1 = Object::spec_time_after(v.object, t);
    let t2 = JudgeLineKind::spec_time_after(v.kind, t1);
    let t3 = line_time_before_notes(v, t);
    let t4 = seq_time_after::<Note>(v.notes, t3);
    let t5 = line_time_before_ctrl(v, t);
    let t6 = CtrlObject::spec_time_after(v.ctrl_obj, t5);
    &&& Object::spec_writable(v.object, t)
    &&& JudgeLineKind::spec_writable(v.kind, t1)
    &&& AnimFloat::spec_writable(v.height, t2)
    &&& seq_writable::<Note>(v.notes, t3)
    &&& Anim::<Rgba8>::spec_writable(v.color, t4)
    &&& (v.parent matches Some(i) ==> i < u64::MAX)
    &&& CtrlObject::spec_writable(v.ctrl_obj, t5)
    &&& AnimFloat::spec_writable(v.incline, t6)
}

/// Whether the line reads back as itself.
pub open spec fn line_wf(v: JudgeLineView) -> bool {
    &&& Object::spec_wf(v.object)
    &&& JudgeLineKind::spec_wf(v.kind)
    &&& AnimFloat::spec_wf(v.height)
    &&& all_wf::<Note>(v.notes)
    &&& v.notes.len() <= u64::MAX
    &&& Anim::<Rgba8>::spec_wf(v.color)
    &&& CtrlObject::spec_wf(v.ctrl_obj)
    &&& AnimFloat::spec_wf(v.incline)
}

/// The line at the front of `bytes`, read from running time zero, the
/// number of bytes it takes and the running time after it.
#[verifier::opaque]
pub open spec fn line_decode(bytes: Seq<u8>) -> Result<(JudgeLineView, nat, u32), BinaryError> {
    match decode_at::<Object>(bytes, 0, 0) {
        Err(e) => Err(e),
        Ok((object, p1, t1)) => match decode_at::<JudgeLineKind>(bytes, p1, t1) {
            Err(e) => Err(e),
            Ok((kind, p2, t2)) => match decode_at::<AnimFloat>(bytes, p2, t2) {
                Err(e) => Err(e),
                Ok((height, p3, t3)) => match decode_array_at::<Note>(bytes, p3, t3) {
                    Err(e) => Err(e),
                    Ok((notes, p4, t4)) => match decode_at::<Anim<Rgba8>>(bytes, p4, t4) {
                        Err(e) => Err(e),
                        Ok((color, p5, t5)) => match uleb_at(bytes, p5) {
                            Err(e) => Err(e),
                            Ok((code, p6)) => match decode_at::<bool>(bytes, p6, t5) {
                                Err(e) => Err(e),
                                Ok((show_below, p7, _)) => match decode_at::<u8>(bytes, p7, t5) {
                                    Err(e) => Err(e),
                                    Ok((ui, p8, _)) => match decode_at::<CtrlObject>(bytes, p8, t5) {
                                        Err(e) => Err(e),
                                        Ok((ctrl_obj, p9, t6)) => match decode_at::<AnimFloat>(
                                            bytes,
                                            p9,
                                            t6,
                                        ) {
                                            Err(e) => Err(e),
                                            Ok((incline, p10, t7)) => match decode_at::<i32>(
                                                bytes,
                                                p10,
                                                t7,
                                            ) {
                                                Err(e) => Err(e),
                                                Ok((z_index, p11, _)) => Ok(
                                                    (
                                                        JudgeLineView {
                                                            object,
                                                            ctrl_obj,
                                                            kind,
                                                            height,
                                                            incline,
                                                            notes,
                                                            color,
                                                            parent: parent_from_code(code),
                                                            z_index,
                                                            show_below,
                                                            attach_ui: ui_from_code(ui),
                                                        },
                                                        p11,
                                                        t7,
                                                    ),
                                                ),
                                            },
                                        },
                                    },
                                },
                            },
                        },
                    },
                },
            },
        },
    }
}

impl JudgeLine {
    /// Reads a line; the running time restarts from zero.
    #[verifier::rlimit(60)]
    pub fn read_binary(r: &mut BinaryReader) -> (res: Result<JudgeLine, BinaryError>)
        ensures
            match line_decode(old(r).remaining()) {
                Ok((v, n, t)) => res matches Ok(l) && l@ == v
                    && final(r).remaining() == old(r).remaining().skip(n as int)
                    && final(r).time_ms() == t,
                Err(e) => res is Err && res->Err_0 == e,
            },
    {
        reveal(line_decode);
        r.reset_time();
        let ghost all = r.remaining();
        assert(all.skip(0) =~= all);
        let object = match r.read_at::<Object>(Ghost(all), Ghost(0)) {
            Ok(x) => x,
            Err(e) => {
                return Err(e);
            },
        };
        let ghost p1 = decode_at::<Object>(all, 0, 0)->Ok_0.1;
        let kind = match r.read_at::<JudgeLineKind>(Ghost(all), Ghost(p1)) {
            Ok(x) => x,
            Err(e) => {
                return Err(e);
            },
        };
        let ghost p2 = decode_at::<JudgeLineKind>(all, p1, decode_at::<Object>(all, 0, 0)->Ok_0.2)->Ok_0.1;
        let height = match r.read_at::<AnimFloat>(Ghost(all), Ghost(p2)) {
            Ok(x) => x,
            Err(e) => {
                return Err(e);
            },
        };
        let ghost p3 = decode_at::<AnimFloat>(all, p2, decode_at::<JudgeLineKind>(all, p1, decode_at::<Object>(all, 0, 0)->Ok_0.2)->Ok_0.2)->Ok_0.1;
        let ghost t3 = r.time_ms();
        let notes = match r.array_at::<Note>(Ghost(all), Ghost(p3)) {
            Ok(x) => x,
            Err(e) => {
                return Err(e);
            },
        };
        let ghost p4 = decode_array_at::<Note>(all, p3, t3)->Ok_0.1;
        let ghost t4 = r.time_ms();
        let color = match r.read_at::<Anim<Rgba8>>(Ghost(all), Ghost(p4)) {
            Ok(x) => x,
            Err(e) => {
                return Err(e);
            },
        };
        let ghost p5 = decode_at::<Anim<Rgba8>>(all, p4, t4)->Ok_0.1;
        let ghost t5 = r.time_ms();
        let code = match r.uleb_at(Ghost(all), Ghost(p5)) {
            Ok(x) => x,
            Err(e) => {
                return Err(e);
            },
        };
        let ghost p6 = uleb_at(all, p5)->Ok_0.1;
        let show_below = match r.read_at::<bool>(Ghost(all), Ghost(p6)) {
            Ok(x) => x,
            Err(e) => {
                return Err(e);
            },
        };
        let ghost p7 = decode_at::<bool>(all, p6, t5)->Ok_0.1;
        let ui = match r.read_at::<u8>(Ghost(all), Ghost(p7)) {
            Ok(x) => x,
            Err(e) => {
                return Err(e);
            },
        };
        let ghost p8 = decode_at::<u8>(all, p7, t5)->Ok_0.1;
        let ctrl_obj = match r.read_at::<CtrlObject>(Ghost(all), Ghost(p8)) {
            Ok(x) => x,
            Err(e) => {
                return Err(e);
            },
        };
        let ghost p9 = decode_at::<CtrlObject>(all, p8, t5)->Ok_0.1;
        let ghost t6 = r.time_ms();
        let incline = match r.read_at::<AnimFloat>(Ghost(all), Ghost(p9)) {
            Ok(x) => x,
            Err(e) => {
                return Err(e);
            },
        };
        let ghost p10 = decode_at::<AnimFloat>(all, p9, t6)->Ok_0.1;
        let ghost t7 = r.time_ms();
        let z_index = match r.read_at::<i32>(Ghost(all), Ghost(p10)) {
            Ok(x) => x,
            Err(e) => {
                return Err(e);
            },
        };
        let parent: Option<u64> = if code == 0 {
            None
        } else {
            Some(code - 1)
        };
        let attach_ui = UIElement::from_u8(ui);
        Ok(JudgeLine {
            object,
            ctrl_obj,
            kind,
            height,
            incline,
            notes,
            color,
            parent,
            z_index,
            show_below,
            attach_ui,
        })
    }

    /// Writes the line from the writer's running time.
    #[verifier::rlimit(40)]
    pub fn write_binary(&self, w: &mut BinaryWriter) -> (res: Result<(), BinaryError>)
        requires
            line_writable(self@, old(w).time_ms()),
        ensures
            res is Ok,
            final(w).bytes() == old(w).bytes() + line_encode(self@, old(w).time_ms()),
            final(w).time_ms() == line_time_after(self@, old(w).time_ms()),
    {
        let ghost v = self@;
        let ghost t = w.time_ms();
        let ghost b0 = w.bytes();
        let _ = w.write(&self.object);
        let ghost p1 = Object::spec_encode(v.object, t);
        let ghost t1 = w.time_ms();
        let _ = w.write(&self.kind);
        let ghost p2 = p1 + JudgeLineKind::spec_encode(v.kind, t1);
        assert(w.bytes() =~= b0 + p2);
        let ghost t2 = w.time_ms();
        let _ = w.write(&self.height);
        let ghost p3 = p2 + AnimFloat::spec_encode(v.height, t2);
        assert(w.bytes() =~= b0 + p3);
        let ghost t3 = w.time_ms();
        let _ = w.array(self.notes.as_slice());
        let ghost p4 = p3 + encode_array::<Note>(v.notes, t3);
        assert(w.bytes() =~= b0 + p4);
        let ghost t4 = w.time_ms();
        let _ = w.write(&self.color);
        let ghost p5 = p4 + Anim::<Rgba8>::spec_encode(v.color, t4);
        assert(w.bytes() =~= b0 + p5);
        let ghost t5 = w.time_ms();
        let code: u64 = match self.parent {
            None => 0,
            Some(i) => i + 1,
        };
        let _ = w.uleb(code);
        let ghost p6 = p5 + uleb_encode(parent_code(v.parent));
        assert(w.bytes() =~= b0 + p6);
        let _ = w.write_val(self.show_below);
        let ghost p7 = p6 + bool::spec_encode(v.show_below, t5);
        assert(w.bytes() =~= b0 + p7);
        let ui: u8 = match self.attach_ui {
            Some(e) => e.to_u8(),
            None => 0,
        };
        let _ = w.write_val(ui);
        let ghost p8 = p7 + seq![ui_option_code(v.attach_ui)];
        assert(w.bytes() =~= b0 + p8);
        let _ = w.write(&self.ctrl_obj);
        let ghost p9 = p8 + CtrlObject::spec_encode(v.ctrl_obj, t5);
        assert(w.bytes() =~= b0 + p9);
        let ghost t6 = w.time_ms();
        let _ = w.write(&self.incline);
        let ghost p10 = p9 + AnimFloat::spec_encode(v.incline, t6);
        assert(w.bytes() =~= b0 + p10);
        let _ = w.write_val(self.z_index);
        let ghost p11 = p10 + i32_to_le(v.z_index);
        assert(w.bytes() =~= b0 + p11);
        assert(p11 == line_encode(v, t));
        Ok(())
    }
}

/// The bytes of a line, whether it can be written and the running time it
/// leaves do not depend on the writer's running time at its start, as long
/// as the running time before its notes does not.
pub proof fn lemma_line_timeless(v: JudgeLineView, t: u32)
    requires
        line_time_before_notes(v, t) == line_time_before_notes(v, 0),
    ensures
        line_encode(v, t) == line_encode(v, 0),
        line_writable(v, t) == line_writable(v, 0),
        line_time_after(v, t) == line_time_after(v, 0),
{
    lemma_object_timeless(v.object, t, 0);
    let t1 = Object::spec_time_after(v.object, t);
    let s1 = Object::spec_time_after(v.object, 0);
    lemma_kind_timeless(v.kind, t1, s1);
    let t2 = JudgeLineKind::spec_time_after(v.kind, t1);
    let s2 = JudgeLineKind::spec_time_after(v.kind, s1);
    lemma_anim_timeless::<F32Bits>(v.height, t2, s2);
    let t4 = seq_time_after::<Note>(v.notes, line_time_before_notes(v, t));
    lemma_anim_timeless::<Rgba8>(v.color, t4, t4);
    let t5 = line_time_before_ctrl(v, t);
    lemma_ctrl_object_timeless(v.ctrl_obj, t5, t5);
}

/// A line written from running time zero reads back as itself.
#[verifier::rlimit(60)]
proof fn lemma_line_roundtrip_zero(v: JudgeLineView, rest: Seq<u8>)
    requires
        line_wf(v),
        line_writable(v, 0),
    ensures
        line_decode(line_encode(v, 0) + rest) == Ok::<(JudgeLineView, nat, u32), BinaryError>(
            (v, line_encode(v, 0).len(), line_time_after(v, 0)),
        ),
{
    reveal(line_decode);
    let t0 = 0u32;
    let t1 = Object::spec_time_after(v.object, t0);
    let t2 = JudgeLineKind::spec_time_after(v.kind, t1);
    let t3 = line_time_before_notes(v, t0);
    let t4 = seq_time_after::<Note>(v.notes, t3);
    let t5 = line_time_before_ctrl(v, t0);
    let t6 = CtrlObject::spec_time_after(v.ctrl_obj, t5);
    let t7 = line_time_after(v, t0);
    let code = parent_code(v.parent) as u64;
    let ui = ui_option_code(v.attach_ui);
    let e1 = Object::spec_encode(v.object, t0);
    let e2 = JudgeLineKind::spec_encode(v.kind, t1);
    let e3 = AnimFloat::spec_encode(v.height, t2);
    let e4 = encode_array::<Note>(v.notes, t3);
    let e5 = Anim::<Rgba8>::spec_encode(v.color, t4);
    let e6 = uleb_encode(code as nat);
    let e7 = bool::spec_encode(v.show_below, t5);
    let e8 = u8::spec_encode(ui, t5);
    let e9 = CtrlObject::spec_encode(v.ctrl_obj, t5);
    let e10 = AnimFloat::spec_encode(v.incline, t6);
    let e11 = i32::spec_encode(v.z_index, t7);
    let p0 = Seq::<u8>::empty();
    let p1 = e1;
    let p2 = p1 + e2;
    let p3 = p2 + e3;
    let p4 = p3 + e4;
    let p5 = p4 + e5;
    let p6 = p5 + e6;
    let p7 = p6 + e7;
    let p8 = p7 + e8;
    let p9 = p8 + e9;
    let p10 = p9 + e10;
    let p11 = p10 + e11;
    assert(p11 == line_encode(v, 0));
    let bytes = p11 + rest;
    let r11 = rest;
    let r10 = e11 + r11;
    let r9 = e10 + r10;
    let r8 = e9 + r9;
    let r7 = e8 + r8;
    let r6 = e7 + r7;
    let r5 = e6 + r6;
    let r4 = e5 + r5;
    let r3 = e4 + r4;
    let r2 = e3 + r3;
    let r1 = e2 + r2;
    assert(p10 + r10 =~= bytes);
    assert(p9 + r9 =~= p10 + r10);
    assert(p8 + r8 =~= p9 + r9);
    assert(p7 + r7 =~= p8 + r8);
    assert(p6 + r6 =~= p7 + r7);
    assert(p5 + r5 =~= p6 + r6);
    assert(p4 + r4 =~= p5 + r5);
    assert(p3 + r3 =~= p4 + r4);
    assert(p2 + r2 =~= p3 + r3);
    assert(p1 + r1 =~= p2 + r2);
    assert(p0 + e1 + r1 =~= p1 + r1);
    lemma_decode_at_roundtrip::<Object>(p0, v.object, t0, r1);
    lemma_decode_at_roundtrip::<JudgeLineKind>(p1, v.kind, t1, r2);
    lemma_decode_at_roundtrip::<AnimFloat>(p2, v.height, t2, r3);
    lemma_decode_array_at_roundtrip::<Note>(p3, v.notes, t3, r4);
    lemma_decode_at_roundtrip::<Anim<Rgba8>>(p4, v.color, t4, r5);
    lemma_uleb_at_roundtrip(p5, code, r6);
    lemma_decode_at_roundtrip::<bool>(p6, v.show_below, t5, r7);
    lemma_decode_at_roundtrip::<u8>(p7, ui, t5, r8);
    lemma_decode_at_roundtrip::<CtrlObject>(p8, v.ctrl_obj, t5, r9);
    lemma_decode_at_roundtrip::<AnimFloat>(p9, v.incline, t6, r10);
    lemma_decode_at_roundtrip::<i32>(p10, v.z_index, t7, r11);
    assert(parent_from_code(code) == v.parent);
    match v.attach_ui {
        Some(x) => {
            lemma_ui_code_roundtrip(x, ui);
        },
        None => {},
    }
    assert(ui_from_code(ui) == v.attach_ui);
    let w = JudgeLineView {
        object: v.object,
        ctrl_obj: v.ctrl_obj,
        kind: v.kind,
        height: v.height,
        incline: v.incline,
        notes: v.notes,
        color: v.color,
        parent: parent_from_code(code),
        z_index: v.z_index,
        show_below: v.show_below,
        attach_ui: ui_from_code(ui),
    };
    assert(w == v);
}

/// A line is read back as it was written whenever the running time before
/// its notes does not depend on the writer's running time at its start,
/// as when the line is the first one written or its object, kind or
/// height holds a keyframe: the reader starts each line from time zero,
/// the writer does not.
pub proof fn lemma_line_roundtrip(v: JudgeLineView, t: u32, rest: Seq<u8>)
    requires
        line_wf(v),
        line_writable(v, t),
        line_time_before_notes(v, t) == line_time_before_notes(v, 0),
    ensures
        line_decode(line_encode(v, t) + rest) == Ok::<(JudgeLineView, nat, u32), BinaryError>(
            (v, line_encode(v, t).len(), line_time_after(v, t)),
        ),
{
    lemma_line_timeless(v, t);
    lemma_line_roundtrip_zero(v, rest);
}

/// A decoded line takes at least one of the bytes there are.
pub proof fn lemma_line_decode_len(bytes: Seq<u8>)
    ensures
        line_decode(bytes) matches Ok((_, n, _)) ==> 1 <= n <= bytes.len(),
{
    reveal(line_decode);
    Object::lemma_decode_len(bytes, 0);
    match decode_at::<Object>(bytes, 0, 0) {
        Ok((object, p1, t1)) => {
            assert(bytes.skip(0) =~= bytes);
            lemma_decode_at_len::<JudgeLineKind>(bytes, p1, t1);
            match decode_at::<JudgeLineKind>(bytes, p1, t1) {
                Ok((kind, p2, t2)) => {
                    lemma_decode_at_len::<AnimFloat>(bytes, p2, t2);
                    match decode_at::<AnimFloat>(bytes, p2, t2) {
                        Ok((height, p3, t3)) => {
                            crate::bin::lemma_decode_array_at_len::<Note>(bytes, p3, t3);
                            match decode_array_at::<Note>(bytes, p3, t3) {
                                Ok((notes, p4, t4)) => {
                                    lemma_decode_at_len::<Anim<Rgba8>>(bytes, p4, t4);
                                    match decode_at::<Anim<Rgba8>>(bytes, p4, t4) {
                                        Ok((color, p5, t5)) => {
                                            crate::bin::lemma_uleb_at_len(bytes, p5);
                                            match uleb_at(bytes, p5) {
                                                Ok((code, p6)) => {
                                                    lemma_decode_at_len::<bool>(bytes, p6, t5);
                                                    match decode_at::<bool>(bytes, p6, t5) {
                                                        Ok((sb, p7, _)) => {
                                                            lemma_decode_at_len::<u8>(bytes, p7, t5);
                                                            match decode_at::<u8>(bytes, p7, t5) {
                                                                Ok((ui, p8, _)) => {
                                                                    lemma_decode_at_len::<CtrlObject>(bytes, p8, t5);
                                                                    match decode_at::<CtrlObject>(bytes, p8, t5) {
                                                                        Ok((c, p9, t6)) => {
                                                                            lemma_decode_at_len::<AnimFloat>(bytes, p9, t6);
                                                                            match decode_at::<AnimFloat>(bytes, p9, t6) {
                                                                                Ok((inc, p10, t7)) => {
                                                                                    lemma_decode_at_len::<i32>(bytes, p10, t7);
                                                                                },
                                                                                Err(e) => {},
                                                                            }
                                                                        },
                                                                        Err(e) => {},
                                                                    }
                                                                },
                                                                Err(e) => {},
                                                            }
                                                        },
                                                        Err(e) => {},
                                                    }
                                                },
                                                Err(e) => {},
                                            }
                                        },
                                        Err(e) => {},
                                    }
                                },
                                Err(e) => {},
                            }
                        },
                        Err(e) => {},
                    }
                },
                Err(e) => {},
            }
        },
        Err(e) => {},
    }
}

} // verus!
