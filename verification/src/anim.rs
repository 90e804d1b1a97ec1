//! Chains of keyframe lists, with their binary encoding.
//!
//! An animation is a chain of keyframe lists whose values add up. In the
//! binary format each list is announced by a flag byte (1: an empty list,
//! 2 or more: a uleb count and the keyframes), and a 0 byte ends the chain.
//! Keyframe times are stored as deltas; the running time starts from zero
//! at each list.

use vstd::prelude::*;
use crate::bin::{
    all_wf, decode_array, encode_array, lemma_array_roundtrip, lemma_decode_array_len,
    seq_writable, seq_time_after, views_of, BinaryData, BinaryError, BinaryReader, BinaryWriter,
};
use crate::keyframe::{Keyframe, KeyframeView, TweenCode};

verus! {

broadcast use vstd::seq_lib::group_seq_properties;

/// A chain of keyframe lists; the value of the chain at a point in time is
/// the sum of the values of its lists.
pub struct Anim<T> {
    pub keyframes: Vec<Keyframe<T>>,
    /// The rest of the chain.
    pub next: Option<Box<Anim<T>>>,
}

/// A list of keyframes, as views.
pub type SegmentView<V> = Seq<KeyframeView<V>>;

/// The keyframe lists of the chain that starts at `a`, first to last.
pub open spec fn anim_segments<T: View>(a: Anim<T>) -> Seq<SegmentView<T::V>>
    decreases a,
{
    seq![views_of(a.keyframes@)] + chain_segments::<T>(a.next)
}

/// The keyframe lists of the chain `c`, first to last.
pub open spec fn chain_segments<T: View>(c: Option<Box<Anim<T>>>) -> Seq<SegmentView<T::V>>
    decreases c,
{
    match c {
        Some(b) => anim_segments::<T>(*b),
        None => Seq::empty(),
    }
}

impl<T: View> View for Anim<T> {
    type V = Seq<SegmentView<T::V>>;

    open spec fn view(&self) -> Seq<SegmentView<T::V>> {
        anim_segments::<T>(*self)
    }
}

/// The views of the keyframe lists in `segs`.
pub open spec fn seg_views<T: View>(segs: Seq<Vec<Keyframe<T>>>) -> Seq<SegmentView<T::V>> {
    segs.map_values(|v: Vec<Keyframe<T>>| views_of(v@))
}

/// The bytes of one keyframe list: 1 for an empty list; else 2, the uleb
/// count and the keyframes, timed from zero.
pub open spec fn segment_encode<T: BinaryData>(seg: SegmentView<T::V>) -> Seq<u8> {
    if seg.len() == 0 {
        seq![1u8]
    } else {
        seq![2u8] + encode_array::<Keyframe<T>>(seg, 0)
    }
}

/// The bytes of a chain of keyframe lists: the lists, then a 0 byte.
pub open spec fn segments_encode<T: BinaryData>(segs: Seq<SegmentView<T::V>>) -> Seq<u8>
    decreases segs.len(),
{
    if segs.len() == 0 {
        seq![0u8]
    } else {
        segment_encode::<T>(segs[0]) + segments_encode::<T>(segs.drop_first())
    }
}

/// The running time after one keyframe list: unchanged by an empty list,
/// else that after its keyframes timed from zero.
pub open spec fn segment_time_after<T: BinaryData>(seg: SegmentView<T::V>, t: u32) -> u32 {
    if seg.len() == 0 {
        t
    } else {
        seq_time_after::<Keyframe<T>>(seg, 0)
    }
}

/// The running time after a chain of keyframe lists.
pub open spec fn segments_time_after<T: BinaryData>(segs: Seq<SegmentView<T::V>>, t: u32) -> u32
    decreases segs.len(),
{
    if segs.len() == 0 {
        t
    } else {
        segments_time_after::<T>(segs.drop_first(), segment_time_after::<T>(segs[0], t))
    }
}

/// Whether a list can be written: its keyframes are in time order from
/// zero.
pub open spec fn segment_writable<T: BinaryData>(seg: SegmentView<T::V>) -> bool {
    seq_writable::<Keyframe<T>>(seg, 0)
}

/// Whether a keyframe list reads back as itself.
pub open spec fn segment_wf<T: BinaryData>(seg: SegmentView<T::V>) -> bool {
    seg.len() <= u64::MAX && all_wf::<Keyframe<T>>(seg)
}

/// The keyframe lists at the front of `bytes` up to the closing 0 byte,
/// the number of bytes they take and the running time after them.
#[verifier::opaque]
pub open spec fn segments_decode<T: BinaryData>(bytes: Seq<u8>, t: u32) -> Result<
    (Seq<SegmentView<T::V>>, nat, u32),
    BinaryError,
>
    decreases bytes.len(),
{
    if bytes.len() == 0 {
        Err(BinaryError::UnexpectedEof)
    } else if bytes[0] == 0 {
        Ok((Seq::empty(), 1, t))
    } else if bytes[0] == 1 {
        match segments_decode::<T>(bytes.drop_first(), t) {
            Ok((segs, n, t1)) => Ok((seq![Seq::empty()] + segs, n + 1, t1)),
            Err(e) => Err(e),
        }
    } else {
        match decode_array::<Keyframe<T>>(bytes.drop_first(), 0) {
            Ok((kfs, n, t1)) => if kfs.len() == 0 {
                Err(BinaryError::InvalidAnim)
            } else {
                proof {
                    lemma_decode_array_len::<Keyframe<T>>(bytes.drop_first(), 0);
                }
                match segments_decode::<T>(bytes.drop_first().skip(n as int), t1) {
                    Ok((segs, m, t2)) => Ok((seq![kfs] + segs, n + m + 1, t2)),
                    Err(e) => Err(e),
                }
            },
            Err(e) => Err(e),
        }
    }
}

/// Moves a decode result of the tail of a chain to the whole chain, given
/// the lists `pre` before the tail and the bytes `used` for them.
pub open spec fn segs_shift<T: BinaryData>(
    r: Result<(Seq<SegmentView<T::V>>, nat, u32), BinaryError>,
    pre: Seq<SegmentView<T::V>>,
    used: nat,
) -> Result<(Seq<SegmentView<T::V>>, nat, u32), BinaryError> {
    match r {
        Ok((segs, n, t)) => Ok((pre + segs, used + n, t)),
        Err(e) => Err(e),
    }
}

/// A decoded chain takes at least one of the bytes there are.
pub proof fn lemma_segments_decode_len<T: BinaryData>(bytes: Seq<u8>, t: u32)
    ensures
        segments_decode::<T>(bytes, t) matches Ok((_, n, _)) ==> 1 <= n <= bytes.len(),
    decreases bytes.len(),
{
    reveal(segments_decode);
    if bytes.len() > 0 && bytes[0] != 0 {
        if bytes[0] == 1 {
            lemma_segments_decode_len::<T>(bytes.drop_first(), t);
        } else {
            lemma_decode_array_len::<Keyframe<T>>(bytes.drop_first(), 0);
            match decode_array::<Keyframe<T>>(bytes.drop_first(), 0) {
                Ok((kfs, n, t1)) => {
                    lemma_segments_decode_len::<T>(bytes.drop_first().skip(n as int), t1);
                },
                Err(e) => {},
            }
        }
    }
}

/// How a chain decodes when it starts with a list of keyframes whose
/// array decodes.
proof fn lemma_segments_decode_keyframes<T: BinaryData>(
    bytes: Seq<u8>,
    t: u32,
    kfs: SegmentView<T::V>,
    n: nat,
    t1: u32,
)
    requires
        bytes.len() > 0,
        bytes[0] >= 2,
        kfs.len() > 0,
        decode_array::<Keyframe<T>>(bytes.drop_first(), 0) == Ok::<
            (SegmentView<T::V>, nat, u32),
            BinaryError,
        >((kfs, n, t1)),
    ensures
        segments_decode::<T>(bytes, t) == segs_shift::<T>(
            segments_decode::<T>(bytes.drop_first().skip(n as int), t1),
            seq![kfs],
            n + 1,
        ),
{
    reveal(segments_decode);
    match segments_decode::<T>(bytes.drop_first().skip(n as int), t1) {
        Ok((s, m, t2)) => {
            assert(n + m + 1 == (n + 1) + m);
        },
        Err(e) => {},
    }
}

/// One keyframe list is read back from its encoding, in front of the rest
/// of a chain.
proof fn lemma_segment_roundtrip<T: BinaryData>(seg: SegmentView<T::V>, t: u32, tail: Seq<u8>)
    requires
        segment_wf::<T>(seg),
        segment_writable::<T>(seg),
    ensures
        segments_decode::<T>(segment_encode::<T>(seg) + tail, t) == segs_shift::<T>(
            segments_decode::<T>(tail, segment_time_after::<T>(seg, t)),
            seq![seg],
            segment_encode::<T>(seg).len(),
        ),
{
    let bytes = segment_encode::<T>(seg) + tail;
    if seg.len() == 0 {
        assert(bytes.drop_first() =~= tail);
        assert(seg =~= Seq::<KeyframeView<T::V>>::empty());
        reveal(segments_decode);
        match segments_decode::<T>(tail, t) {
            Ok((s, m, t2)) => {
                assert(Seq::<SegmentView<T::V>>::empty() + (seq![seg] + s) =~= seq![seg] + s);
            },
            Err(e) => {},
        }
    } else {
        let arr = encode_array::<Keyframe<T>>(seg, 0);
        assert(bytes =~= seq![2u8] + (arr + tail));
        assert(bytes.drop_first() =~= arr + tail);
        lemma_array_roundtrip::<Keyframe<T>>(seg, 0, tail);
        assert(bytes.drop_first().skip(arr.len() as int) =~= tail);
        lemma_segments_decode_keyframes::<T>(
            bytes,
            t,
            seg,
            arr.len(),
            seq_time_after::<Keyframe<T>>(seg, 0),
        );
    }
}

/// A chain of keyframe lists is read back from its encoding, whatever
/// follows it.
pub proof fn lemma_segments_roundtrip<T: BinaryData>(
    segs: Seq<SegmentView<T::V>>,
    t: u32,
    rest: Seq<u8>,
)
    requires
        forall|i: int| 0 <= i < segs.len() ==> segment_wf::<T>(#[trigger] segs[i]),
        forall|i: int| 0 <= i < segs.len() ==> segment_writable::<T>(#[trigger] segs[i]),
    ensures
        segments_decode::<T>(segments_encode::<T>(segs) + rest, t) == Ok::<
            (Seq<SegmentView<T::V>>, nat, u32),
            BinaryError,
        >((segs, segments_encode::<T>(segs).len(), segments_time_after::<T>(segs, t))),
    decreases segs.len(),
{
    let bytes = segments_encode::<T>(segs) + rest;
    if segs.len() > 0 {
        let seg = segs[0];
        let tail = segs.drop_first();
        let tail_bytes = segments_encode::<T>(tail) + rest;
        let t1 = segment_time_after::<T>(seg, t);
        assert forall|i: int| 0 <= i < tail.len() implies segment_wf::<T>(#[trigger] tail[i])
            && segment_writable::<T>(tail[i]) by {
            assert(tail[i] == segs[i + 1]);
        };
        lemma_segments_roundtrip::<T>(tail, t1, rest);
        let se = segment_encode::<T>(seg);
        assert(segments_encode::<T>(segs) == se + segments_encode::<T>(tail));
        assert(bytes =~= se + tail_bytes);
        lemma_segment_roundtrip::<T>(seg, t, tail_bytes);
        assert(seq![seg] + tail =~= segs);
        assert(segments_time_after::<T>(segs, t) == segments_time_after::<T>(tail, t1));
        assert(segments_encode::<T>(segs).len() == se.len() + segments_encode::<T>(tail).len());
    } else {
        reveal(segments_decode);
        assert(bytes[0] == 0);
    }
}

/// Reading an empty keyframe list (flag 1) during a chain.
proof fn lemma_chain_step_empty<T: BinaryData>(
    rem0: Seq<u8>,
    t0: u32,
    cur: Seq<u8>,
    tc: u32,
    pre: Seq<SegmentView<T::V>>,
    used: nat,
)
    requires
        cur.len() > 0,
        cur[0] == 1,
        segments_decode::<T>(rem0, t0) == segs_shift::<T>(segments_decode::<T>(cur, tc), pre, used),
    ensures
        segments_decode::<T>(rem0, t0) == segs_shift::<T>(
            segments_decode::<T>(cur.drop_first(), tc),
            pre.push(Seq::empty()),
            used + 1,
        ),
{
    reveal(segments_decode);
    let e = Seq::<KeyframeView<T::V>>::empty();
    match segments_decode::<T>(cur.drop_first(), tc) {
        Ok((s, n, t1)) => {
            assert(pre + (seq![e] + s) =~= pre.push(e) + s);
        },
        Err(err) => {},
    }
}

/// Reading a keyframe list (flag 2 or more) during a chain.
proof fn lemma_chain_step_keyframes<T: BinaryData>(
    rem0: Seq<u8>,
    t0: u32,
    cur: Seq<u8>,
    tc: u32,
    pre: Seq<SegmentView<T::V>>,
    used: nat,
)
    requires
        cur.len() > 0,
        cur[0] >= 2,
        segments_decode::<T>(rem0, t0) == segs_shift::<T>(segments_decode::<T>(cur, tc), pre, used),
    ensures
        decode_array::<Keyframe<T>>(cur.drop_first(), 0) matches Err(e) ==> segments_decode::<T>(
            rem0,
            t0,
        ) == Err::<(Seq<SegmentView<T::V>>, nat, u32), BinaryError>(e),
        decode_array::<Keyframe<T>>(cur.drop_first(), 0) matches Ok((kfs, n, t1)) ==> (kfs.len()
            == 0 ==> segments_decode::<T>(rem0, t0) == Err::<
            (Seq<SegmentView<T::V>>, nat, u32),
            BinaryError,
        >(BinaryError::InvalidAnim)),
        decode_array::<Keyframe<T>>(cur.drop_first(), 0) matches Ok((kfs, n, t1)) ==> (kfs.len()
            > 0 ==> segments_decode::<T>(rem0, t0) == segs_shift::<T>(
            segments_decode::<T>(cur.drop_first().skip(n as int), t1),
            pre.push(kfs),
            used + 1 + n,
        )),
{
    reveal(segments_decode);
    match decode_array::<Keyframe<T>>(cur.drop_first(), 0) {
        Ok((kfs, n, t1)) => {
            if kfs.len() > 0 {
                match segments_decode::<T>(cur.drop_first().skip(n as int), t1) {
                    Ok((s, m, t2)) => {
                        assert(pre + (seq![kfs] + s) =~= pre.push(kfs) + s);
                    },
                    Err(err) => {},
                }
            }
        },
        Err(err) => {},
    }
}

/// A chain ends at a 0 byte, and needs a byte to start.
proof fn lemma_chain_step_end<T: BinaryData>(cur: Seq<u8>, tc: u32)
    ensures
        cur.len() == 0 ==> segments_decode::<T>(cur, tc) == Err::<
            (Seq<SegmentView<T::V>>, nat, u32),
            BinaryError,
        >(BinaryError::UnexpectedEof),
        cur.len() > 0 && cur[0] == 0 ==> segments_decode::<T>(cur, tc) == Ok::<
            (Seq<SegmentView<T::V>>, nat, u32),
            BinaryError,
        >((Seq::empty(), 1, tc)),
{
    reveal(segments_decode);
}

/// Builds the chain of the keyframe lists `segs`, first to last; there is
/// none when `segs` is empty.
fn build_chain<T: View>(segs: Vec<Vec<Keyframe<T>>>) -> (res: Option<Anim<T>>)
    ensures
        segs@.len() == 0 ==> res is None,
        segs@.len() > 0 ==> (res matches Some(a) && a@ == seg_views::<T>(segs@)),
{
    let ghost all = seg_views::<T>(segs@);
    let mut segs = segs;
    let mut chain: Option<Box<Anim<T>>> = None;
    assert(all =~= seg_views::<T>(segs@) + chain_segments::<T>(chain));
    while segs.len() > 0
        invariant
            all == seg_views::<T>(segs@) + chain_segments::<T>(chain),
        decreases segs.len(),
    {
        let ghost before = segs@;
        let keyframes = segs.pop().unwrap();
        proof {
            assert(before =~= segs@.push(keyframes));
            assert(seg_views::<T>(before) =~= seg_views::<T>(segs@).push(views_of(keyframes@)));
        }
        let ghost old_chain = chain_segments::<T>(chain);
        chain = Some(Box::new(Anim { keyframes, next: chain }));
        proof {
            assert(chain_segments::<T>(chain) =~= seq![views_of(keyframes@)] + old_chain);
            assert(all =~= seg_views::<T>(segs@) + chain_segments::<T>(chain));
        }
    }
    assert(seg_views::<T>(segs@) =~= Seq::<SegmentView<T::V>>::empty());
    assert(all =~= chain_segments::<T>(chain));
    match chain {
        Some(b) => Some(*b),
        None => None,
    }
}

impl<T: View> Anim<T> {
    /// A chain of one keyframe list, which must hold a keyframe.
    pub fn new(keyframes: Vec<Keyframe<T>>) -> (a: Self)
        requires
            keyframes@.len() > 0,
        ensures
            a@ == seq![views_of(keyframes@)],
    {
        let a = Anim { keyframes, next: None };
        assert(a@ =~= seq![views_of(a.keyframes@)]);
        a
    }

    /// A chain of one keyframe holding `value` at time zero.
    pub fn fixed(value: T) -> (a: Self)
        ensures
            a@ == seq![seq![(0u32, value@, TweenCode::Static(0))]],
    {
        let ghost v = value@;
        let mut keyframes: Vec<Keyframe<T>> = Vec::new();
        keyframes.push(Keyframe::new(0, value, 0));
        let a = Anim { keyframes, next: None };
        assert(views_of(a.keyframes@) =~= seq![(0u32, v, TweenCode::Static(0))]);
        assert(a@ =~= seq![seq![(0u32, v, TweenCode::Static(0))]]);
        a
    }

    /// Whether this is the empty chain: one keyframe list, with no keyframe.
    pub fn is_default(&self) -> (b: bool)
        ensures
            b == (self@ == seq![Seq::<KeyframeView<T::V>>::empty()]),
    {
        let b = self.keyframes.len() == 0 && self.next.is_none();
        proof {
            if b {
                assert(views_of(self.keyframes@) =~= Seq::<KeyframeView<T::V>>::empty());
                assert(self@ =~= seq![Seq::<KeyframeView<T::V>>::empty()]);
            } else if self@ == seq![Seq::<KeyframeView<T::V>>::empty()] {
                assert(self@[0] == views_of(self.keyframes@));
                assert(self.keyframes@.len() == 0);
                if self.next is Some {
                    assert(self@.len() == 1 + anim_segments::<T>(*self.next->0).len());
                }
            }
        }
        b
    }

    /// Links `elements` into one chain, in order, each contributing its
    /// own keyframe list (the rest of its chain is dropped). With no
    /// elements this is the empty chain.
    pub fn chain(elements: Vec<Anim<T>>) -> (a: Self)
        ensures
            elements@.len() == 0 ==> a@ == seq![Seq::<KeyframeView<T::V>>::empty()],
            elements@.len() > 0 ==> a@ == elements@.map_values(
                |e: Anim<T>| views_of(e.keyframes@),
            ),
    {
        let ghost all = elements@.map_values(|e: Anim<T>| views_of(e.keyframes@));
        let mut elements = elements;
        let mut chain: Option<Box<Anim<T>>> = None;
        assert(all =~= elements@.map_values(|e: Anim<T>| views_of(e.keyframes@))
            + chain_segments::<T>(chain));
        while elements.len() > 0
            invariant
                all == elements@.map_values(|e: Anim<T>| views_of(e.keyframes@))
                    + chain_segments::<T>(chain),
            decreases elements.len(),
        {
            let ghost before = elements@;
            let mut e = elements.pop().unwrap();
            proof {
                assert(before =~= elements@.push(e));
                assert(before.map_values(|e: Anim<T>| views_of(e.keyframes@)) =~= elements@.map_values(
                    |e: Anim<T>| views_of(e.keyframes@),
                ).push(views_of(e.keyframes@)));
            }
            let ghost old_chain = chain_segments::<T>(chain);
            e.next = chain;
            chain = Some(Box::new(e));
            proof {
                assert(chain_segments::<T>(chain) =~= seq![views_of(e.keyframes@)] + old_chain);
                assert(all =~= elements@.map_values(|e: Anim<T>| views_of(e.keyframes@))
                    + chain_segments::<T>(chain));
            }
        }
        assert(elements@.map_values(|e: Anim<T>| views_of(e.keyframes@)) =~= Seq::<
            SegmentView<T::V>,
        >::empty());
        assert(all =~= chain_segments::<T>(chain));
        match chain {
            Some(b) => *b,
            None => {
                let a = Anim { keyframes: Vec::new(), next: None };
                assert(views_of(a.keyframes@) =~= Seq::<KeyframeView<T::V>>::empty());
                assert(a@ =~= seq![Seq::<KeyframeView<T::V>>::empty()]);
                a
            },
        }
    }
}

impl<T: View> Default for Anim<T> {
    /// The empty chain: one keyframe list, with no keyframe.
    fn default() -> (a: Self)
        ensures
            a@ == seq![Seq::<KeyframeView<T::V>>::empty()],
    {
        let a = Anim { keyframes: Vec::new(), next: None };
        assert(views_of(a.keyframes@) =~= Seq::<KeyframeView<T::V>>::empty());
        assert(a@ =~= seq![Seq::<KeyframeView<T::V>>::empty()]);
        a
    }
}

impl<T: BinaryData> BinaryData for Anim<T> {
    /// A chain has at least one list, and its lists read back.
    closed spec fn spec_wf(v: Seq<SegmentView<T::V>>) -> bool {
        v.len() >= 1 && forall|i: int| 0 <= i < v.len() ==> segment_wf::<T>(#[trigger] v[i])
    }

    closed spec fn spec_writable(v: Seq<SegmentView<T::V>>, t: u32) -> bool {
        forall|i: int| 0 <= i < v.len() ==> segment_writable::<T>(#[trigger] v[i])
    }

    closed spec fn spec_encode(v: Seq<SegmentView<T::V>>, t: u32) -> Seq<u8> {
        segments_encode::<T>(v)
    }

    closed spec fn spec_time_after(v: Seq<SegmentView<T::V>>, t: u32) -> u32 {
        segments_time_after::<T>(v, t)
    }

    /// A chain must hold at least one list.
    closed spec fn spec_decode(bytes: Seq<u8>, t: u32) -> Result<
        (Seq<SegmentView<T::V>>, nat, u32),
        BinaryError,
    > {
        match segments_decode::<T>(bytes, t) {
            Ok((segs, n, t1)) => if segs.len() == 0 {
                Err(BinaryError::InvalidAnim)
            } else {
                Ok((segs, n, t1))
            },
            Err(e) => Err(e),
        }
    }

    proof fn lemma_decode_len(bytes: Seq<u8>, t: u32) {
        lemma_segments_decode_len::<T>(bytes, t);
    }

    proof fn lemma_roundtrip(v: Seq<SegmentView<T::V>>, t: u32, rest: Seq<u8>) {
        lemma_segments_roundtrip::<T>(v, t, rest);
    }

    #[verifier::rlimit(40)]
    fn read_binary(r: &mut BinaryReader) -> (res: Result<Anim<T>, BinaryError>) {
        let ghost rem0 = r.remaining();
        let ghost t0 = r.time_ms();
        let mut segs: Vec<Vec<Keyframe<T>>> = Vec::new();
        let ghost mut used: nat = 0;
        assert(rem0.skip(0) =~= rem0);
        assert(segments_decode::<T>(rem0, t0) == segs_shift::<T>(
            segments_decode::<T>(rem0, t0),
            seg_views::<T>(segs@),
            0,
        )) by {
            match segments_decode::<T>(rem0, t0) {
                Ok((s, n, t1)) => {
                    assert(seg_views::<T>(segs@) + s =~= s);
                },
                Err(e) => {},
            }
        };
        loop
            invariant
                rem0 == old(r).remaining(),
                t0 == old(r).time_ms(),
                used <= rem0.len(),
                r.remaining() == rem0.skip(used as int),
                segments_decode::<T>(rem0, t0) == segs_shift::<T>(
                    segments_decode::<T>(r.remaining(), r.time_ms()),
                    seg_views::<T>(segs@),
                    used,
                ),
            decreases rem0.len() - used,
        {
            let ghost cur = r.remaining();
            let ghost tc = r.time_ms();
            proof {
                lemma_chain_step_end::<T>(cur, tc);
            }
            let flag = match r.read::<u8>() {
                Ok(b) => b,
                Err(e) => {
                    return Err(e);
                },
            };
            if flag == 0 {
                proof {
                    assert(seg_views::<T>(segs@) + Seq::<SegmentView<T::V>>::empty() =~= seg_views::<T>(segs@));
                    assert(cur.skip(1) =~= rem0.skip((used + 1) as int));
                }
                return match build_chain(segs) {
                    Some(a) => Ok(a),
                    None => Err(BinaryError::InvalidAnim),
                };
            } else if flag == 1 {
                let ghost pre = seg_views::<T>(segs@);
                let empty: Vec<Keyframe<T>> = Vec::new();
                let ghost e = Seq::<KeyframeView<T::V>>::empty();
                assert(views_of(empty@) =~= e);
                segs.push(empty);
                proof {
                    lemma_chain_step_empty::<T>(rem0, t0, cur, tc, pre, used);
                    assert(cur.drop_first() =~= cur.skip(1));
                    assert(seg_views::<T>(segs@) =~= pre.push(e));
                    used = used + 1;
                    assert(r.remaining() =~= rem0.skip(used as int));
                }
            } else {
                let ghost pre = seg_views::<T>(segs@);
                proof {
                    lemma_chain_step_keyframes::<T>(rem0, t0, cur, tc, pre, used);
                    assert(cur.drop_first() =~= cur.skip(1));
                    lemma_decode_array_len::<Keyframe<T>>(cur.drop_first(), 0);
                }
                r.reset_time();
                let keyframes = match r.array::<Keyframe<T>>() {
                    Ok(k) => k,
                    Err(e) => {
                        return Err(e);
                    },
                };
                if keyframes.len() == 0 {
                    return Err(BinaryError::InvalidAnim);
                }
                let ghost n: nat = decode_array::<Keyframe<T>>(cur.drop_first(), 0)->Ok_0.1;
                let ghost kv = views_of(keyframes@);
                segs.push(keyframes);
                proof {
                    assert(seg_views::<T>(segs@) =~= pre.push(kv));
                    assert(cur.drop_first().skip(n as int) =~= rem0.skip((used + 1 + n) as int));
                    used = used + 1 + n;
                }
            }
        }
    }

    fn write_binary(&self, w: &mut BinaryWriter) -> (res: Result<(), BinaryError>) {
        let ghost goal = old(w).bytes() + segments_encode::<T>(self@);
        let ghost tend = segments_time_after::<T>(self@, old(w).time_ms());
        let mut cur: &Anim<T> = self;
        assert(w.bytes() + segments_encode::<T>(cur@) =~= goal);
        loop
            invariant
                goal == old(w).bytes() + segments_encode::<T>(self@),
                tend == segments_time_after::<T>(self@, old(w).time_ms()),
                w.bytes() + segments_encode::<T>(cur@) == goal,
                segments_time_after::<T>(cur@, w.time_ms()) == tend,
                forall|i: int| 0 <= i < cur@.len() ==> segment_writable::<T>(#[trigger] cur@[i]),
            decreases cur@.len(),
        {
            let ghost seg = views_of(cur.keyframes@);
            let ghost before = w.bytes();
            let ghost tb = w.time_ms();
            let ghost tail = chain_segments::<T>(cur.next);
            assert(cur@ == seq![seg] + tail);
            assert(cur@[0] == seg);
            assert(cur@.drop_first() =~= tail);
            if cur.keyframes.len() == 0 {
                let _ = w.write_val(1u8);
            } else {
                let _ = w.write_val(2u8);
                w.reset_time();
                let _ = w.array(cur.keyframes.as_slice());
            }
            proof {
                assert(w.bytes() =~= before + segment_encode::<T>(seg));
                assert(before + (segment_encode::<T>(seg) + segments_encode::<T>(tail)) =~= w.bytes()
                    + segments_encode::<T>(tail));
                assert(w.time_ms() == segment_time_after::<T>(seg, tb));
                assert(segments_time_after::<T>(cur@, tb) == segments_time_after::<T>(
                    tail,
                    w.time_ms(),
                ));
            }
            match &cur.next {
                Some(next) => {
                    cur = &**next;
                    proof {
                        assert forall|i: int| 0 <= i < cur@.len() implies segment_writable::<T>(
                            #[trigger] cur@[i],
                        ) by {
                            assert(cur@[i] == tail[i]);
                        };
                    }
                },
                None => {
                    let _ = w.write_val(0u8);
                    proof {
                        assert(tail =~= Seq::<SegmentView<T::V>>::empty());
                        assert(segments_time_after::<T>(tail, w.time_ms()) == w.time_ms());
                    }
                    return Ok(());
                },
            }
        }
    }
}

/// An animation is its keyframe lists, each opened by the byte 1 when it
/// is empty and by 2 when it has keyframes, and closed by the byte 0.
pub proof fn lemma_anim_list_tags<T: BinaryData>(segs: Seq<SegmentView<T::V>>, t: u32)
    ensures
        segs.len() == 0 ==> Anim::<T>::spec_encode(segs, t) == seq![0u8],
        segs.len() > 0 && segs[0].len() == 0 ==> Anim::<T>::spec_encode(segs, t)[0] == 1u8,
        segs.len() > 0 && segs[0].len() > 0 ==> Anim::<T>::spec_encode(segs, t)[0] == 2u8,
        Anim::<T>::spec_encode(segs, t).last() == 0u8,
    decreases segs.len(),
{
    if segs.len() > 0 {
        let head = segment_encode::<T>(segs[0]);
        let tail = segments_encode::<T>(segs.drop_first());
        lemma_anim_list_tags::<T>(segs.drop_first(), t);
        assert(head.len() >= 1);
        assert((head + tail)[0] == head[0]);
        assert(tail.len() >= 1) by {
            if segs.drop_first().len() > 0 {
                lemma_segments_nonempty::<T>(segs.drop_first());
            }
        }
        assert((head + tail).last() == tail.last());
    }
}

proof fn lemma_segments_nonempty<T: BinaryData>(segs: Seq<SegmentView<T::V>>)
    ensures
        segments_encode::<T>(segs).len() >= 1,
    decreases segs.len(),
{
    if segs.len() > 0 {
        lemma_segments_nonempty::<T>(segs.drop_first());
    }
}

/// The bytes of a chain, and whether it can be written, do not depend on
/// the running time: each keyframe list restarts it from zero.
pub proof fn lemma_anim_timeless<T: BinaryData>(v: Seq<SegmentView<T::V>>, t1: u32, t2: u32)
    ensures
        Anim::<T>::spec_encode(v, t1) == Anim::<T>::spec_encode(v, t2),
        Anim::<T>::spec_writable(v, t1) == Anim::<T>::spec_writable(v, t2),
{
}

} // verus!
