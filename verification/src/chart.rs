//! A chart as its binary file stores it: the offset, the judge lines and
//! the chart-wide settings.

use vstd::prelude::*;
use crate::bin::{
    decode_at, lemma_decode_at_roundtrip, lemma_uleb_at_roundtrip, u32_to_le, uleb_at, uleb_encode,
    views_of, BinaryData, BinaryError, BinaryReader, BinaryWriter, F32Bits,
};
use crate::line::{
    line_decode, line_encode, line_time_after, line_time_before_notes, line_wf, line_writable,
    lemma_line_roundtrip, JudgeLine, JudgeLineView,
};

verus! {

/// Settings that change how a whole chart is played.
#[derive(Clone, Copy, Debug, PartialEq, Eq, Structural)]
pub struct ChartSettings {
    /// Negative alpha values hide notes (an extension of one editor).
    pub pe_alpha_extension: bool,
    /// A hold note is drawn only partly when covered by its judge line.
    pub hold_partial_cover: bool,
}

impl View for ChartSettings {
    type V = ChartSettings;

    open spec fn view(&self) -> ChartSettings {
        *self
    }
}

impl BinaryData for ChartSettings {
    open spec fn spec_wf(v: ChartSettings) -> bool {
        true
    }

    open spec fn spec_writable(v: ChartSettings, t: u32) -> bool {
        true
    }

    /// One byte per flag, 1 for set and 0 for clear.
    open spec fn spec_encode(v: ChartSettings, t: u32) -> Seq<u8> {
        bool::spec_encode(v.pe_alpha_extension, t) + bool::spec_encode(v.hold_partial_cover, t)
    }

    open spec fn spec_time_after(v: ChartSettings, t: u32) -> u32 {
        t
    }

    /// A flag is set exactly when its byte is 1.
    open spec fn spec_decode(bytes: Seq<u8>, t: u32) -> Result<(ChartSettings, nat, u32), BinaryError> {
        if bytes.len() < 2 {
            Err(BinaryError::UnexpectedEof)
        } else {
            Ok(
                (
                    ChartSettings {
                        pe_alpha_extension: bytes[0] == 1,
                        hold_partial_cover: bytes[1] == 1,
                    },
                    2,
                    t,
                ),
            )
        }
    }

    proof fn lemma_decode_len(bytes: Seq<u8>, t: u32) {
    }

    proof fn lemma_roundtrip(v: ChartSettings, t: u32, rest: Seq<u8>) {
    }

    fn read_binary(r: &mut BinaryReader) -> (res: Result<ChartSettings, BinaryError>) {
        let ghost rem = r.remaining();
        let pe_alpha_extension = match r.read::<u8>() {
            Ok(b) => b == 1,
            Err(e) => {
                return Err(e);
            },
        };
        let hold_partial_cover = match r.read::<u8>() {
            Ok(b) => b == 1,
            Err(e) => {
                return Err(e);
            },
        };
        proof {
            assert(rem.skip(1).skip(1) =~= rem.skip(2));
        }
        Ok(ChartSettings { pe_alpha_extension, hold_partial_cover })
    }

    fn write_binary(&self, w: &mut BinaryWriter) -> (res: Result<(), BinaryError>) {
        let a: u8 = if self.pe_alpha_extension {
            1
        } else {
            0
        };
        let b: u8 = if self.hold_partial_cover {
            1
        } else {
            0
        };
        let _ = w.write_val(a);
        let _ = w.write_val(b);
        assert(w.bytes() =~= old(w).bytes() + Self::spec_encode(*self, old(w).time_ms()));
        Ok(())
    }
}

/// A chart as its binary file stores it.
pub struct ChartFile {
    /// The chart's offset, in seconds.
    pub offset: F32Bits,
    pub lines: Vec<JudgeLine>,
    pub settings: ChartSettings,
}

/// What a chart file holds.
pub struct ChartFileView {
    pub offset: F32Bits,
    pub lines: Seq<JudgeLineView>,
    pub settings: ChartSettings,
}

impl View for ChartFile {
    type V = ChartFileView;

    open spec fn view(&self) -> ChartFileView {
        ChartFileView { offset: self.offset, lines: views_of(self.lines@), settings: self.settings }
    }
}

/// The running time after lines written one after another from `t`.
pub open spec fn lines_time_after(ls: Seq<JudgeLineView>, t: u32) -> u32
    decreases ls.len(),
{
    if ls.len() == 0 {
        t
    } else {
        lines_time_after(ls.drop_first(), line_time_after(ls[0], t))
    }
}

/// The bytes of lines written one after another from running time `t`.
pub open spec fn lines_encode(ls: Seq<JudgeLineView>, t: u32) -> Seq<u8>
    decreases ls.len(),
{
    if ls.len() == 0 {
        Seq::empty()
    } else {
        line_encode(ls[0], t) + lines_encode(ls.drop_first(), line_time_after(ls[0], t))
    }
}

/// Whether a writer at running time `t` can write the lines one after
/// another.
pub open spec fn lines_writable(ls: Seq<JudgeLineView>, t: u32) -> bool
    decreases ls.len(),
{
    ls.len() == 0 || (line_writable(ls[0], t) && lines_writable(
        ls.drop_first(),
        line_time_after(ls[0], t),
    ))
}

/// Whether each line, written from where the lines before it left the
/// running time, has a running time before its notes that does not depend
/// on that start (so that a reader, which starts each line from zero,
/// reads its notes' times back).
pub open spec fn lines_read_back(ls: Seq<JudgeLineView>, t: u32) -> bool
    decreases ls.len(),
{
    ls.len() == 0 || (line_time_before_notes(ls[0], t) == line_time_before_notes(ls[0], 0)
        && lines_read_back(ls.drop_first(), line_time_after(ls[0], t)))
}

/// `n` lines at index `pos` of `bytes`, and the index after them.
pub open spec fn lines_decode(bytes: Seq<u8>, pos: nat, n: nat) -> Result<
    (Seq<JudgeLineView>, nat),
    BinaryError,
>
    decreases n,
{
    if n == 0 {
        Ok((Seq::empty(), pos))
    } else {
        match line_decode(bytes.skip(pos as int)) {
            Ok((l, k, _)) => match lines_decode(bytes, pos + k, (n - 1) as nat) {
                Ok((ls, p)) => Ok((seq![l] + ls, p)),
                Err(e) => Err(e),
            },
            Err(e) => Err(e),
        }
    }
}

/// The bytes of a chart written from running time `t`: the offset, the
/// number of lines as a uleb number, the lines, the settings.
pub open spec fn chart_encode(v: ChartFileView, t: u32) -> Seq<u8> {
    u32_to_le(v.offset.0) + uleb_encode(v.lines.len()) + lines_encode(v.lines, t)
        + ChartSettings::spec_encode(v.settings, 0)
}

/// The chart at the front of `bytes` and the number of bytes it takes.
pub open spec fn chart_decode(bytes: Seq<u8>) -> Result<(ChartFileView, nat), BinaryError> {
    match decode_at::<F32Bits>(bytes, 0, 0) {
        Err(e) => Err(e),
        Ok((offset, p1, _)) => match uleb_at(bytes, p1) {
            Err(e) => Err(e),
            Ok((count, p2)) => match lines_decode(bytes, p2, count as nat) {
                Err(e) => Err(e),
                Ok((lines, p3)) => match decode_at::<ChartSettings>(bytes, p3, 0) {
                    Err(e) => Err(e),
                    Ok((settings, p4, _)) => Ok(
                        (ChartFileView { offset, lines, settings }, p4),
                    ),
                },
            },
        },
    }
}

/// Moves a decode result of the later lines to all the lines, given the
/// lines `pre` before them.
pub open spec fn lines_shift(
    r: Result<(Seq<JudgeLineView>, nat), BinaryError>,
    pre: Seq<JudgeLineView>,
) -> Result<(Seq<JudgeLineView>, nat), BinaryError> {
    match r {
        Ok((ls, p)) => Ok((pre + ls, p)),
        Err(e) => Err(e),
    }
}

proof fn lemma_lines_step(bytes: Seq<u8>, p2: nat, n: nat, pos: nat, left: nat, pre: Seq<JudgeLineView>)
    requires
        left > 0,
        lines_decode(bytes, p2, n) == lines_shift(lines_decode(bytes, pos, left), pre),
        line_decode(bytes.skip(pos as int)) is Ok,
    ensures
        ({
            let (l, k, _) = line_decode(bytes.skip(pos as int))->Ok_0;
            lines_decode(bytes, p2, n) == lines_shift(
                lines_decode(bytes, pos + k, (left - 1) as nat),
                pre.push(l),
            )
        }),
{
    let (l, k, _) = line_decode(bytes.skip(pos as int))->Ok_0;
    match lines_decode(bytes, pos + k, (left - 1) as nat) {
        Ok((ls, p)) => {
            assert(pre + (seq![l] + ls) =~= pre.push(l) + ls);
        },
        Err(e) => {},
    }
}

/// Writing one more line appends its bytes at the running time the lines
/// before it left.
proof fn lemma_lines_push(ls: Seq<JudgeLineView>, l: JudgeLineView, t: u32)
    ensures
        lines_encode(ls.push(l), t) == lines_encode(ls, t) + line_encode(l, lines_time_after(ls, t)),
        lines_time_after(ls.push(l), t) == line_time_after(l, lines_time_after(ls, t)),
        lines_writable(ls.push(l), t) == (lines_writable(ls, t) && line_writable(
            l,
            lines_time_after(ls, t),
        )),
    decreases ls.len(),
{
    if ls.len() == 0 {
        let t1 = line_time_after(l, t);
        assert(ls.push(l).drop_first() =~= Seq::<JudgeLineView>::empty());
        assert(ls.push(l)[0] == l);
        assert(lines_encode(Seq::<JudgeLineView>::empty(), t1) == Seq::<u8>::empty());
        assert(lines_time_after(Seq::<JudgeLineView>::empty(), t1) == t1);
        assert(lines_writable(Seq::<JudgeLineView>::empty(), t1));
        assert(lines_encode(ls.push(l), t) =~= line_encode(l, t));
        assert(lines_encode(ls, t) + line_encode(l, t) =~= line_encode(l, t));
    } else {
        let t1 = line_time_after(ls[0], t);
        lemma_lines_push(ls.drop_first(), l, t1);
        assert(ls.push(l).drop_first() =~= ls.drop_first().push(l));
        assert(ls.push(l)[0] == ls[0]);
        let e0 = line_encode(ls[0], t);
        let rest = lines_encode(ls.drop_first(), t1);
        let last = line_encode(l, lines_time_after(ls.drop_first(), t1));
        assert(e0 + (rest + last) =~= (e0 + rest) + last);
    }
}

/// Lines whose writing can be prefixed by the first `i` lines.
proof fn lemma_lines_writable_prefix(ls: Seq<JudgeLineView>, t: u32, i: int)
    requires
        0 <= i < ls.len(),
        lines_writable(ls, t),
    ensures
        lines_writable(ls.take(i), t),
        line_writable(ls[i], lines_time_after(ls.take(i), t)),
    decreases i,
{
    if i == 0 {
        assert(ls.take(0) =~= Seq::<JudgeLineView>::empty());
    } else {
        lemma_lines_writable_prefix(ls, t, i - 1);
        lemma_lines_push(ls.take(i - 1), ls[i - 1], t);
        assert(ls.take(i - 1).push(ls[i - 1]) =~= ls.take(i));
        lemma_lines_writable_from(ls, t, i);
    }
}

/// The lines from index `i` on can be written from where the first `i`
/// left the running time.
proof fn lemma_lines_writable_from(ls: Seq<JudgeLineView>, t: u32, i: int)
    requires
        0 <= i <= ls.len(),
        lines_writable(ls, t),
    ensures
        lines_writable(ls.skip(i), lines_time_after(ls.take(i), t)),
    decreases i,
{
    if i == 0 {
        assert(ls.skip(0) =~= ls);
        assert(ls.take(0) =~= Seq::<JudgeLineView>::empty());
    } else {
        let t1 = line_time_after(ls[0], t);
        lemma_lines_writable_from(ls.drop_first(), t1, i - 1);
        assert(ls.drop_first().skip(i - 1) =~= ls.skip(i));
        assert(ls.take(i)[0] == ls[0]);
        assert(ls.take(i).drop_first() =~= ls.drop_first().take(i - 1));
    }
}

/// Lines written after `pre` are read back from index `pre.len()`, when
/// each can be read back.
proof fn lemma_lines_roundtrip(pre: Seq<u8>, ls: Seq<JudgeLineView>, t: u32, post: Seq<u8>)
    requires
        forall|i: int| 0 <= i < ls.len() ==> line_wf(#[trigger] ls[i]),
        lines_writable(ls, t),
        lines_read_back(ls, t),
    ensures
        lines_decode(pre + lines_encode(ls, t) + post, pre.len(), ls.len()) == Ok::<
            (Seq<JudgeLineView>, nat),
            BinaryError,
        >((ls, pre.len() + lines_encode(ls, t).len())),
    decreases ls.len(),
{
    if ls.len() > 0 {
        let l = ls[0];
        let rest = ls.drop_first();
        let t1 = line_time_after(l, t);
        let e0 = line_encode(l, t);
        let bytes = pre + lines_encode(ls, t) + post;
        assert forall|i: int| 0 <= i < rest.len() implies line_wf(#[trigger] rest[i]) by {
            assert(rest[i] == ls[i + 1]);
        };
        lemma_lines_roundtrip(pre + e0, rest, t1, post);
        assert(bytes =~= (pre + e0) + lines_encode(rest, t1) + post);
        assert(bytes.skip(pre.len() as int) =~= e0 + (lines_encode(rest, t1) + post));
        lemma_line_roundtrip(l, t, lines_encode(rest, t1) + post);
        assert(seq![l] + rest =~= ls);
    } else {
        assert(ls =~= Seq::<JudgeLineView>::empty());
    }
}

/// A chart is read back as it was written whenever each of its lines can
/// be read back (see `lines_read_back`), as when each line's object, kind
/// or height holds a keyframe.
pub proof fn lemma_chart_roundtrip(v: ChartFileView, t: u32, rest: Seq<u8>)
    requires
        forall|i: int| 0 <= i < v.lines.len() ==> line_wf(#[trigger] v.lines[i]),
        v.lines.len() <= u64::MAX,
        lines_writable(v.lines, t),
        lines_read_back(v.lines, t),
    ensures
        chart_decode(chart_encode(v, t) + rest) == Ok::<(ChartFileView, nat), BinaryError>(
            (v, chart_encode(v, t).len()),
        ),
{
    let e1 = u32_to_le(v.offset.0);
    let e2 = uleb_encode(v.lines.len());
    let e3 = lines_encode(v.lines, t);
    let e4 = ChartSettings::spec_encode(v.settings, 0);
    let bytes = chart_encode(v, t) + rest;
    let p0 = Seq::<u8>::empty();
    assert(bytes =~= p0 + e1 + (e2 + e3 + e4 + rest));
    lemma_decode_at_roundtrip::<F32Bits>(p0, v.offset, 0, e2 + e3 + e4 + rest);
    assert(bytes =~= e1 + e2 + (e3 + e4 + rest));
    lemma_uleb_at_roundtrip(e1, v.lines.len() as u64, e3 + e4 + rest);
    assert(bytes =~= (e1 + e2) + e3 + (e4 + rest));
    lemma_lines_roundtrip(e1 + e2, v.lines, t, e4 + rest);
    assert(bytes =~= (e1 + e2 + e3) + e4 + rest);
    lemma_decode_at_roundtrip::<ChartSettings>(e1 + e2 + e3, v.settings, 0, rest);
    let w = ChartFileView { offset: v.offset, lines: v.lines, settings: v.settings };
    assert(w == v);
}

impl ChartFile {
    /// Reads a chart: its offset, its lines (each from running time zero)
    /// and its settings.
    #[verifier::rlimit(30)]
    pub fn read_binary(r: &mut BinaryReader) -> (res: Result<ChartFile, BinaryError>)
        ensures
            match chart_decode(old(r).remaining()) {
                Ok((v, n)) => res matches Ok(c) && c@ == v
                    && final(r).remaining() == old(r).remaining().skip(n as int),
                Err(e) => res is Err && res->Err_0 == e,
            },
    {
        let ghost all = r.remaining();
        assert(all.skip(0) =~= all);
        let offset = match r.read_at::<F32Bits>(Ghost(all), Ghost(0)) {
            Ok(x) => x,
            Err(e) => {
                return Err(e);
            },
        };
        let ghost p1: nat = 4;
        let count = match r.uleb_at(Ghost(all), Ghost(p1)) {
            Ok(x) => x,
            Err(e) => {
                return Err(e);
            },
        };
        let ghost p2 = uleb_at(all, p1)->Ok_0.1;
        let mut lines: Vec<JudgeLine> = Vec::new();
        let mut j: u64 = 0;
        let ghost mut pos: nat = p2;
        assert(lines_decode(all, p2, count as nat) == lines_shift(
            lines_decode(all, p2, count as nat),
            Seq::empty(),
        )) by {
            match lines_decode(all, p2, count as nat) {
                Ok((ls, p)) => {
                    assert(Seq::<JudgeLineView>::empty() + ls =~= ls);
                },
                Err(e) => {},
            }
        };
        assert(views_of(lines@) =~= Seq::<JudgeLineView>::empty());
        while j < count
            invariant
                j <= count,
                pos <= all.len(),
                all == old(r).remaining(),
                r.remaining() == all.skip(pos as int),
                lines_decode(all, p2, count as nat) == lines_shift(
                    lines_decode(all, pos, (count - j) as nat),
                    views_of(lines@),
                ),
                chart_decode(all) == match decode_at::<F32Bits>(all, 0, 0) {
                    Err(e) => Err(e),
                    Ok((offset, p1, _)) => match uleb_at(all, p1) {
                        Err(e) => Err(e),
                        Ok((count, p2)) => match lines_decode(all, p2, count as nat) {
                            Err(e) => Err(e),
                            Ok((lines, p3)) => match decode_at::<ChartSettings>(all, p3, 0) {
                                Err(e) => Err(e),
                                Ok((settings, p4, _)) => Ok(
                                    (ChartFileView { offset, lines, settings }, p4),
                                ),
                            },
                        },
                    },
                },
                decode_at::<F32Bits>(all, 0, 0) matches Ok((o, q1, _)) && o == offset && q1 == p1,
                uleb_at(all, p1) == Ok::<(u64, nat), BinaryError>((count, p2)),
            decreases count - j,
        {
            let ghost cur = r.remaining();
            let line = match JudgeLine::read_binary(r) {
                Ok(l) => l,
                Err(e) => {
                    return Err(e);
                },
            };
            let ghost k = line_decode(cur)->Ok_0.1;
            proof {
                lemma_lines_step(all, p2, count as nat, pos, (count - j) as nat, views_of(lines@));
                assert(views_of(lines@.push(line)) =~= views_of(lines@).push(line@));
                crate::line::lemma_line_decode_len(cur);
                assert(cur.skip(k as int) =~= all.skip((pos + k) as int));
            }
            lines.push(line);
            j = j + 1;
            proof {
                pos = pos + k;
            }
        }
        proof {
            assert(views_of(lines@) + Seq::<JudgeLineView>::empty() =~= views_of(lines@));
        }
        let settings = match r.read_at::<ChartSettings>(Ghost(all), Ghost(pos)) {
            Ok(x) => x,
            Err(e) => {
                return Err(e);
            },
        };
        Ok(ChartFile { offset, lines, settings })
    }

    /// Writes a chart: its offset, its lines one after another from the
    /// writer's running time, and its settings.
    pub fn write_binary(&self, w: &mut BinaryWriter) -> (res: Result<(), BinaryError>)
        requires
            lines_writable(views_of(self.lines@), old(w).time_ms()),
        ensures
            res is Ok,
            final(w).bytes() == old(w).bytes() + chart_encode(self@, old(w).time_ms()),
    {
        let ghost v = self@;
        let ghost t0 = w.time_ms();
        let _ = w.write_val(self.offset);
        let _ = w.uleb(self.lines.len() as u64);
        let ghost start = w.bytes();
        let ghost ls = views_of(self.lines@);
        let mut i: usize = 0;
        assert(ls.take(0) =~= Seq::<JudgeLineView>::empty());
        assert(start =~= start + lines_encode(Seq::empty(), t0));
        while i < self.lines.len()
            invariant
                i <= self.lines.len(),
                ls == views_of(self.lines@),
                lines_writable(ls, t0),
                w.bytes() == start + lines_encode(ls.take(i as int), t0),
                w.time_ms() == lines_time_after(ls.take(i as int), t0),
            decreases self.lines.len() - i,
        {
            proof {
                lemma_lines_writable_prefix(ls, t0, i as int);
                assert(ls[i as int] == self.lines@[i as int]@);
            }
            let _ = self.lines[i].write_binary(w);
            proof {
                lemma_lines_push(ls.take(i as int), ls[i as int], t0);
                assert(ls.take(i as int).push(ls[i as int]) =~= ls.take(i + 1));
            }
            i = i + 1;
        }
        assert(ls.take(i as int) =~= ls);
        let _ = w.write(&self.settings);
        assert(w.bytes() =~= old(w).bytes() + chart_encode(v, t0));
        Ok(())
    }
}

} // verus!
