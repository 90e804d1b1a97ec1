//! Binary serialization of chart data.
//!
//! A `BinaryWriter` appends encodings to a byte buffer and a `BinaryReader`
//! consumes them again. Lengths and time deltas are written as unsigned
//! LEB128 ("uleb"); integers are little endian; strings are a uleb byte
//! count followed by UTF-8 bytes. Both ends keep a running time in
//! milliseconds so that time stamps can be stored as deltas.

use vstd::prelude::*;
use vstd::utf8::*;
use byteorder::{ByteOrder, LittleEndian};
use crate::text::string_from_utf8;

verus! {

broadcast use vstd::seq_lib::group_seq_properties;

// ---------------------------------------------------------------------
// errors
// ---------------------------------------------------------------------

/// Why reading binary data failed.
#[derive(Clone, Copy, Debug, PartialEq, Eq, Structural)]
pub enum BinaryError {
    /// The input ended in the middle of a value.
    UnexpectedEof,
    /// A uleb number ran on past its tenth byte.
    UlebTooLong,
    /// A string's bytes are not UTF-8.
    InvalidUtf8,
    /// The running time left the range of `u32`.
    TimeOverflow,
    /// An easing tag that names no easing, or an id outside the table.
    InvalidTween,
    /// An animation chain with no keyframe list, or a list announced with
    /// keyframes that holds none.
    InvalidAnim,
    /// A control object that does not start with its tag byte 8.
    InvalidCtrlObject,
    /// A note kind byte above 3.
    InvalidNoteKind,
    /// A judge line kind byte above 3.
    InvalidLineKind,
}

/// `2^64`, the modulus of `u64` arithmetic.
pub open spec fn u64_modulus() -> nat {
    0x1_0000_0000_0000_0000
}

// ---------------------------------------------------------------------
// uleb128
// ---------------------------------------------------------------------

/// `128^i`.
pub open spec fn pow128(i: nat) -> nat
    decreases i,
{
    if i == 0 {
        1
    } else {
        128 * pow128((i - 1) as nat)
    }
}

/// The uleb encoding of `v`: seven bits per byte, least significant group
/// first, the high bit set on every byte but the last.
pub open spec fn uleb_encode(v: nat) -> Seq<u8>
    decreases v,
{
    if v < 128 {
        seq![v as u8]
    } else {
        seq![(v % 128 + 128) as u8] + uleb_encode(v / 128)
    }
}

/// Parses a uleb number at the front of `bytes`, `k` bytes of it having
/// been consumed already. On success gives the (unbounded) value and the
/// number of bytes taken from `bytes`. An eleventh byte is refused.
pub open spec fn uleb_parse(bytes: Seq<u8>, k: nat) -> Result<(nat, nat), BinaryError>
    decreases bytes.len(),
{
    if bytes.len() == 0 {
        Err(BinaryError::UnexpectedEof)
    } else if k >= 10 {
        Err(BinaryError::UlebTooLong)
    } else if bytes[0] < 128 {
        Ok((bytes[0] as nat, 1))
    } else {
        match uleb_parse(bytes.drop_first(), k + 1) {
            Ok((v, n)) => Ok((((bytes[0] - 128) + 128 * v) as nat, n + 1)),
            Err(e) => Err(e),
        }
    }
}

/// The `u64` that the reader yields for the uleb number at the front of
/// `bytes`, and the number of bytes it takes.
pub open spec fn uleb_decode(bytes: Seq<u8>) -> Result<(u64, nat), BinaryError> {
    match uleb_parse(bytes, 0) {
        Ok((v, n)) => Ok(((v % u64_modulus()) as u64, n)),
        Err(e) => Err(e),
    }
}

/// Moves a parse result of the tail of a uleb number to the whole number,
/// given the value `acc` and count `i` of the bytes before the tail.
pub open spec fn uleb_shift(r: Result<(nat, nat), BinaryError>, acc: nat, i: nat) -> Result<
    (nat, nat),
    BinaryError,
> {
    match r {
        Ok((v, n)) => Ok((acc + pow128(i) * v, n + i)),
        Err(e) => Err(e),
    }
}

proof fn lemma_pow128_positive(i: nat)
    ensures
        pow128(i) >= 1,
    decreases i,
{
    if i > 0 {
        lemma_pow128_positive((i - 1) as nat);
    }
}

proof fn lemma_pow128_ten()
    ensures
        pow128(9) == 0x8000_0000_0000_0000,
        pow128(10) == 0x40_0000_0000_0000_0000,
{
    reveal_with_fuel(pow128, 11);
}

proof fn lemma_pow128_monotone(i: nat, j: nat)
    requires
        i <= j,
    ensures
        pow128(i) <= pow128(j),
    decreases j,
{
    if i < j {
        lemma_pow128_monotone(i, (j - 1) as nat);
    }
}

/// One step of the parse: the bytes before the tail grow by one
/// continuation byte.
proof fn lemma_uleb_step(rem0: Seq<u8>, rest: Seq<u8>, acc: nat, i: nat)
    requires
        uleb_parse(rem0, 0) == uleb_shift(uleb_parse(rest, i), acc, i),
        rest.len() > 0,
        i < 10,
        rest[0] >= 128,
    ensures
        uleb_parse(rem0, 0) == uleb_shift(
            uleb_parse(rest.drop_first(), i + 1),
            acc + pow128(i) * ((rest[0] - 128) as nat),
            i + 1,
        ),
{
    let p = (rest[0] - 128) as nat;
    match uleb_parse(rest.drop_first(), i + 1) {
        Ok((v, n)) => {
            assert(pow128(i + 1) == 128 * pow128(i));
            assert(pow128(i) * (p + 128 * v) == pow128(i) * p + (128 * pow128(i)) * v)
                by (nonlinear_arith);
        },
        Err(e) => {},
    }
}

/// A parse consumes at least one byte, at most the bytes there are, and
/// at most `10 - k` of them.
pub proof fn lemma_uleb_parse_len(bytes: Seq<u8>, k: nat)
    ensures
        uleb_parse(bytes, k) matches Ok((_, n)) ==> 1 <= n <= bytes.len() && n + k <= 10,
    decreases bytes.len(),
{
    if bytes.len() > 0 && k < 10 && bytes[0] >= 128 {
        lemma_uleb_parse_len(bytes.drop_first(), k + 1);
    }
}

/// The encoding of a number below `128^m` takes at most `m` bytes.
pub proof fn lemma_uleb_encode_len(v: nat, m: nat)
    requires
        m >= 1,
        v < pow128(m),
    ensures
        1 <= uleb_encode(v).len() <= m,
    decreases v,
{
    if v >= 128 {
        if m == 1 {
            assert(pow128(0) == 1);
            assert(pow128(1) == 128);
        }
        assert(pow128(m) == 128 * pow128((m - 1) as nat));
        assert(v / 128 < pow128((m - 1) as nat)) by (nonlinear_arith)
            requires
                v < 128 * pow128((m - 1) as nat),
        ;
        lemma_uleb_encode_len(v / 128, (m - 1) as nat);
    }
}

/// Parsing an encoding gives back the encoded number, whatever follows it,
/// as long as the encoding fits in the bytes still allowed.
pub proof fn lemma_uleb_parse_encode(v: nat, rest: Seq<u8>, k: nat)
    requires
        k + uleb_encode(v).len() <= 10,
    ensures
        uleb_parse(uleb_encode(v) + rest, k) == Ok::<(nat, nat), BinaryError>(
            (v, uleb_encode(v).len()),
        ),
    decreases v,
{
    let bytes = uleb_encode(v) + rest;
    if v < 128 {
        assert(bytes[0] == v as u8);
    } else {
        let tail = uleb_encode(v / 128);
        assert(bytes.drop_first() == tail + rest);
        lemma_uleb_parse_encode(v / 128, rest, k + 1);
    }
}

/// Every `u64` has an encoding of at most ten bytes.
pub proof fn lemma_uleb_encode_u64_len(v: u64)
    ensures
        1 <= uleb_encode(v as nat).len() <= 10,
{
    lemma_pow128_ten();
    lemma_uleb_encode_len(v as nat, 10);
}

/// A uleb number written by the writer is read back unchanged, whatever
/// bytes follow it.
pub proof fn lemma_uleb_roundtrip(v: u64, rest: Seq<u8>)
    ensures
        uleb_decode(uleb_encode(v as nat) + rest) == Ok::<(u64, nat), BinaryError>(
            (v, uleb_encode(v as nat).len()),
        ),
{
    lemma_uleb_encode_u64_len(v);
    lemma_uleb_parse_encode(v as nat, rest, 0);
}

// ---------------------------------------------------------------------
// little endian integers (through byteorder)
// ---------------------------------------------------------------------

/// The unsigned value of four little-endian bytes.
pub open spec fn le_u32_value(b: Seq<u8>) -> int {
    b[0] + 256 * b[1] + 65536 * b[2] + 16777216 * b[3]
}

/// The `i32` stored in the first four bytes of `b`, little endian, two's
/// complement.
pub open spec fn i32_from_le(b: Seq<u8>) -> i32 {
    let u = le_u32_value(b);
    (if u < 0x8000_0000 {
        u
    } else {
        u - 0x1_0000_0000
    }) as i32
}

/// The four little-endian bytes of `n`.
pub open spec fn i32_to_le(n: i32) -> Seq<u8> {
    let u: int = if n >= 0 {
        n as int
    } else {
        n + 0x1_0000_0000
    };
    seq![
        (u % 256) as u8,
        ((u / 256) % 256) as u8,
        ((u / 65536) % 256) as u8,
        ((u / 16777216) % 256) as u8,
    ]
}

/// Reading back the bytes of an `i32` gives the `i32`.
pub proof fn lemma_i32_le_roundtrip(n: i32)
    ensures
        i32_to_le(n).len() == 4,
        i32_from_le(i32_to_le(n)) == n,
{
    let u: int = if n >= 0 {
        n as int
    } else {
        n + 0x1_0000_0000
    };
    assert(0 <= u < 0x1_0000_0000);
    let b = i32_to_le(n);
    assert(le_u32_value(b) == u) by (nonlinear_arith)
        requires
            0 <= u < 0x1_0000_0000,
            b[0] == u % 256,
            b[1] == (u / 256) % 256,
            b[2] == (u / 65536) % 256,
            b[3] == (u / 16777216) % 256,
            le_u32_value(b) == b[0] + 256 * b[1] + 65536 * b[2] + 16777216 * b[3],
    ;
}

/// Reads an `i32` from the first four bytes of `buf` with
/// `byteorder::LittleEndian::read_i32`, which (per its documentation and
/// source) takes `u32::from_le_bytes` of those bytes and reinterprets it
/// as `i32`; it panics on fewer than four bytes, which `requires` excludes.
#[verifier::external_body]
fn le_read_i32(buf: &[u8]) -> (n: i32)
    requires
        buf@.len() >= 4,
    ensures
        n == i32_from_le(buf@),
{
    LittleEndian::read_i32(buf)
}

/// Writes `n` into four bytes with `byteorder::LittleEndian::write_i32`,
/// which stores `(n as u32).to_le_bytes()`.
#[verifier::external_body]
fn le_write_i32(n: i32) -> (b: [u8; 4])
    ensures
        b@ == i32_to_le(n),
{
    let mut b = [0u8; 4];
    LittleEndian::write_i32(&mut b, n);
    b
}

/// The four little-endian bytes of `n`.
#[verifier::opaque]
pub open spec fn u32_to_le(n: u32) -> Seq<u8> {
    seq![
        (n % 256) as u8,
        ((n / 256) % 256) as u8,
        ((n / 65536) % 256) as u8,
        ((n / 16777216) % 256) as u8,
    ]
}

/// Reading back the bytes of a `u32` gives the `u32`.
pub proof fn lemma_u32_le_roundtrip(n: u32)
    ensures
        u32_to_le(n).len() == 4,
        le_u32_value(u32_to_le(n)) == n,
{
    reveal(u32_to_le);
    let b = u32_to_le(n);
    assert(le_u32_value(b) == n) by (nonlinear_arith)
        requires
            b[0] == n % 256,
            b[1] == (n / 256) % 256,
            b[2] == (n / 65536) % 256,
            b[3] == (n / 16777216) % 256,
            le_u32_value(b) == b[0] + 256 * b[1] + 65536 * b[2] + 16777216 * b[3],
    ;
}

/// Reads a `u32` from the first four bytes of `buf` with
/// `byteorder::LittleEndian::read_u32`, which (per its source) is
/// `u32::from_le_bytes` of those bytes; it panics on fewer than four
/// bytes, which `requires` excludes.
#[verifier::external_body]
fn le_read_u32(buf: &[u8]) -> (n: u32)
    requires
        buf@.len() >= 4,
    ensures
        n == le_u32_value(buf@),
{
    LittleEndian::read_u32(buf)
}

/// Writes `n` into four bytes with `byteorder::LittleEndian::write_u32`,
/// which stores `n.to_le_bytes()`.
#[verifier::external_body]
fn le_write_u32(n: u32) -> (b: [u8; 4])
    ensures
        b@ == u32_to_le(n),
{
    let mut b = [0u8; 4];
    LittleEndian::write_u32(&mut b, n);
    b
}

// ---------------------------------------------------------------------
// the reader and the writer
// ---------------------------------------------------------------------

/// Consumes binary data from a byte buffer.
pub struct BinaryReader {
    data: Vec<u8>,
    pos: usize,
    time: u32,
}

/// Appends binary data to a byte buffer.
pub struct BinaryWriter {
    data: Vec<u8>,
    time: u32,
}

impl BinaryReader {
    #[verifier::type_invariant]
    spec fn inv(self) -> bool {
        self.pos <= self.data.len()
    }

    /// The bytes not consumed yet.
    pub closed spec fn remaining(&self) -> Seq<u8> {
        self.data@.subrange(self.pos as int, self.data@.len() as int)
    }

    /// The running time, in milliseconds.
    pub closed spec fn time_ms(&self) -> u32 {
        self.time
    }

    /// A reader over `data`, at time zero.
    pub fn new(data: Vec<u8>) -> (r: Self)
        ensures
            r.remaining() == data@,
            r.time_ms() == 0,
    {
        let r = BinaryReader { data, pos: 0, time: 0 };
        assert(r.remaining() =~= data@);
        r
    }

    /// Sets the running time back to zero.
    pub fn reset_time(&mut self)
        ensures
            final(self).remaining() == old(self).remaining(),
            final(self).time_ms() == 0,
    {
        proof {
            use_type_invariant(&*self);
        }
        self.time = 0;
    }

    /// Reads one byte.
    fn read_byte(&mut self) -> (res: Result<u8, BinaryError>)
        ensures
            final(self).time_ms() == old(self).time_ms(),
            old(self).remaining().len() == 0 ==> res == Err::<u8, BinaryError>(
                BinaryError::UnexpectedEof,
            ) && final(self).remaining() == old(self).remaining(),
            old(self).remaining().len() > 0 ==> res == Ok::<u8, BinaryError>(
                old(self).remaining()[0],
            ) && final(self).remaining() == old(self).remaining().drop_first(),
    {
        proof {
            use_type_invariant(&*self);
        }
        if self.pos < self.data.len() {
            let b = self.data[self.pos];
            let ghost before = self.remaining();
            self.pos = self.pos + 1;
            assert(self.remaining() =~= before.drop_first());
            Ok(b)
        } else {
            Err(BinaryError::UnexpectedEof)
        }
    }

    /// Takes the next four bytes.
    fn take4(&mut self) -> (res: Result<Vec<u8>, BinaryError>)
        ensures
            final(self).time_ms() == old(self).time_ms(),
            old(self).remaining().len() < 4 ==> res == Err::<Vec<u8>, BinaryError>(
                BinaryError::UnexpectedEof,
            ),
            old(self).remaining().len() >= 4 ==> (res matches Ok(b) && b@ == old(self).remaining().take(4)
                && final(self).remaining() == old(self).remaining().skip(4)),
    {
        proof {
            use_type_invariant(&*self);
        }
        if self.data.len() - self.pos < 4 {
            return Err(BinaryError::UnexpectedEof);
        }
        let p = self.pos;
        let buf = vec![self.data[p], self.data[p + 1], self.data[p + 2], self.data[p + 3]];
        let ghost before = self.remaining();
        self.pos = p + 4;
        proof {
            assert(self.remaining() =~= before.skip(4));
            assert(buf@ =~= before.take(4));
        }
        Ok(buf)
    }

    /// Reads a uleb number. Bits above the 64th are dropped; a number
    /// longer than ten bytes is refused.
    pub fn uleb(&mut self) -> (res: Result<u64, BinaryError>)
        ensures
            final(self).time_ms() == old(self).time_ms(),
            match uleb_decode(old(self).remaining()) {
                Ok((v, n)) => res == Ok::<u64, BinaryError>(v) && final(self).remaining()
                    == old(self).remaining().skip(n as int),
                Err(e) => res == Err::<u64, BinaryError>(e),
            },
    {
        let ghost rem0 = self.remaining();
        let ghost mut acc: nat = 0;
        let mut result: u64 = 0;
        let mut mult: u64 = 1;
        let mut i: usize = 0;
        assert(rem0.skip(0) =~= rem0);
        assert(uleb_shift(uleb_parse(rem0, 0), 0, 0) == uleb_parse(rem0, 0)) by {
            match uleb_parse(rem0, 0) {
                Ok((v, n)) => {
                    assert(pow128(0) == 1);
                },
                Err(e) => {},
            }
        };
        loop
            invariant
                i <= 10,
                i <= rem0.len(),
                rem0 == old(self).remaining(),
                self.remaining() == rem0.skip(i as int),
                self.time_ms() == old(self).time_ms(),
                uleb_parse(rem0, 0) == uleb_shift(uleb_parse(self.remaining(), i as nat), acc, i as nat),
                acc < pow128(i as nat),
                result == acc % u64_modulus(),
                i <= 9 ==> mult == pow128(i as nat),
            decreases 10 - i,
        {
            let ghost rest = self.remaining();
            let b = match self.read_byte() {
                Ok(b) => b,
                Err(e) => {
                    assert(uleb_parse(rest, i as nat) == Err::<(nat, nat), BinaryError>(e));
                    assert(uleb_parse(rem0, 0) == Err::<(nat, nat), BinaryError>(e));
                    return Err(e);
                },
            };
            if i >= 10 {
                assert(uleb_parse(rest, i as nat) == Err::<(nat, nat), BinaryError>(
                    BinaryError::UlebTooLong,
                ));
                assert(uleb_parse(rem0, 0) == Err::<(nat, nat), BinaryError>(
                    BinaryError::UlebTooLong,
                ));
                return Err(BinaryError::UlebTooLong);
            }
            let payload: u64 = (b % 128) as u64;
            proof {
                lemma_pow128_positive(i as nat);
                lemma_pow128_ten();
                lemma_pow128_monotone(i as nat, 9);
                if i < 9 {
                    lemma_pow128_monotone((i + 1) as nat, 9);
                }
            }
            if b < 128 {
                // the last byte
                let ghost total: nat = acc + pow128(i as nat) * (b as nat);
                proof {
                    assert(uleb_parse(rest, i as nat) == Ok::<(nat, nat), BinaryError>((b as nat, 1)));
                    assert(uleb_parse(rem0, 0) == Ok::<(nat, nat), BinaryError>((total, (i + 1) as nat)));
                    assert(self.remaining() =~= rem0.skip(i + 1));
                }
                if i < 9 {
                    proof {
                        assert(pow128((i + 1) as nat) == 128 * pow128(i as nat));
                        assert(acc + pow128(i as nat) * (b as nat) < 128 * pow128(i as nat)) by (nonlinear_arith)
                            requires
                                b < 128,
                                acc < pow128(i as nat),
                        ;
                        assert(total < pow128((i + 1) as nat));
                        vstd::arithmetic::div_mod::lemma_small_mod(total, u64_modulus());
                        vstd::arithmetic::div_mod::lemma_small_mod(acc, u64_modulus());
                        assert(payload * mult == pow128(i as nat) * (b as nat)) by (nonlinear_arith)
                            requires
                                payload == b,
                                mult == pow128(i as nat),
                        ;
                    }
                    let r = result + payload * mult;
                    assert(r == total % u64_modulus());
                    return Ok(r);
                } else {
                    proof {
                        assert(i == 9);
                        lemma_high_byte_mod(acc, b as nat);
                        vstd::arithmetic::div_mod::lemma_small_mod(acc, u64_modulus());
                        assert(payload % 2 == (b as nat) % 2);
                    }
                    let r = result + (payload % 2) * mult;
                    assert(r == total % u64_modulus());
                    return Ok(r);
                }
            }
            let ghost p: nat = (b - 128) as nat;
            proof {
                lemma_uleb_step(rem0, rest, acc, i as nat);
            }
            if i < 9 {
                proof {
                    assert(pow128((i + 1) as nat) == 128 * pow128(i as nat));
                    assert(acc + pow128(i as nat) * p < pow128((i + 1) as nat)) by (nonlinear_arith)
                        requires
                            p < 128,
                            acc < pow128(i as nat),
                            pow128((i + 1) as nat) == 128 * pow128(i as nat),
                    ;
                    assert(payload * mult == pow128(i as nat) * p) by (nonlinear_arith)
                        requires
                            payload == p,
                            mult == pow128(i as nat),
                    ;
                }
                result = result + payload * mult;
                mult = mult * 128;
                proof {
                    acc = acc + pow128(i as nat) * p;
                }
            } else {
                proof {
                    lemma_high_byte_mod(acc, p);
                    assert(pow128(10) == 128 * pow128(9));
                    assert(acc + pow128(9) * p < pow128(10)) by (nonlinear_arith)
                        requires
                            p < 128,
                            acc < pow128(9),
                            pow128(10) == 128 * pow128(9),
                    ;
                }
                result = result + (payload % 2) * mult;
                proof {
                    acc = acc + pow128(i as nat) * p;
                }
            }
            i = i + 1;
            proof {
                assert(self.remaining() =~= rem0.skip(i as int));
            }
        }
    }

    /// Reads the next time stamp: a uleb delta (its low 32 bits) added to
    /// the running time. Fails when the sum leaves `u32`.
    pub fn time_ms_delta(&mut self) -> (res: Result<u32, BinaryError>)
        ensures
            match uleb_decode(old(self).remaining()) {
                Ok((d, n)) => {
                    let t = old(self).time_ms() + d % 0x1_0000_0000;
                    if t <= u32::MAX {
                        res == Ok::<u32, BinaryError>(t as u32) && final(self).time_ms() == t
                            && final(self).remaining() == old(self).remaining().skip(n as int)
                    } else {
                        res == Err::<u32, BinaryError>(BinaryError::TimeOverflow)
                    }
                },
                Err(e) => res == Err::<u32, BinaryError>(e),
            },
    {
        let d = match self.uleb() {
            Ok(d) => d,
            Err(e) => {
                return Err(e);
            },
        };
        let d32: u32 = (d % 0x1_0000_0000) as u32;
        proof {
            use_type_invariant(&*self);
        }
        if d32 > u32::MAX - self.time {
            return Err(BinaryError::TimeOverflow);
        }
        self.time = self.time + d32;
        Ok(self.time)
    }

    /// Reads a value.
    pub fn read<T: BinaryData>(&mut self) -> (res: Result<T, BinaryError>)
        ensures
            match T::spec_decode(old(self).remaining(), old(self).time_ms()) {
                Ok((v, n, t)) => res matches Ok(x) && x@ == v && final(self).remaining() == old(
                    self,
                ).remaining().skip(n as int) && final(self).time_ms() == t,
                Err(e) => res == Err::<T, BinaryError>(e),
            },
    {
        T::read_binary(self)
    }

    /// Reads `count` values one after another.
    pub fn read_seq<T: BinaryData>(&mut self, count: u64) -> (res: Result<Vec<T>, BinaryError>)
        ensures
            match decode_seq::<T>(old(self).remaining(), count as nat, old(self).time_ms()) {
                Ok((vs, n, t)) => res matches Ok(xs) && views_of(xs@) == vs
                    && final(self).remaining() == old(self).remaining().skip(n as int)
                    && final(self).time_ms() == t,
                Err(e) => res is Err && res->Err_0 == e,
            },
    {
        let ghost rem1 = self.remaining();
        let ghost t0 = self.time_ms();
        let mut out: Vec<T> = Vec::new();
        let mut j: u64 = 0;
        let ghost mut used: nat = 0;
        assert(rem1.skip(0) =~= rem1);
        assert(views_of(out@) =~= Seq::<T::V>::empty());
        assert(decode_seq::<T>(rem1, count as nat, t0) == seq_shift::<T>(
            decode_seq::<T>(rem1, count as nat, t0),
            Seq::<T::V>::empty(),
            0,
        )) by {
            match decode_seq::<T>(rem1, count as nat, t0) {
                Ok((vs, m, t)) => {
                    assert(Seq::<T::V>::empty() + vs =~= vs);
                },
                Err(e) => {},
            }
        };
        while j < count
            invariant
                j <= count,
                rem1 == old(self).remaining(),
                t0 == old(self).time_ms(),
                used <= rem1.len(),
                self.remaining() == rem1.skip(used as int),
                decode_seq::<T>(rem1, count as nat, t0) == seq_shift::<T>(
                    decode_seq::<T>(self.remaining(), (count - j) as nat, self.time_ms()),
                    views_of(out@),
                    used,
                ),
            decreases count - j,
        {
            let ghost cur = self.remaining();
            let ghost tc = self.time_ms();
            proof {
                T::lemma_decode_len(cur, tc);
            }
            let x = match T::read_binary(self) {
                Ok(x) => x,
                Err(e) => {
                    return Err(e);
                },
            };
            let ghost n: nat = T::spec_decode(cur, tc)->Ok_0.1;
            proof {
                lemma_seq_step::<T>(
                    rem1,
                    count as nat,
                    t0,
                    cur,
                    (count - j) as nat,
                    tc,
                    views_of(out@),
                    used,
                );
                assert(views_of(out@.push(x)) =~= views_of(out@).push(x@));
            }
            out.push(x);
            j = j + 1;
            proof {
                used = used + n;
                assert(self.remaining() =~= rem1.skip(used as int));
            }
        }
        proof {
            assert(views_of(out@) + Seq::<T::V>::empty() =~= views_of(out@));
        }
        Ok(out)
    }

    /// Reads a value at index `pos` of `all`, where the reader stands.
    pub(crate) fn read_at<T: BinaryData>(
        &mut self,
        Ghost(all): Ghost<Seq<u8>>,
        Ghost(pos): Ghost<nat>,
    ) -> (res: Result<T, BinaryError>)
        requires
            pos <= all.len(),
            old(self).remaining() == all.skip(pos as int),
        ensures
            match decode_at::<T>(all, pos, old(self).time_ms()) {
                Ok((v, p, t)) => res matches Ok(x) && x@ == v && p <= all.len()
                    && final(self).remaining() == all.skip(p as int)
                    && final(self).time_ms() == t,
                Err(e) => res == Err::<T, BinaryError>(e),
            },
    {
        proof {
            T::lemma_decode_len(all.skip(pos as int), self.time_ms());
        }
        let res = self.read::<T>();
        proof {
            match T::spec_decode(all.skip(pos as int), old(self).time_ms()) {
                Ok((v, n, t)) => {
                    assert(all.skip(pos as int).skip(n as int) =~= all.skip((pos + n) as int));
                },
                Err(e) => {},
            }
        }
        res
    }

    /// Reads an array at index `pos` of `all`, where the reader stands.
    pub(crate) fn array_at<T: BinaryData>(
        &mut self,
        Ghost(all): Ghost<Seq<u8>>,
        Ghost(pos): Ghost<nat>,
    ) -> (res: Result<Vec<T>, BinaryError>)
        requires
            pos <= all.len(),
            old(self).remaining() == all.skip(pos as int),
        ensures
            match decode_array_at::<T>(all, pos, old(self).time_ms()) {
                Ok((vs, p, t)) => res matches Ok(xs) && views_of(xs@) == vs && p <= all.len()
                    && final(self).remaining() == all.skip(p as int)
                    && final(self).time_ms() == t,
                Err(e) => res is Err && res->Err_0 == e,
            },
    {
        proof {
            lemma_decode_array_len::<T>(all.skip(pos as int), self.time_ms());
        }
        let res = self.array::<T>();
        proof {
            match decode_array::<T>(all.skip(pos as int), old(self).time_ms()) {
                Ok((vs, n, t)) => {
                    assert(all.skip(pos as int).skip(n as int) =~= all.skip((pos + n) as int));
                },
                Err(e) => {},
            }
        }
        res
    }

    /// Reads a uleb number at index `pos` of `all`, where the reader stands.
    pub(crate) fn uleb_at(&mut self, Ghost(all): Ghost<Seq<u8>>, Ghost(pos): Ghost<nat>) -> (res:
        Result<u64, BinaryError>)
        requires
            pos <= all.len(),
            old(self).remaining() == all.skip(pos as int),
        ensures
            final(self).time_ms() == old(self).time_ms(),
            match uleb_at(all, pos) {
                Ok((v, p)) => res == Ok::<u64, BinaryError>(v) && p <= all.len()
                    && final(self).remaining() == all.skip(p as int),
                Err(e) => res == Err::<u64, BinaryError>(e),
            },
    {
        proof {
            lemma_uleb_parse_len(all.skip(pos as int), 0);
        }
        let res = self.uleb();
        proof {
            match uleb_decode(all.skip(pos as int)) {
                Ok((v, n)) => {
                    assert(all.skip(pos as int).skip(n as int) =~= all.skip((pos + n) as int));
                },
                Err(e) => {},
            }
        }
        res
    }

    /// Reads a uleb count followed by that many values.
    pub fn array<T: BinaryData>(&mut self) -> (res: Result<Vec<T>, BinaryError>)
        ensures
            match decode_array::<T>(old(self).remaining(), old(self).time_ms()) {
                Ok((vs, n, t)) => res matches Ok(xs) && views_of(xs@) == vs
                    && final(self).remaining() == old(self).remaining().skip(n as int)
                    && final(self).time_ms() == t,
                Err(e) => res is Err && res->Err_0 == e,
            },
    {
        let ghost rem0 = self.remaining();
        let count = match self.uleb() {
            Ok(c) => c,
            Err(e) => {
                return Err(e);
            },
        };
        proof {
            lemma_uleb_parse_len(rem0, 0);
        }
        let ghost k: nat = uleb_parse(rem0, 0)->Ok_0.1;
        let res = self.read_seq::<T>(count);
        proof {
            match decode_seq::<T>(rem0.skip(k as int), count as nat, old(self).time_ms()) {
                Ok((vs, m, t)) => {
                    lemma_decode_seq_len::<T>(rem0.skip(k as int), count as nat, old(self).time_ms());
                    assert(rem0.skip((k + m) as int) =~= rem0.skip(k as int).skip(m as int));
                },
                Err(e) => {},
            }
        }
        res
    }
}

impl BinaryWriter {
    /// Everything written so far.
    pub closed spec fn bytes(&self) -> Seq<u8> {
        self.data@
    }

    /// The running time, in milliseconds.
    pub closed spec fn time_ms(&self) -> u32 {
        self.time
    }

    /// A writer that appends to `data`, at time zero.
    pub fn new(data: Vec<u8>) -> (w: Self)
        ensures
            w.bytes() == data@,
            w.time_ms() == 0,
    {
        BinaryWriter { data, time: 0 }
    }

    /// The bytes written, the initial contents first.
    pub fn into_inner(self) -> (data: Vec<u8>)
        ensures
            data@ == self.bytes(),
    {
        self.data
    }

    /// Sets the running time back to zero.
    pub fn reset_time(&mut self)
        ensures
            final(self).bytes() == old(self).bytes(),
            final(self).time_ms() == 0,
    {
        self.time = 0;
    }

    /// Writes one byte.
    fn write_byte(&mut self, b: u8)
        ensures
            final(self).bytes() == old(self).bytes().push(b),
            final(self).time_ms() == old(self).time_ms(),
    {
        self.data.push(b);
    }

    /// Writes `v` as a uleb number.
    pub fn uleb(&mut self, v: u64) -> (res: Result<(), BinaryError>)
        ensures
            res is Ok,
            final(self).bytes() == old(self).bytes() + uleb_encode(v as nat),
            final(self).time_ms() == old(self).time_ms(),
    {
        let mut cur = v;
        let ghost mut prefix: Seq<u8> = Seq::empty();
        assert(uleb_encode(v as nat) =~= prefix + uleb_encode(cur as nat));
        assert(self.bytes() =~= old(self).bytes() + prefix);
        loop
            invariant
                self.bytes() == old(self).bytes() + prefix,
                uleb_encode(v as nat) == prefix + uleb_encode(cur as nat),
                self.time_ms() == old(self).time_ms(),
            decreases cur,
        {
            let low: u8 = (cur % 128) as u8;
            let ghost old_cur = cur;
            cur = cur / 128;
            let byte: u8 = if cur != 0 {
                low + 128
            } else {
                low
            };
            self.write_byte(byte);
            proof {
                if old_cur < 128 {
                    assert(uleb_encode(old_cur as nat) == seq![old_cur as u8]);
                    assert(prefix + uleb_encode(old_cur as nat) =~= prefix.push(byte));
                } else {
                    assert(uleb_encode(old_cur as nat) == seq![byte] + uleb_encode(cur as nat));
                    assert(prefix + uleb_encode(old_cur as nat) =~= prefix.push(byte) + uleb_encode(
                        cur as nat,
                    ));
                }
                prefix = prefix.push(byte);
                assert(self.bytes() =~= old(self).bytes() + prefix);
            }
            if cur == 0 {
                assert(uleb_encode(v as nat) == prefix);
                return Ok(());
            }
        }
    }

    /// Writes the next time stamp `v` as the uleb delta from the running
    /// time, which becomes `v`. Time stamps must not decrease.
    pub fn time_ms_delta(&mut self, v: u32) -> (res: Result<(), BinaryError>)
        requires
            v >= old(self).time_ms(),
        ensures
            res is Ok,
            final(self).bytes() == old(self).bytes() + uleb_encode((v - old(self).time_ms()) as nat),
            final(self).time_ms() == v,
    {
        let d: u64 = (v - self.time) as u64;
        let r = self.uleb(d);
        self.time = v;
        r
    }

    /// Writes a value.
    pub fn write<T: BinaryData>(&mut self, v: &T) -> (res: Result<(), BinaryError>)
        requires
            T::spec_writable(v@, old(self).time_ms()),
        ensures
            res is Ok,
            final(self).bytes() == old(self).bytes() + T::spec_encode(v@, old(self).time_ms()),
            final(self).time_ms() == T::spec_time_after(v@, old(self).time_ms()),
    {
        v.write_binary(self)
    }

    /// Writes a value, taking it by value.
    pub fn write_val<T: BinaryData>(&mut self, v: T) -> (res: Result<(), BinaryError>)
        requires
            T::spec_writable(v@, old(self).time_ms()),
        ensures
            res is Ok,
            final(self).bytes() == old(self).bytes() + T::spec_encode(v@, old(self).time_ms()),
            final(self).time_ms() == T::spec_time_after(v@, old(self).time_ms()),
    {
        v.write_binary(self)
    }

    /// Writes the elements of `v` one after another.
    pub fn write_seq<T: BinaryData>(&mut self, v: &[T]) -> (res: Result<(), BinaryError>)
        requires
            seq_writable::<T>(views_of(v@), old(self).time_ms()),
        ensures
            res is Ok,
            final(self).bytes() == old(self).bytes() + encode_seq::<T>(
                views_of(v@),
                old(self).time_ms(),
            ),
            final(self).time_ms() == seq_time_after::<T>(views_of(v@), old(self).time_ms()),
    {
        let ghost t0 = self.time_ms();
        let ghost start = self.bytes();
        let len = v.len();
        let mut i: usize = 0;
        assert(views_of(v@.take(0)) =~= Seq::<T::V>::empty());
        assert(start =~= start + encode_seq::<T>(Seq::empty(), t0));
        while i < len
            invariant
                len == v@.len(),
                i <= len,
                t0 == old(self).time_ms(),
                start == old(self).bytes(),
                seq_writable::<T>(views_of(v@), t0),
                self.bytes() == start + encode_seq::<T>(views_of(v@.take(i as int)), t0),
                self.time_ms() == seq_time_after::<T>(views_of(v@.take(i as int)), t0),
            decreases len - i,
        {
            let ghost before = views_of(v@.take(i as int));
            proof {
                lemma_seq_append::<T>(before, views_of(v@).skip(i as int), t0);
                assert(before + views_of(v@).skip(i as int) =~= views_of(v@));
                assert(views_of(v@).skip(i as int)[0] == v@[i as int]@);
            }
            let r = v[i].write_binary(self);
            proof {
                assert(views_of(v@.take(i + 1)) =~= before.push(v@[i as int]@));
                lemma_seq_push::<T>(before, v@[i as int]@, t0);
                assert(self.bytes() =~= start + encode_seq::<T>(views_of(v@.take(i + 1)), t0));
            }
            i = i + 1;
        }
        proof {
            assert(v@.take(len as int) =~= v@);
        }
        Ok(())
    }

    /// Writes the length of `v` as a uleb number, then its elements.
    pub fn array<T: BinaryData>(&mut self, v: &[T]) -> (res: Result<(), BinaryError>)
        requires
            seq_writable::<T>(views_of(v@), old(self).time_ms()),
        ensures
            res is Ok,
            final(self).bytes() == old(self).bytes() + encode_array::<T>(
                views_of(v@),
                old(self).time_ms(),
            ),
            final(self).time_ms() == seq_time_after::<T>(views_of(v@), old(self).time_ms()),
    {
        let _ = self.uleb(v.len() as u64);
        let r = self.write_seq(v);
        assert(self.bytes() =~= old(self).bytes() + encode_array::<T>(
            views_of(v@),
            old(self).time_ms(),
        ));
        r
    }

    /// Writes `x`, the value at index `k` of `all`, given that the bytes
    /// written so far followed by the encoding of `all` from index `k` on
    /// make `goal`.
    pub(crate) fn write_step<T: BinaryData>(
        &mut self,
        x: &T,
        Ghost(all): Ghost<Seq<T::V>>,
        Ghost(k): Ghost<int>,
        Ghost(goal): Ghost<Seq<u8>>,
    )
        requires
            0 <= k < all.len(),
            all[k] == x@,
            old(self).bytes() + encode_seq::<T>(all.skip(k), old(self).time_ms()) == goal,
            seq_writable::<T>(all.skip(k), old(self).time_ms()),
        ensures
            final(self).bytes() + encode_seq::<T>(all.skip(k + 1), final(self).time_ms()) == goal,
            seq_writable::<T>(all.skip(k + 1), final(self).time_ms()),
            seq_time_after::<T>(all.skip(k + 1), final(self).time_ms()) == seq_time_after::<T>(
                all.skip(k),
                old(self).time_ms(),
            ),
    {
        let ghost t = self.time_ms();
        proof {
            assert(all.skip(k).drop_first() =~= all.skip(k + 1));
            assert(all.skip(k)[0] == x@);
        }
        let _ = x.write_binary(self);
        proof {
            let e = T::spec_encode(x@, t);
            let r = encode_seq::<T>(all.skip(k + 1), self.time_ms());
            assert(old(self).bytes() + (e + r) =~= (old(self).bytes() + e) + r);
        }
    }
}

/// The high byte of a ten-byte number keeps only its lowest bit below
/// `2^64`.
proof fn lemma_high_byte_mod(acc: nat, p: nat)
    requires
        acc < 0x8000_0000_0000_0000,
        p < 128,
    ensures
        (acc + 0x8000_0000_0000_0000 * p) % u64_modulus() == acc + (p % 2)
            * 0x8000_0000_0000_0000,
        acc + (p % 2) * 0x8000_0000_0000_0000 < u64_modulus(),
{
    let q = p / 2;
    let r = p % 2;
    assert(p == 2 * q + r);
    assert(acc + 0x8000_0000_0000_0000 * p == (acc + r * 0x8000_0000_0000_0000) + q
        * u64_modulus()) by (nonlinear_arith)
        requires
            p == 2 * q + r,
    ;
    vstd::arithmetic::div_mod::lemma_mod_multiples_vanish(
        q as int,
        (acc + r * 0x8000_0000_0000_0000) as int,
        u64_modulus() as int,
    );
    vstd::arithmetic::div_mod::lemma_small_mod(
        (acc + r * 0x8000_0000_0000_0000) as nat,
        u64_modulus(),
    );
}

/// A time stamp written at running time `t` is read back by a reader at
/// running time `t`: the delta decodes and adds up to the time stamp.
pub proof fn lemma_time_roundtrip(t: u32, v: u32, rest: Seq<u8>)
    requires
        t <= v,
    ensures
        uleb_decode(uleb_encode((v - t) as nat) + rest) matches Ok((d, n)) && t + d % 0x1_0000_0000
            == v && n == uleb_encode((v - t) as nat).len(),
{
    lemma_uleb_roundtrip((v - t) as u64, rest);
    vstd::arithmetic::div_mod::lemma_small_mod((v - t) as nat, 0x1_0000_0000);
}

// ---------------------------------------------------------------------
// values
// ---------------------------------------------------------------------

/// A value with a binary encoding.
///
/// Encodings may hold time stamps, stored as deltas from the running time
/// of the writer (and of the reader), so every encoding is taken at a
/// running time `t` and leaves a running time behind.
pub trait BinaryData: Sized + View {
    /// Whether `v` reads back as itself: its lengths fit the format and
    /// every tag it holds is one the reader accepts.
    spec fn spec_wf(v: Self::V) -> bool;

    /// Whether a writer at running time `t` can write `v`: every part of
    /// `v` has a binary form, and no time stamp in `v` lies before the
    /// running time it is written at.
    spec fn spec_writable(v: Self::V, t: u32) -> bool;

    /// The bytes that encode `v` at running time `t`.
    spec fn spec_encode(v: Self::V, t: u32) -> Seq<u8>;

    /// The running time after `v` is encoded at running time `t`.
    spec fn spec_time_after(v: Self::V, t: u32) -> u32;

    /// The value at the front of `bytes` for a reader at running time `t`,
    /// the number of bytes it takes and the running time after it.
    spec fn spec_decode(bytes: Seq<u8>, t: u32) -> Result<(Self::V, nat, u32), BinaryError>;

    /// A decoded value takes at least one of the bytes there are.
    proof fn lemma_decode_len(bytes: Seq<u8>, t: u32)
        ensures
            Self::spec_decode(bytes, t) matches Ok((_, n, _)) ==> 1 <= n <= bytes.len(),
    ;

    /// Decoding an encoding gives back the value and the writer's running
    /// time, whatever follows it.
    proof fn lemma_roundtrip(v: Self::V, t: u32, rest: Seq<u8>)
        requires
            Self::spec_wf(v),
            Self::spec_writable(v, t),
        ensures
            Self::spec_decode(Self::spec_encode(v, t) + rest, t) == Ok::<
                (Self::V, nat, u32),
                BinaryError,
            >((v, Self::spec_encode(v, t).len(), Self::spec_time_after(v, t))),
    ;

    /// Reads a value from `r`.
    fn read_binary(r: &mut BinaryReader) -> (res: Result<Self, BinaryError>)
        ensures
            match Self::spec_decode(old(r).remaining(), old(r).time_ms()) {
                Ok((v, n, t)) => res matches Ok(x) && x@ == v && final(r).remaining() == old(
                    r,
                ).remaining().skip(n as int) && final(r).time_ms() == t,
                Err(e) => res == Err::<Self, BinaryError>(e),
            },
    ;

    /// Writes this value to `w`.
    fn write_binary(&self, w: &mut BinaryWriter) -> (res: Result<(), BinaryError>)
        requires
            Self::spec_writable(self@, old(w).time_ms()),
        ensures
            res is Ok,
            final(w).bytes() == old(w).bytes() + Self::spec_encode(self@, old(w).time_ms()),
            final(w).time_ms() == Self::spec_time_after(self@, old(w).time_ms()),
    ;
}

/// The views of a sequence of values.
pub open spec fn views_of<T: View>(s: Seq<T>) -> Seq<T::V> {
    s.map_values(|x: T| x@)
}

/// Whether every value of `vs` reads back as itself.
pub open spec fn all_wf<T: BinaryData>(vs: Seq<T::V>) -> bool {
    forall|i: int| 0 <= i < vs.len() ==> #[trigger] T::spec_wf(vs[i])
}

/// The encodings of `vs`, one after another, from running time `t`.
pub open spec fn encode_seq<T: BinaryData>(vs: Seq<T::V>, t: u32) -> Seq<u8>
    decreases vs.len(),
{
    if vs.len() == 0 {
        Seq::empty()
    } else {
        T::spec_encode(vs[0], t) + encode_seq::<T>(vs.drop_first(), T::spec_time_after(vs[0], t))
    }
}

/// The running time after the encodings of `vs` from running time `t`.
pub open spec fn seq_time_after<T: BinaryData>(vs: Seq<T::V>, t: u32) -> u32
    decreases vs.len(),
{
    if vs.len() == 0 {
        t
    } else {
        seq_time_after::<T>(vs.drop_first(), T::spec_time_after(vs[0], t))
    }
}

/// Whether a writer at running time `t` can write `vs` one after another.
pub open spec fn seq_writable<T: BinaryData>(vs: Seq<T::V>, t: u32) -> bool
    decreases vs.len(),
{
    vs.len() == 0 || (T::spec_writable(vs[0], t) && seq_writable::<T>(
        vs.drop_first(),
        T::spec_time_after(vs[0], t),
    ))
}

/// `n` values at the front of `bytes` for a reader at running time `t`,
/// the number of bytes they take and the running time after them.
pub open spec fn decode_seq<T: BinaryData>(bytes: Seq<u8>, n: nat, t: u32) -> Result<
    (Seq<T::V>, nat, u32),
    BinaryError,
>
    decreases n,
{
    if n == 0 {
        Ok((Seq::empty(), 0, t))
    } else {
        match T::spec_decode(bytes, t) {
            Ok((v, k, t1)) => match decode_seq::<T>(bytes.skip(k as int), (n - 1) as nat, t1) {
                Ok((vs, m, t2)) => Ok((seq![v] + vs, k + m, t2)),
                Err(e) => Err(e),
            },
            Err(e) => Err(e),
        }
    }
}

/// Moves a decode result of the tail of a sequence to the whole sequence,
/// given the values `pre` before the tail and the bytes `used` for them.
pub open spec fn seq_shift<T: BinaryData>(
    r: Result<(Seq<T::V>, nat, u32), BinaryError>,
    pre: Seq<T::V>,
    used: nat,
) -> Result<(Seq<T::V>, nat, u32), BinaryError> {
    match r {
        Ok((vs, m, t)) => Ok((pre + vs, used + m, t)),
        Err(e) => Err(e),
    }
}

/// The encoding of an array: its length as a uleb number, then its values.
pub open spec fn encode_array<T: BinaryData>(vs: Seq<T::V>, t: u32) -> Seq<u8> {
    uleb_encode(vs.len()) + encode_seq::<T>(vs, t)
}

/// An array at the front of `bytes` for a reader at running time `t`, the
/// number of bytes it takes and the running time after it.
pub open spec fn decode_array<T: BinaryData>(bytes: Seq<u8>, t: u32) -> Result<
    (Seq<T::V>, nat, u32),
    BinaryError,
> {
    match uleb_decode(bytes) {
        Ok((count, k)) => match decode_seq::<T>(bytes.skip(k as int), count as nat, t) {
            Ok((vs, m, t1)) => Ok((vs, k + m, t1)),
            Err(e) => Err(e),
        },
        Err(e) => Err(e),
    }
}

proof fn lemma_seq_step<T: BinaryData>(
    rem1: Seq<u8>,
    count: nat,
    t0: u32,
    cur: Seq<u8>,
    left: nat,
    tc: u32,
    pre: Seq<T::V>,
    used: nat,
)
    requires
        left > 0,
        decode_seq::<T>(rem1, count, t0) == seq_shift::<T>(decode_seq::<T>(cur, left, tc), pre, used),
        T::spec_decode(cur, tc) is Ok,
    ensures
        ({
            let (v, n, t1) = T::spec_decode(cur, tc)->Ok_0;
            decode_seq::<T>(rem1, count, t0) == seq_shift::<T>(
                decode_seq::<T>(cur.skip(n as int), (left - 1) as nat, t1),
                pre.push(v),
                used + n,
            )
        }),
{
    let (v, n, t1) = T::spec_decode(cur, tc)->Ok_0;
    match decode_seq::<T>(cur.skip(n as int), (left - 1) as nat, t1) {
        Ok((vs, m, t2)) => {
            assert(pre + (seq![v] + vs) =~= pre.push(v) + vs);
        },
        Err(e) => {},
    }
}

/// Encoding `a + b` is encoding `a`, then `b` from where `a` left the
/// running time.
pub proof fn lemma_seq_append<T: BinaryData>(a: Seq<T::V>, b: Seq<T::V>, t: u32)
    ensures
        encode_seq::<T>(a + b, t) == encode_seq::<T>(a, t) + encode_seq::<T>(
            b,
            seq_time_after::<T>(a, t),
        ),
        seq_time_after::<T>(a + b, t) == seq_time_after::<T>(b, seq_time_after::<T>(a, t)),
        seq_writable::<T>(a + b, t) == (seq_writable::<T>(a, t) && seq_writable::<T>(
            b,
            seq_time_after::<T>(a, t),
        )),
    decreases a.len(),
{
    if a.len() == 0 {
        assert(a + b =~= b);
        assert(encode_seq::<T>(a, t) + encode_seq::<T>(b, t) =~= encode_seq::<T>(b, t));
    } else {
        let t1 = T::spec_time_after(a[0], t);
        lemma_seq_append::<T>(a.drop_first(), b, t1);
        assert((a + b).drop_first() =~= a.drop_first() + b);
        assert((a + b)[0] == a[0]);
        let e0 = T::spec_encode(a[0], t);
        assert(e0 + (encode_seq::<T>(a.drop_first(), t1) + encode_seq::<T>(
            b,
            seq_time_after::<T>(a.drop_first(), t1),
        )) =~= (e0 + encode_seq::<T>(a.drop_first(), t1)) + encode_seq::<T>(
            b,
            seq_time_after::<T>(a.drop_first(), t1),
        ));
    }
}

/// Encoding one more value appends its encoding at the running time the
/// others left.
pub proof fn lemma_seq_push<T: BinaryData>(vs: Seq<T::V>, v: T::V, t: u32)
    ensures
        encode_seq::<T>(vs.push(v), t) == encode_seq::<T>(vs, t) + T::spec_encode(
            v,
            seq_time_after::<T>(vs, t),
        ),
        seq_time_after::<T>(vs.push(v), t) == T::spec_time_after(v, seq_time_after::<T>(vs, t)),
        seq_writable::<T>(vs.push(v), t) == (seq_writable::<T>(vs, t) && T::spec_writable(
            v,
            seq_time_after::<T>(vs, t),
        )),
{
    let t1 = seq_time_after::<T>(vs, t);
    lemma_seq_append::<T>(vs, seq![v], t);
    assert(vs + seq![v] =~= vs.push(v));
    let t2 = T::spec_time_after(v, t1);
    assert(seq![v].drop_first() =~= Seq::<T::V>::empty());
    assert(encode_seq::<T>(Seq::<T::V>::empty(), t2) == Seq::<u8>::empty());
    assert(seq_time_after::<T>(Seq::<T::V>::empty(), t2) == t2);
    assert(seq_writable::<T>(Seq::<T::V>::empty(), t2));
    assert(encode_seq::<T>(seq![v], t1) =~= T::spec_encode(v, t1));
    assert(seq_time_after::<T>(seq![v], t1) == t2);
}

/// Decoding the encodings of `vs` gives back `vs` and the writer's running
/// time, whatever follows.
pub proof fn lemma_seq_roundtrip<T: BinaryData>(vs: Seq<T::V>, t: u32, rest: Seq<u8>)
    requires
        all_wf::<T>(vs),
        seq_writable::<T>(vs, t),
    ensures
        decode_seq::<T>(encode_seq::<T>(vs, t) + rest, vs.len(), t) == Ok::<
            (Seq<T::V>, nat, u32),
            BinaryError,
        >((vs, encode_seq::<T>(vs, t).len(), seq_time_after::<T>(vs, t))),
    decreases vs.len(),
{
    if vs.len() > 0 {
        let first = vs[0];
        let tail = vs.drop_first();
        let t1 = T::spec_time_after(first, t);
        let e0 = T::spec_encode(first, t);
        let bytes = encode_seq::<T>(vs, t) + rest;
        assert(bytes =~= e0 + (encode_seq::<T>(tail, t1) + rest));
        T::lemma_roundtrip(first, t, encode_seq::<T>(tail, t1) + rest);
        assert(bytes.skip(e0.len() as int) =~= encode_seq::<T>(tail, t1) + rest);
        assert forall|i: int| 0 <= i < tail.len() implies #[trigger] T::spec_wf(tail[i]) by {
            assert(tail[i] == vs[i + 1]);
        };
        lemma_seq_roundtrip::<T>(tail, t1, rest);
        assert(seq![first] + tail =~= vs);
    }
}

/// Decoded values take no more than the bytes there are, and at least one
/// byte when there is a value.
pub proof fn lemma_decode_seq_len<T: BinaryData>(bytes: Seq<u8>, n: nat, t: u32)
    ensures
        decode_seq::<T>(bytes, n, t) matches Ok((_, m, _)) ==> m <= bytes.len() && (n > 0 ==> m
            >= 1),
    decreases n,
{
    if n > 0 {
        T::lemma_decode_len(bytes, t);
        match T::spec_decode(bytes, t) {
            Ok((v, k, t1)) => {
                lemma_decode_seq_len::<T>(bytes.skip(k as int), (n - 1) as nat, t1);
            },
            Err(e) => {},
        }
    }
}

/// Decoding `n` values gives `n` values.
pub proof fn lemma_decode_seq_count<T: BinaryData>(bytes: Seq<u8>, n: nat, t: u32)
    ensures
        decode_seq::<T>(bytes, n, t) matches Ok((vs, _, _)) ==> vs.len() == n,
    decreases n,
{
    if n > 0 {
        match T::spec_decode(bytes, t) {
            Ok((v, k, t1)) => {
                lemma_decode_seq_count::<T>(bytes.skip(k as int), (n - 1) as nat, t1);
            },
            Err(e) => {},
        }
    }
}

/// A decoded array takes at least one of the bytes there are.
pub proof fn lemma_decode_array_len<T: BinaryData>(bytes: Seq<u8>, t: u32)
    ensures
        decode_array::<T>(bytes, t) matches Ok((_, n, _)) ==> 1 <= n <= bytes.len(),
{
    match uleb_decode(bytes) {
        Ok((count, k)) => {
            lemma_uleb_parse_len(bytes, 0);
            lemma_decode_seq_len::<T>(bytes.skip(k as int), count as nat, t);
        },
        Err(e) => {},
    }
}

/// An array written by the writer is read back unchanged, whatever bytes
/// follow it.
pub proof fn lemma_array_roundtrip<T: BinaryData>(vs: Seq<T::V>, t: u32, rest: Seq<u8>)
    requires
        all_wf::<T>(vs),
        seq_writable::<T>(vs, t),
        vs.len() <= u64::MAX,
    ensures
        decode_array::<T>(encode_array::<T>(vs, t) + rest, t) == Ok::<
            (Seq<T::V>, nat, u32),
            BinaryError,
        >((vs, encode_array::<T>(vs, t).len(), seq_time_after::<T>(vs, t))),
{
    let head = uleb_encode(vs.len());
    let body = encode_seq::<T>(vs, t);
    let bytes = encode_array::<T>(vs, t) + rest;
    assert(bytes =~= head + (body + rest));
    lemma_uleb_roundtrip(vs.len() as u64, body + rest);
    assert(bytes.skip(head.len() as int) =~= body + rest);
    lemma_seq_roundtrip::<T>(vs, t, rest);
}

/// The value at index `pos` of `bytes` for a reader at running time `t`,
/// the index after it and the running time after it.
pub open spec fn decode_at<T: BinaryData>(bytes: Seq<u8>, pos: nat, t: u32) -> Result<
    (T::V, nat, u32),
    BinaryError,
> {
    match T::spec_decode(bytes.skip(pos as int), t) {
        Ok((v, n, t1)) => Ok((v, pos + n, t1)),
        Err(e) => Err(e),
    }
}

/// The array at index `pos` of `bytes` for a reader at running time `t`,
/// the index after it and the running time after it.
pub open spec fn decode_array_at<T: BinaryData>(bytes: Seq<u8>, pos: nat, t: u32) -> Result<
    (Seq<T::V>, nat, u32),
    BinaryError,
> {
    match decode_array::<T>(bytes.skip(pos as int), t) {
        Ok((vs, n, t1)) => Ok((vs, pos + n, t1)),
        Err(e) => Err(e),
    }
}

/// The uleb number at index `pos` of `bytes` and the index after it.
pub open spec fn uleb_at(bytes: Seq<u8>, pos: nat) -> Result<(u64, nat), BinaryError> {
    match uleb_decode(bytes.skip(pos as int)) {
        Ok((v, n)) => Ok((v, pos + n)),
        Err(e) => Err(e),
    }
}

/// A value decoded at `pos` ends after `pos` and within the bytes.
pub proof fn lemma_decode_at_len<T: BinaryData>(bytes: Seq<u8>, pos: nat, t: u32)
    ensures
        pos <= bytes.len() ==> (decode_at::<T>(bytes, pos, t) matches Ok((_, p, _)) ==> pos < p
            <= bytes.len()),
{
    T::lemma_decode_len(bytes.skip(pos as int), t);
}

/// An array decoded at `pos` ends after `pos` and within the bytes.
pub proof fn lemma_decode_array_at_len<T: BinaryData>(bytes: Seq<u8>, pos: nat, t: u32)
    ensures
        pos <= bytes.len() ==> (decode_array_at::<T>(bytes, pos, t) matches Ok((_, p, _)) ==> pos
            < p <= bytes.len()),
{
    lemma_decode_array_len::<T>(bytes.skip(pos as int), t);
}

/// A uleb number read at `pos` ends after `pos` and within the bytes.
pub proof fn lemma_uleb_at_len(bytes: Seq<u8>, pos: nat)
    ensures
        pos <= bytes.len() ==> (uleb_at(bytes, pos) matches Ok((_, p)) ==> pos < p <= bytes.len()),
{
    lemma_uleb_parse_len(bytes.skip(pos as int), 0);
}

/// A value written after `pre` is read back at index `pre.len()`.
pub proof fn lemma_decode_at_roundtrip<T: BinaryData>(
    pre: Seq<u8>,
    v: T::V,
    t: u32,
    rest: Seq<u8>,
)
    requires
        T::spec_wf(v),
        T::spec_writable(v, t),
    ensures
        decode_at::<T>(pre + T::spec_encode(v, t) + rest, pre.len(), t) == Ok::<
            (T::V, nat, u32),
            BinaryError,
        >((v, pre.len() + T::spec_encode(v, t).len(), T::spec_time_after(v, t))),
{
    let e = T::spec_encode(v, t);
    assert((pre + e + rest).skip(pre.len() as int) =~= e + rest);
    T::lemma_roundtrip(v, t, rest);
}

/// An array written after `pre` is read back at index `pre.len()`.
pub proof fn lemma_decode_array_at_roundtrip<T: BinaryData>(
    pre: Seq<u8>,
    vs: Seq<T::V>,
    t: u32,
    rest: Seq<u8>,
)
    requires
        all_wf::<T>(vs),
        seq_writable::<T>(vs, t),
        vs.len() <= u64::MAX,
    ensures
        decode_array_at::<T>(pre + encode_array::<T>(vs, t) + rest, pre.len(), t) == Ok::<
            (Seq<T::V>, nat, u32),
            BinaryError,
        >((vs, pre.len() + encode_array::<T>(vs, t).len(), seq_time_after::<T>(vs, t))),
{
    let e = encode_array::<T>(vs, t);
    assert((pre + e + rest).skip(pre.len() as int) =~= e + rest);
    lemma_array_roundtrip::<T>(vs, t, rest);
}

/// A uleb number written after `pre` is read back at index `pre.len()`.
pub proof fn lemma_uleb_at_roundtrip(pre: Seq<u8>, v: u64, rest: Seq<u8>)
    ensures
        uleb_at(pre + uleb_encode(v as nat) + rest, pre.len()) == Ok::<(u64, nat), BinaryError>(
            (v, pre.len() + uleb_encode(v as nat).len()),
        ),
{
    let e = uleb_encode(v as nat);
    assert((pre + e + rest).skip(pre.len() as int) =~= e + rest);
    lemma_uleb_roundtrip(v, rest);
}

impl BinaryData for u8 {
    open spec fn spec_wf(v: u8) -> bool {
        true
    }

    open spec fn spec_writable(v: u8, t: u32) -> bool {
        true
    }

    open spec fn spec_encode(v: u8, t: u32) -> Seq<u8> {
        seq![v]
    }

    open spec fn spec_time_after(v: u8, t: u32) -> u32 {
        t
    }

    open spec fn spec_decode(bytes: Seq<u8>, t: u32) -> Result<(u8, nat, u32), BinaryError> {
        if bytes.len() == 0 {
            Err(BinaryError::UnexpectedEof)
        } else {
            Ok((bytes[0], 1, t))
        }
    }

    proof fn lemma_decode_len(bytes: Seq<u8>, t: u32) {
    }

    proof fn lemma_roundtrip(v: u8, t: u32, rest: Seq<u8>) {
    }

    fn read_binary(r: &mut BinaryReader) -> (res: Result<u8, BinaryError>) {
        let res = r.read_byte();
        proof {
            if old(r).remaining().len() > 0 {
                assert(old(r).remaining().skip(1) =~= old(r).remaining().drop_first());
            }
        }
        res
    }

    fn write_binary(&self, w: &mut BinaryWriter) -> (res: Result<(), BinaryError>) {
        w.write_byte(*self);
        assert(old(w).bytes().push(*self) =~= old(w).bytes() + seq![*self]);
        Ok(())
    }
}

impl BinaryData for i32 {
    open spec fn spec_wf(v: i32) -> bool {
        true
    }

    open spec fn spec_writable(v: i32, t: u32) -> bool {
        true
    }

    open spec fn spec_encode(v: i32, t: u32) -> Seq<u8> {
        i32_to_le(v)
    }

    open spec fn spec_time_after(v: i32, t: u32) -> u32 {
        t
    }

    open spec fn spec_decode(bytes: Seq<u8>, t: u32) -> Result<(i32, nat, u32), BinaryError> {
        if bytes.len() < 4 {
            Err(BinaryError::UnexpectedEof)
        } else {
            Ok((i32_from_le(bytes), 4, t))
        }
    }

    proof fn lemma_decode_len(bytes: Seq<u8>, t: u32) {
    }

    proof fn lemma_roundtrip(v: i32, t: u32, rest: Seq<u8>) {
        lemma_i32_le_roundtrip(v);
        let b = i32_to_le(v) + rest;
        assert(b[0] == i32_to_le(v)[0] && b[1] == i32_to_le(v)[1] && b[2] == i32_to_le(v)[2]
            && b[3] == i32_to_le(v)[3]);
        assert(le_u32_value(b) == le_u32_value(i32_to_le(v)));
    }

    fn read_binary(r: &mut BinaryReader) -> (res: Result<i32, BinaryError>) {
        let buf = match r.take4() {
            Ok(b) => b,
            Err(e) => {
                return Err(e);
            },
        };
        let n = le_read_i32(buf.as_slice());
        proof {
            assert(le_u32_value(buf@) == le_u32_value(old(r).remaining()));
        }
        Ok(n)
    }

    fn write_binary(&self, w: &mut BinaryWriter) -> (res: Result<(), BinaryError>) {
        let b = le_write_i32(*self);
        w.write_byte(b[0]);
        w.write_byte(b[1]);
        w.write_byte(b[2]);
        w.write_byte(b[3]);
        assert(w.bytes() =~= old(w).bytes() + i32_to_le(*self));
        Ok(())
    }
}

/// An `f32` kept as its IEEE 754 bit pattern. Its encoding is the four
/// little-endian bytes of the pattern.
#[derive(Clone, Copy, Debug, PartialEq, Eq, Structural)]
pub struct F32Bits(pub u32);

impl View for F32Bits {
    type V = F32Bits;

    open spec fn view(&self) -> F32Bits {
        *self
    }
}

impl BinaryData for F32Bits {
    open spec fn spec_wf(v: F32Bits) -> bool {
        true
    }

    open spec fn spec_writable(v: F32Bits, t: u32) -> bool {
        true
    }

    open spec fn spec_encode(v: F32Bits, t: u32) -> Seq<u8> {
        u32_to_le(v.0)
    }

    open spec fn spec_time_after(v: F32Bits, t: u32) -> u32 {
        t
    }

    open spec fn spec_decode(bytes: Seq<u8>, t: u32) -> Result<(F32Bits, nat, u32), BinaryError> {
        if bytes.len() < 4 {
            Err(BinaryError::UnexpectedEof)
        } else {
            Ok((F32Bits(le_u32_value(bytes) as u32), 4, t))
        }
    }

    proof fn lemma_decode_len(bytes: Seq<u8>, t: u32) {
    }

    proof fn lemma_roundtrip(v: F32Bits, t: u32, rest: Seq<u8>) {
        lemma_u32_le_roundtrip(v.0);
        let b = u32_to_le(v.0) + rest;
        assert(b[0] == u32_to_le(v.0)[0] && b[1] == u32_to_le(v.0)[1] && b[2] == u32_to_le(v.0)[2]
            && b[3] == u32_to_le(v.0)[3]);
        assert(le_u32_value(b) == le_u32_value(u32_to_le(v.0)));
    }

    fn read_binary(r: &mut BinaryReader) -> (res: Result<F32Bits, BinaryError>) {
        let buf = match r.take4() {
            Ok(b) => b,
            Err(e) => {
                return Err(e);
            },
        };
        let n = le_read_u32(buf.as_slice());
        proof {
            assert(le_u32_value(buf@) == le_u32_value(old(r).remaining()));
        }
        Ok(F32Bits(n))
    }

    fn write_binary(&self, w: &mut BinaryWriter) -> (res: Result<(), BinaryError>) {
        let b = le_write_u32(self.0);
        w.write_byte(b[0]);
        w.write_byte(b[1]);
        w.write_byte(b[2]);
        w.write_byte(b[3]);
        assert(w.bytes() =~= old(w).bytes() + u32_to_le(self.0));
        Ok(())
    }
}

impl BinaryData for bool {
    open spec fn spec_wf(v: bool) -> bool {
        true
    }

    open spec fn spec_writable(v: bool, t: u32) -> bool {
        true
    }

    open spec fn spec_encode(v: bool, t: u32) -> Seq<u8> {
        if v {
            seq![1u8]
        } else {
            seq![0u8]
        }
    }

    open spec fn spec_time_after(v: bool, t: u32) -> u32 {
        t
    }

    /// A byte, true exactly when it is 1.
    open spec fn spec_decode(bytes: Seq<u8>, t: u32) -> Result<(bool, nat, u32), BinaryError> {
        if bytes.len() == 0 {
            Err(BinaryError::UnexpectedEof)
        } else {
            Ok((bytes[0] == 1, 1, t))
        }
    }

    proof fn lemma_decode_len(bytes: Seq<u8>, t: u32) {
    }

    proof fn lemma_roundtrip(v: bool, t: u32, rest: Seq<u8>) {
    }

    fn read_binary(r: &mut BinaryReader) -> (res: Result<bool, BinaryError>) {
        let b = match r.read_byte() {
            Ok(b) => b,
            Err(e) => {
                return Err(e);
            },
        };
        assert(old(r).remaining().skip(1) =~= old(r).remaining().drop_first());
        Ok(b == 1)
    }

    fn write_binary(&self, w: &mut BinaryWriter) -> (res: Result<(), BinaryError>) {
        let b: u8 = if *self {
            1
        } else {
            0
        };
        w.write_byte(b);
        assert(w.bytes() =~= old(w).bytes() + Self::spec_encode(*self, old(w).time_ms()));
        Ok(())
    }
}

/// A `bool` is one byte, 1 for true and 0 for false; a reader takes a
/// byte as true exactly when it is 1.
pub proof fn lemma_bool_bytes(b: u8, t: u32, rest: Seq<u8>)
    ensures
        bool::spec_encode(true, t) == seq![1u8],
        bool::spec_encode(false, t) == seq![0u8],
        bool::spec_decode(seq![b] + rest, t) == Ok::<(bool, nat, u32), BinaryError>((b == 1, 1, t)),
{
    assert((seq![b] + rest)[0] == b);
}

/// The encoding of a string: its UTF-8 byte count as a uleb number, then
/// its UTF-8 bytes.
pub open spec fn string_encode(s: Seq<char>) -> Seq<u8> {
    uleb_encode(encode_utf8(s).len()) + encode_utf8(s)
}

proof fn lemma_bytes_encode_seq(bs: Seq<u8>, t: u32)
    ensures
        encode_seq::<u8>(bs, t) == bs,
        seq_time_after::<u8>(bs, t) == t,
        seq_writable::<u8>(bs, t),
    decreases bs.len(),
{
    if bs.len() > 0 {
        lemma_bytes_encode_seq(bs.drop_first(), t);
        assert(seq![bs[0]] + bs.drop_first() =~= bs);
    }
}

proof fn lemma_bytes_decode_seq(bytes: Seq<u8>, n: nat, t: u32)
    ensures
        decode_seq::<u8>(bytes, n, t) == (if bytes.len() < n {
            Err::<(Seq<u8>, nat, u32), BinaryError>(BinaryError::UnexpectedEof)
        } else {
            Ok((bytes.take(n as int), n, t))
        }),
    decreases n,
{
    if n > 0 && bytes.len() > 0 {
        lemma_bytes_decode_seq(bytes.skip(1), (n - 1) as nat, t);
        if bytes.len() >= n {
            assert(seq![bytes[0]] + bytes.skip(1).take(n - 1) =~= bytes.take(n as int));
        }
    }
}

impl BinaryData for String {
    open spec fn spec_wf(v: Seq<char>) -> bool {
        encode_utf8(v).len() <= u64::MAX
    }

    open spec fn spec_writable(v: Seq<char>, t: u32) -> bool {
        true
    }

    open spec fn spec_encode(v: Seq<char>, t: u32) -> Seq<u8> {
        string_encode(v)
    }

    open spec fn spec_time_after(v: Seq<char>, t: u32) -> u32 {
        t
    }

    /// A byte array that must be valid UTF-8.
    open spec fn spec_decode(bytes: Seq<u8>, t: u32) -> Result<(Seq<char>, nat, u32), BinaryError> {
        match decode_array::<u8>(bytes, t) {
            Ok((bs, n, _)) => if valid_utf8(bs) {
                Ok((decode_utf8(bs), n, t))
            } else {
                Err(BinaryError::InvalidUtf8)
            },
            Err(e) => Err(e),
        }
    }

    proof fn lemma_decode_len(bytes: Seq<u8>, t: u32) {
        lemma_decode_array_len::<u8>(bytes, t);
    }

    proof fn lemma_roundtrip(v: Seq<char>, t: u32, rest: Seq<u8>) {
        let bs = encode_utf8(v);
        lemma_bytes_encode_seq(bs, t);
        assert forall|i: int| 0 <= i < bs.len() implies #[trigger] <u8 as BinaryData>::spec_wf(
            bs[i],
        ) by {};
        lemma_array_roundtrip::<u8>(bs, t, rest);
        encode_utf8_valid_utf8(v);
        encode_utf8_decode_utf8(v);
    }

    fn read_binary(r: &mut BinaryReader) -> (res: Result<String, BinaryError>) {
        proof {
            match uleb_decode(old(r).remaining()) {
                Ok((count, k)) => {
                    lemma_bytes_decode_seq(old(r).remaining().skip(k as int), count as nat, old(r).time_ms());
                },
                Err(e) => {},
            }
        }
        let bytes = match r.array::<u8>() {
            Ok(b) => b,
            Err(e) => {
                return Err(e);
            },
        };
        proof {
            assert(views_of(bytes@) =~= bytes@);
        }
        match string_from_utf8(bytes) {
            Ok(s) => Ok(s),
            Err(_) => Err(BinaryError::InvalidUtf8),
        }
    }

    fn write_binary(&self, w: &mut BinaryWriter) -> (res: Result<(), BinaryError>) {
        let bytes = self.as_str().as_bytes();
        proof {
            assert(views_of(bytes@) =~= bytes@);
            lemma_bytes_encode_seq(bytes@, old(w).time_ms());
        }
        w.array::<u8>(bytes)
    }
}

} // verus!
