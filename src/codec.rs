use vstd::prelude::*;
use vstd::utf8::*;
use vstd::string::*;

use crate::error::ProtocolError;
use crate::varint::{decode_var, lemma_var_round_trip, var_bytes, var_decode, write_var, VarInt};

verus! {

broadcast use {encode_utf8_valid_utf8, encode_utf8_decode_utf8};

/// `256` to the power `k`.
pub open spec fn pow256(k: nat) -> nat
    decreases k,
{
    if k == 0 {
        1
    } else {
        256 * pow256((k - 1) as nat)
    }
}

/// The unsigned number whose big-endian bytes are `bs`.
pub open spec fn be_value(bs: Seq<u8>) -> nat
    decreases bs.len(),
{
    if bs.len() == 0 {
        0
    } else {
        be_value(bs.drop_last()) * 256 + bs.last() as nat
    }
}

/// The `k` big-endian bytes of `v`, which is below `256^k`.
pub open spec fn be_bytes(v: nat, k: nat) -> Seq<u8>
    decreases k,
{
    if k == 0 {
        Seq::empty()
    } else {
        be_bytes(v / 256, (k - 1) as nat).push((v % 256) as u8)
    }
}

/// Reading back big-endian bytes gives the number written.
pub proof fn lemma_be_round_trip(v: nat, k: nat)
    requires
        v < pow256(k),
    ensures
        be_bytes(v, k).len() == k,
        be_value(be_bytes(v, k)) == v,
    decreases k,
{
    if k > 0 {
        let k1 = (k - 1) as nat;
        assert(v / 256 < pow256(k1)) by (nonlinear_arith)
            requires
                v < 256 * pow256(k1),
        ;
        lemma_be_round_trip(v / 256, k1);
        let bs = be_bytes(v, k);
        assert(bs.drop_last() == be_bytes(v / 256, k1));
    }
}

/// `be_bytes(v, k)` has `k` bytes.
pub proof fn lemma_be_bytes_len(v: nat, k: nat)
    ensures
        be_bytes(v, k).len() == k,
    decreases k,
{
    if k > 0 {
        lemma_be_bytes_len(v / 256, (k - 1) as nat);
    }
}

/// Big-endian bytes stay below `256^k`.
pub proof fn lemma_be_value_bound(bs: Seq<u8>)
    ensures
        be_value(bs) < pow256(bs.len()),
    decreases bs.len(),
{
    if bs.len() > 0 {
        lemma_be_value_bound(bs.drop_last());
        let a = be_value(bs.drop_last());
        let p = pow256((bs.len() - 1) as nat);
        let d = bs.last() as nat;
        assert(a * 256 + d < 256 * p) by (nonlinear_arith)
            requires
                a < p,
                d < 256,
        ;
    }
}

/// The two's-complement value of 64 bits.
pub open spec fn i64_of_bits(u: nat) -> i64 {
    <i64 as VarInt>::from_groups(u)
}

/// The value that a fixed-width read of `k` big-endian bytes takes from the
/// front of `bs`, with `k` as the count of bytes taken.
pub open spec fn parse_be(bs: Seq<u8>, k: nat) -> Result<(nat, nat), ProtocolError> {
    if bs.len() < k {
        Err(ProtocolError::UnexpectedEnd)
    } else {
        Ok((be_value(bs.subrange(0, k as int)), k))
    }
}

/// A string field at the front of `bs`: a variable-width byte length, then
/// that many bytes of UTF-8.
pub open spec fn parse_string(bs: Seq<u8>) -> Result<(Seq<char>, nat), ProtocolError> {
    match var_decode::<i32>(bs) {
        Err(e) => Err(e),
        Ok((len, n)) => {
            if len < 0 {
                Err(ProtocolError::StringLengthNegative)
            } else if bs.len() < n + len {
                Err(ProtocolError::UnexpectedEnd)
            } else if !valid_utf8(bs.subrange(n as int, n + len)) {
                Err(ProtocolError::StringNotUtf8)
            } else {
                Ok((decode_utf8(bs.subrange(n as int, n + len)), n + len as nat))
            }
        },
    }
}

/// A byte-array field at the front of `bs`: a variable-width length, then
/// that many bytes.
pub open spec fn parse_byte_array(bs: Seq<u8>) -> Result<(Seq<u8>, nat), ProtocolError> {
    match var_decode::<i32>(bs) {
        Err(e) => Err(e),
        Ok((len, n)) => {
            if len < 0 {
                Err(ProtocolError::StringLengthNegative)
            } else if bs.len() < n + len {
                Err(ProtocolError::UnexpectedEnd)
            } else {
                Ok((bs.subrange(n as int, n + len), n + len as nat))
            }
        },
    }
}

/// The bytes of a string field holding `s`.
pub open spec fn string_bytes(s: Seq<char>) -> Seq<u8> {
    var_bytes((encode_utf8(s).len() as i32).wire()) + encode_utf8(s)
}

/// A string fits a string field when its UTF-8 length fits a signed 32-bit
/// integer.
pub open spec fn fits_string_field(s: Seq<char>) -> bool {
    encode_utf8(s).len() <= i32::MAX
}

/// A universally unique identifier, as its two 64-bit halves.
#[derive(Debug, Clone, Copy, PartialEq, Eq, Structural)]
pub struct Uuid {
    pub high: u64,
    pub low: u64,
}

impl Uuid {
    /// The identifier with the given most and least significant halves.
    pub fn from_u64_pair(high: u64, low: u64) -> (r: Uuid)
        ensures
            r.high == high,
            r.low == low,
    {
        Uuid { high, low }
    }

    /// The most and least significant halves.
    pub fn as_u64_pair(&self) -> (r: (u64, u64))
        ensures
            r == (self.high, self.low),
    {
        (self.high, self.low)
    }
}

/// The sixteen bytes of a UUID field: both halves, big-endian.
pub open spec fn uuid_bytes(u: Uuid) -> Seq<u8> {
    be_bytes(u.high as nat, 8) + be_bytes(u.low as nat, 8)
}

/// A UUID field at the front of `bs`.
pub open spec fn parse_uuid(bs: Seq<u8>) -> Result<(Uuid, nat), ProtocolError> {
    if bs.len() < 16 {
        Err(ProtocolError::UnexpectedEnd)
    } else {
        Ok(
            (
                Uuid {
                    high: be_value(bs.subrange(0, 8)) as u64,
                    low: be_value(bs.subrange(8, 16)) as u64,
                },
                16,
            ),
        )
    }
}

/// Relies on `String::from_utf8`: it accepts exactly the UTF-8 byte
/// sequences and then holds the characters they encode.
#[verifier::external_body]
fn string_from_utf8(bytes: Vec<u8>) -> (r: Option<String>)
    ensures
        r is Some <==> valid_utf8(bytes@),
        r matches Some(s) ==> s@ == decode_utf8(bytes@),
{
    String::from_utf8(bytes).ok()
}

/// Reads packet fields from the front of a byte slice.
pub struct PacketReader<'a> {
    rest: &'a [u8],
}

impl<'a> View for PacketReader<'a> {
    type V = Seq<u8>;

    closed spec fn view(&self) -> Seq<u8> {
        self.rest@
    }
}

impl<'a> PacketReader<'a> {
    pub fn new(bytes: &'a [u8]) -> (r: Self)
        ensures
            r@ == bytes@,
    {
        PacketReader { rest: bytes }
    }

    /// The bytes not read yet.
    pub fn remaining(&self) -> (r: &'a [u8])
        ensures
            r@ == self@,
    {
        self.rest
    }

    /// Drops the first `n` bytes.
    fn skip(&mut self, n: usize)
        requires
            n <= old(self)@.len(),
        ensures
            final(self)@ == old(self)@.subrange(n as int, old(self)@.len() as int),
    {
        self.rest = &self.rest[n..self.rest.len()];
    }

    /// Reads `k` big-endian bytes as an unsigned number.
    fn read_be(&mut self, k: usize) -> (r: Result<u64, ProtocolError>)
        requires
            k <= 8,
        ensures
            match r {
                Ok(v) => parse_be(old(self)@, k as nat) == Ok::<(nat, nat), ProtocolError>(
                    (v as nat, k as nat),
                ) && final(self)@ == old(self)@.subrange(k as int, old(self)@.len() as int),
                Err(e) => parse_be(old(self)@, k as nat) == Err::<(nat, nat), ProtocolError>(e),
            },
    {
        if self.rest.len() < k {
            return Err(ProtocolError::UnexpectedEnd);
        }
        let mut acc: u64 = 0;
        let mut i: usize = 0;
        while i < k
            invariant
                i <= k <= 8,
                k <= self@.len(),
                acc as nat == be_value(self@.subrange(0, i as int)),
            decreases k - i,
        {
            proof {
                let p = self@.subrange(0, i + 1 as int);
                assert(p.drop_last() == self@.subrange(0, i as int));
                lemma_be_value_bound(p);
                lemma_pow256_mono((i + 1) as nat, 8);
                reveal_with_fuel(pow256, 9);
            }
            acc = acc * 256 + self.rest[i] as u64;
            i = i + 1;
        }
        self.skip(k);
        Ok(acc)
    }

    pub fn read_u8(&mut self) -> (r: Result<u8, ProtocolError>)
        ensures
            old(self)@.len() == 0 <==> r is Err,
            r is Err ==> r == Err::<u8, ProtocolError>(ProtocolError::UnexpectedEnd),
            r matches Ok(b) ==> b == old(self)@[0] && final(self)@ == old(self)@.drop_first(),
    {
        if self.rest.len() == 0 {
            return Err(ProtocolError::UnexpectedEnd);
        }
        let b = self.rest[0];
        self.skip(1);
        Ok(b)
    }

    /// A boolean is one byte; any non-zero byte is true.
    pub fn read_bool(&mut self) -> (r: Result<bool, ProtocolError>)
        ensures
            old(self)@.len() == 0 <==> r is Err,
            r is Err ==> r == Err::<bool, ProtocolError>(ProtocolError::UnexpectedEnd),
            r matches Ok(b) ==> b == (old(self)@[0] != 0) && final(self)@ == old(self)@.drop_first(),
    {
        let b = self.read_u8()?;
        Ok(b != 0)
    }

    pub fn read_u16(&mut self) -> (r: Result<u16, ProtocolError>)
        ensures
            match r {
                Ok(v) => parse_be(old(self)@, 2) == Ok::<(nat, nat), ProtocolError>(
                    (v as nat, 2),
                ) && final(self)@ == old(self)@.subrange(2, old(self)@.len() as int),
                Err(e) => parse_be(old(self)@, 2) == Err::<(nat, nat), ProtocolError>(e),
            },
    {
        let v = self.read_be(2)?;
        proof {
            lemma_be_value_bound(old(self)@.subrange(0, 2));
            reveal_with_fuel(pow256, 3);
        }
        Ok(v as u16)
    }

    pub fn read_u64(&mut self) -> (r: Result<u64, ProtocolError>)
        ensures
            match r {
                Ok(v) => parse_be(old(self)@, 8) == Ok::<(nat, nat), ProtocolError>(
                    (v as nat, 8),
                ) && final(self)@ == old(self)@.subrange(8, old(self)@.len() as int),
                Err(e) => parse_be(old(self)@, 8) == Err::<(nat, nat), ProtocolError>(e),
            },
    {
        self.read_be(8)
    }

    /// A big-endian two's-complement 64-bit integer.
    pub fn read_i64(&mut self) -> (r: Result<i64, ProtocolError>)
        ensures
            match r {
                Ok(v) => parse_be(old(self)@, 8) matches Ok((u, n)) && v == i64_of_bits(u)
                    && final(self)@ == old(self)@.subrange(8, old(self)@.len() as int),
                Err(e) => parse_be(old(self)@, 8) == Err::<(nat, nat), ProtocolError>(e),
            },
    {
        let u = self.read_be(8)?;
        proof {
            reveal_with_fuel(crate::varint::pow128, 11);
        }
        Ok(<i64 as VarInt>::decode_groups(u as u128))
    }

    /// A variable-width integer.
    pub fn read_var<T: VarInt>(&mut self) -> (r: Result<T, ProtocolError>)
        ensures
            match r {
                Ok(v) => var_decode::<T>(old(self)@) matches Ok((w, n)) && w == v && final(self)@ == old(self)@.subrange(n as int, old(self)@.len() as int),
                Err(e) => var_decode::<T>(old(self)@) == Err::<(T, nat), ProtocolError>(e),
            },
    {
        let (v, n) = decode_var::<T>(self.rest)?;
        proof {
            crate::varint::lemma_var_decode_len::<T>(self@);
        }
        self.skip(n);
        Ok(v)
    }

    /// A variable-width byte length, then that many bytes.
    pub fn read_byte_array(&mut self) -> (r: Result<Vec<u8>, ProtocolError>)
        ensures
            match r {
                Ok(v) => parse_byte_array(old(self)@) matches Ok((w, n)) && w == v@ && final(self)@ == old(self)@.subrange(n as int, old(self)@.len() as int),
                Err(e) => parse_byte_array(old(self)@) == Err::<(Seq<u8>, nat), ProtocolError>(e),
            },
    {
        let len = self.read_var::<i32>()?;
        if len < 0 {
            return Err(ProtocolError::StringLengthNegative);
        }
        let len = len as usize;
        if self.rest.len() < len {
            return Err(ProtocolError::UnexpectedEnd);
        }
        let bytes = copy_prefix(self.rest, len);
        proof {
            let s0 = old(self)@;
            let n = var_decode::<i32>(s0)->Ok_0.1;
            crate::varint::lemma_var_decode_len::<i32>(s0);
            assert(self@ == s0.subrange(n as int, s0.len() as int));
            assert(bytes@ =~= s0.subrange(n as int, n + len));
            assert(self@.subrange(len as int, self@.len() as int) =~= s0.subrange(
                n + len,
                s0.len() as int,
            ));
        }
        self.skip(len);
        Ok(bytes)
    }

    /// A string: a variable-width byte length, then that many bytes of UTF-8.
    pub fn read_string(&mut self) -> (r: Result<String, ProtocolError>)
        ensures
            match r {
                Ok(s) => parse_string(old(self)@) matches Ok((w, n)) && w == s@ && final(self)@ == old(self)@.subrange(n as int, old(self)@.len() as int),
                Err(e) => parse_string(old(self)@) == Err::<(Seq<char>, nat), ProtocolError>(e),
            },
    {
        let len = self.read_var::<i32>()?;
        if len < 0 {
            return Err(ProtocolError::StringLengthNegative);
        }
        let len = len as usize;
        if self.rest.len() < len {
            return Err(ProtocolError::UnexpectedEnd);
        }
        let bytes = copy_prefix(self.rest, len);
        proof {
            let s0 = old(self)@;
            let n = var_decode::<i32>(s0)->Ok_0.1;
            crate::varint::lemma_var_decode_len::<i32>(s0);
            assert(self@ == s0.subrange(n as int, s0.len() as int));
            assert(bytes@ =~= s0.subrange(n as int, n + len));
            assert(self@.subrange(len as int, self@.len() as int) =~= s0.subrange(
                n + len,
                s0.len() as int,
            ));
        }
        self.skip(len);
        match string_from_utf8(bytes) {
            Some(s) => Ok(s),
            None => Err(ProtocolError::StringNotUtf8),
        }
    }

    /// A UUID: its most significant half, then its least significant half,
    /// both big-endian.
    /// A block position: one big-endian 64-bit word, its slices sign
    /// extended.
    pub fn read_block_pos(&mut self) -> (r: Result<BlockPos, ProtocolError>)
        ensures
            match r {
                Ok(p) => parse_be(old(self)@, 8) matches Ok((v, n)) && p == unpacked_block_pos(v)
                    && final(self)@ == old(self)@.subrange(8, old(self)@.len() as int),
                Err(e) => parse_be(old(self)@, 8) == Err::<(nat, nat), ProtocolError>(e),
            },
    {
        let v = self.read_u64()?;
        let xs: i64 = (v / 0x40_0000_0000) as i64;
        let zs: i64 = ((v / 0x1000) % 0x400_0000) as i64;
        let ys: i64 = (v % 0x1000) as i64;
        proof {
            reveal_with_fuel(pow2, 27);
            assert(xs < 0x400_0000) by (nonlinear_arith)
                requires
                    xs == v / 0x40_0000_0000,
                    v < 0x1_0000_0000_0000_0000,
            ;
        }
        let x: i64 = if xs < 0x200_0000 {
            xs
        } else {
            xs - 0x400_0000
        };
        let z: i64 = if zs < 0x200_0000 {
            zs
        } else {
            zs - 0x400_0000
        };
        let y: i64 = if ys < 0x800 {
            ys
        } else {
            ys - 0x1000
        };
        Ok(BlockPos { x: x as i32, y: y as i32, z: z as i32 })
    }

    pub fn read_uuid(&mut self) -> (r: Result<Uuid, ProtocolError>)
        ensures
            match r {
                Ok(u) => parse_uuid(old(self)@) == Ok::<(Uuid, nat), ProtocolError>((u, 16))
                    && final(self)@ == old(self)@.subrange(16, old(self)@.len() as int),
                Err(e) => parse_uuid(old(self)@) == Err::<(Uuid, nat), ProtocolError>(e),
            },
    {
        if self.rest.len() < 16 {
            return Err(ProtocolError::UnexpectedEnd);
        }
        let high = self.read_be(8)?;
        let low = self.read_be(8)?;
        proof {
            let s = old(self)@;
            assert(s.subrange(8, s.len() as int).subrange(0, 8) == s.subrange(8, 16));
            assert(s.subrange(8, s.len() as int).subrange(8, s.len() - 8) == s.subrange(
                16,
                s.len() as int,
            ));
        }
        Ok(Uuid { high, low })
    }
}

/// Appends the `k` big-endian bytes of `v`.
pub fn push_be(out: &mut Vec<u8>, v: u64, k: usize)
    requires
        k <= 8,
        (v as nat) < pow256(k as nat),
    ensures
        final(out)@ == old(out)@ + be_bytes(v as nat, k as nat),
    decreases k,
{
    if k == 0 {
        assert(be_bytes(v as nat, 0) == Seq::<u8>::empty());
        assert(old(out)@ + Seq::<u8>::empty() == old(out)@);
        return;
    }
    proof {
        let k1 = (k - 1) as nat;
        assert((v as nat) / 256 < pow256(k1)) by (nonlinear_arith)
            requires
                (v as nat) < 256 * pow256(k1),
        ;
    }
    push_be(out, v / 256, k - 1);
    out.push((v % 256) as u8);
    proof {
        assert(be_bytes(v as nat, k as nat) == be_bytes((v / 256) as nat, (k - 1) as nat).push(
            (v % 256) as u8,
        ));
    }
}

pub fn write_u8(out: &mut Vec<u8>, b: u8)
    ensures
        final(out)@ == old(out)@.push(b),
{
    out.push(b);
}

/// Writes `1` for true and `0` for false.
pub fn write_bool(out: &mut Vec<u8>, b: bool)
    ensures
        final(out)@ == old(out)@.push(if b { 1u8 } else { 0u8 }),
{
    out.push(if b { 1 } else { 0 });
}

pub fn write_u16(out: &mut Vec<u8>, v: u16)
    ensures
        final(out)@ == old(out)@ + be_bytes(v as nat, 2),
{
    proof {
        reveal_with_fuel(pow256, 3);
    }
    push_be(out, v as u64, 2);
}

pub fn write_u64(out: &mut Vec<u8>, v: u64)
    ensures
        final(out)@ == old(out)@ + be_bytes(v as nat, 8),
{
    proof {
        reveal_with_fuel(pow256, 9);
    }
    push_be(out, v, 8);
}

/// Writes the 32 bits of `v`, big-endian.
pub fn write_i32(out: &mut Vec<u8>, v: i32)
    ensures
        final(out)@ == old(out)@ + be_bytes(v.wire(), 4),
{
    let bits = v.to_wire();
    proof {
        reveal_with_fuel(pow256, 5);
    }
    push_be(out, bits, 4);
}

/// Writes the 64 bits of `v`, big-endian.
pub fn write_i64(out: &mut Vec<u8>, v: i64)
    ensures
        final(out)@ == old(out)@ + be_bytes(v.wire(), 8),
{
    let bits = v.to_wire();
    proof {
        reveal_with_fuel(pow256, 9);
    }
    push_be(out, bits, 8);
}

/// Writes a string field: the UTF-8 length as a variable-width integer, then
/// the bytes. Fails when the length does not fit a signed 32-bit integer.
pub fn write_str(out: &mut Vec<u8>, s: &str) -> (r: Result<(), ProtocolError>)
    ensures
        r is Ok <==> fits_string_field(s@),
        r is Ok ==> final(out)@ == old(out)@ + string_bytes(s@),
        r is Err ==> r == Err::<(), ProtocolError>(ProtocolError::LengthOverflow) && final(out)@
            == old(out)@,
{
    let bytes = s.as_bytes();
    if bytes.len() > 0x7fff_ffff {
        return Err(ProtocolError::LengthOverflow);
    }
    write_var(out, bytes.len() as i32);
    push_all(out, bytes);
    proof {
        assert(old(out)@ + var_bytes((encode_utf8(s@).len() as i32).wire()) + encode_utf8(s@)
            == old(out)@ + string_bytes(s@));
    }
    Ok(())
}

/// Writes a byte-array field: the length as a variable-width integer, then
/// the bytes.
pub fn write_byte_array(out: &mut Vec<u8>, bs: &[u8]) -> (r: Result<(), ProtocolError>)
    ensures
        r is Ok <==> bs@.len() <= i32::MAX,
        r is Ok ==> final(out)@ == old(out)@ + var_bytes((bs@.len() as i32).wire()) + bs@,
        r is Err ==> r == Err::<(), ProtocolError>(ProtocolError::LengthOverflow) && final(out)@
            == old(out)@,
{
    if bs.len() > 0x7fff_ffff {
        return Err(ProtocolError::LengthOverflow);
    }
    write_var(out, bs.len() as i32);
    push_all(out, bs);
    Ok(())
}

/// Writes a UUID: both halves, big-endian.
pub fn write_uuid(out: &mut Vec<u8>, u: &Uuid)
    ensures
        final(out)@ == old(out)@ + uuid_bytes(*u),
{
    write_u64(out, u.high);
    write_u64(out, u.low);
    assert(old(out)@ + be_bytes(u.high as nat, 8) + be_bytes(u.low as nat, 8) == old(out)@
        + uuid_bytes(*u));
}

/// Reading a written string field gives back the string and takes exactly
/// the bytes written, whatever follows.
pub proof fn lemma_string_round_trip(s: Seq<char>, tail: Seq<u8>)
    requires
        fits_string_field(s),
    ensures
        parse_string(string_bytes(s) + tail) == Ok::<(Seq<char>, nat), ProtocolError>(
            (s, string_bytes(s).len()),
        ),
{
    let len = encode_utf8(s).len() as i32;
    let head = var_bytes(len.wire());
    let bs = string_bytes(s) + tail;
    assert(bs == head + (encode_utf8(s) + tail));
    lemma_var_round_trip(len, encode_utf8(s) + tail);
    let n = head.len();
    assert(bs.subrange(n as int, n + len) =~= encode_utf8(s));
}

/// Reading a written UUID gives back the UUID, whatever follows.
pub proof fn lemma_uuid_round_trip(u: Uuid, tail: Seq<u8>)
    ensures
        parse_uuid(uuid_bytes(u) + tail) == Ok::<(Uuid, nat), ProtocolError>((u, 16)),
{
    reveal_with_fuel(pow256, 9);
    lemma_be_round_trip(u.high as nat, 8);
    lemma_be_round_trip(u.low as nat, 8);
    let bs = uuid_bytes(u) + tail;
    assert(bs.subrange(0, 8) =~= be_bytes(u.high as nat, 8));
    assert(bs.subrange(8, 16) =~= be_bytes(u.low as nat, 8));
}

/// A block position; on the wire `x` takes the high 26 bits of a 64-bit
/// word, `z` the middle 26 and `y` the low 12, each in two's complement.
#[derive(Debug, Clone, Copy, PartialEq, Eq, Structural)]
pub struct BlockPos {
    pub x: i32,
    pub y: i32,
    pub z: i32,
}

/// The 64-bit word of a block position: the low 26 bits of `x`, then the
/// low 26 bits of `z`, then the low 12 bits of `y`. (Adding `2^31` first
/// keeps the remainder's argument non-negative without changing those bits.)
pub open spec fn packed_block_pos(p: BlockPos) -> nat {
    ((p.x + 0x8000_0000) % 0x400_0000) as nat * 0x40_0000_0000 + ((p.z + 0x8000_0000)
        % 0x400_0000) as nat * 0x1000 + ((p.y + 0x8000_0000) % 0x1000) as nat
}

/// Writes a block position as one big-endian 64-bit word.
pub fn write_block_pos(out: &mut Vec<u8>, p: &BlockPos)
    ensures
        final(out)@ == old(out)@ + be_bytes(packed_block_pos(*p), 8),
{
    let x: u64 = ((p.x as i64 + 0x8000_0000) % 0x400_0000) as u64;
    let z: u64 = ((p.z as i64 + 0x8000_0000) % 0x400_0000) as u64;
    let y: u64 = ((p.y as i64 + 0x8000_0000) % 0x1000) as u64;
    assert(x * 0x40_0000_0000 + z * 0x1000 + y < 0x1_0000_0000_0000_0000) by (nonlinear_arith)
        requires
            x < 0x400_0000,
            z < 0x400_0000,
            y < 0x1000,
    ;
    let packed: u64 = x * 0x40_0000_0000 + z * 0x1000 + y;
    write_u64(out, packed);
}

/// The value of `k` two's-complement bits `t`.
pub open spec fn sign_extend(t: int, k: nat) -> int {
    if t < pow2(k) / 2 {
        t
    } else {
        t - pow2(k)
    }
}

/// `2^k`.
pub open spec fn pow2(k: nat) -> int
    decreases k,
{
    if k == 0 {
        1
    } else {
        2 * pow2((k - 1) as nat)
    }
}

/// The block position packed in the 64-bit word `v`.
pub open spec fn unpacked_block_pos(v: nat) -> BlockPos {
    BlockPos {
        x: sign_extend((v / 0x40_0000_0000) as int, 26) as i32,
        z: sign_extend(((v / 0x1000) % 0x400_0000) as int, 26) as i32,
        y: sign_extend((v % 0x1000) as int, 12) as i32,
    }
}

/// Coordinates that fit their slices: 26 bits for `x` and `z`, 12 for `y`.
pub open spec fn block_pos_fits(p: BlockPos) -> bool {
    -0x200_0000 <= p.x < 0x200_0000 && -0x200_0000 <= p.z < 0x200_0000 && -0x800 <= p.y < 0x800
}

proof fn lemma_slice_round_trip(c: int, m: int)
    requires
        m == 0x400_0000 || m == 0x1000,
        -(m / 2) <= c < m / 2,
    ensures
        ({
            let t = (c + 0x8000_0000) % m;
            0 <= t < m && (if t < m / 2 {
                t
            } else {
                t - m
            }) == c
        }),
{
    if m == 0x400_0000 {
        if c >= 0 {
            assert((c + 0x8000_0000) % m == c) by (nonlinear_arith)
                requires
                    m == 0x400_0000,
                    0 <= c < 0x200_0000,
            ;
        } else {
            assert((c + 0x8000_0000) % m == c + m) by (nonlinear_arith)
                requires
                    m == 0x400_0000,
                    -0x200_0000 <= c < 0,
            ;
        }
    } else {
        if c >= 0 {
            assert((c + 0x8000_0000) % m == c) by (nonlinear_arith)
                requires
                    m == 0x1000,
                    0 <= c < 0x800,
            ;
        } else {
            assert((c + 0x8000_0000) % m == c + m) by (nonlinear_arith)
                requires
                    m == 0x1000,
                    -0x800 <= c < 0,
            ;
        }
    }
}

/// Unpacking a packed position that fits gives it back.
pub proof fn lemma_block_pos_round_trip(p: BlockPos)
    requires
        block_pos_fits(p),
    ensures
        unpacked_block_pos(packed_block_pos(p)) == p,
{
    reveal_with_fuel(pow2, 27);
    lemma_slice_round_trip(p.x as int, 0x400_0000);
    lemma_slice_round_trip(p.z as int, 0x400_0000);
    lemma_slice_round_trip(p.y as int, 0x1000);
    let x = ((p.x + 0x8000_0000) % 0x400_0000) as nat;
    let z = ((p.z + 0x8000_0000) % 0x400_0000) as nat;
    let y = ((p.y + 0x8000_0000) % 0x1000) as nat;
    let v = packed_block_pos(p);
    assert(v / 0x40_0000_0000 == x && (v / 0x1000) % 0x400_0000 == z && v % 0x1000 == y)
        by (nonlinear_arith)
        requires
            v == x * 0x40_0000_0000 + z * 0x1000 + y,
            x < 0x400_0000,
            z < 0x400_0000,
            y < 0x1000,
    ;
}

/// The first `n` bytes of `bs`, copied.
pub fn copy_prefix(bs: &[u8], n: usize) -> (r: Vec<u8>)
    requires
        n <= bs@.len(),
    ensures
        r@ == bs@.subrange(0, n as int),
{
    let mut out: Vec<u8> = Vec::with_capacity(n);
    let mut i: usize = 0;
    while i < n
        invariant
            i <= n <= bs@.len(),
            out@ == bs@.subrange(0, i as int),
        decreases n - i,
    {
        out.push(bs[i]);
        i = i + 1;
    }
    out
}

/// Appends all of `bs` to `out`.
pub fn push_all(out: &mut Vec<u8>, bs: &[u8])
    ensures
        final(out)@ == old(out)@ + bs@,
{
    let mut i: usize = 0;
    while i < bs.len()
        invariant
            i <= bs@.len(),
            out@ == old(out)@ + bs@.subrange(0, i as int),
        decreases bs.len() - i,
    {
        out.push(bs[i]);
        i = i + 1;
    }
    assert(bs@.subrange(0, bs@.len() as int) == bs@);
}

/// `256^a <= 256^b` when `a <= b`.
pub proof fn lemma_pow256_mono(a: nat, b: nat)
    requires
        a <= b,
    ensures
        pow256(a) <= pow256(b),
    decreases b,
{
    if a < b {
        lemma_pow256_mono(a, (b - 1) as nat);
    }
}

} // verus!
