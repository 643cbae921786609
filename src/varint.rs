use vstd::prelude::*;

use crate::error::ProtocolError;

verus! {

/// `128` to the power `k`.
pub open spec fn pow128(k: nat) -> nat
    decreases k,
{
    if k == 0 {
        1
    } else {
        128 * pow128((k - 1) as nat)
    }
}

/// The groups of seven bits of `u`, least significant first, with the high
/// bit set on every byte but the last.
pub open spec fn var_bytes(u: nat) -> Seq<u8>
    decreases u,
{
    if u < 128 {
        seq![u as u8]
    } else {
        seq![((u % 128) + 128) as u8] + var_bytes(u / 128)
    }
}

/// The unsigned value carried by the first `n` groups of `bs`.
pub open spec fn group_sum(bs: Seq<u8>, n: nat) -> nat
    decreases n,
{
    if n == 0 {
        0
    } else {
        group_sum(bs, (n - 1) as nat) + ((bs[n - 1] % 128) as nat) * pow128((n - 1) as nat)
    }
}

/// Where a variable-width integer at the front of a byte sequence ends.
pub enum VarScan {
    /// The encoding ends after this many bytes.
    Complete(nat),
    /// The bytes run out before a final byte.
    Incomplete,
    /// More than the allowed number of bytes without a final byte.
    TooLong,
}

/// Scans `bs` from index `i` for the final byte of an encoding that may be
/// at most `max` bytes long.
pub open spec fn scan_from(bs: Seq<u8>, i: nat, max: nat) -> VarScan
    decreases bs.len() - i,
{
    if i >= bs.len() {
        VarScan::Incomplete
    } else if i >= max {
        VarScan::TooLong
    } else if bs[i as int] < 128 {
        VarScan::Complete(i + 1)
    } else {
        scan_from(bs, i + 1, max)
    }
}

/// Scans `bs` from its start for an encoding of at most `max` bytes.
pub open spec fn var_scan(bs: Seq<u8>, max: nat) -> VarScan {
    scan_from(bs, 0, max)
}

/// A signed integer type with a variable-width encoding: its bits, read as
/// an unsigned number, are written seven at a time.
pub trait VarInt: Sized + Copy {
    /// The longest encoding, in bytes.
    spec fn spec_max_len() -> nat;

    /// The value whose bits are the low bits of `sum`.
    spec fn from_groups(sum: nat) -> Self;

    /// The bits of `self`, read as an unsigned number.
    spec fn wire(self) -> nat;

    fn max_len() -> (r: usize)
        ensures
            r as nat == Self::spec_max_len(),
            1 <= r <= 10,
    ;

    fn decode_groups(sum: u128) -> (r: Self)
        requires
            (sum as nat) < pow128(Self::spec_max_len()),
        ensures
            r == Self::from_groups(sum as nat),
    ;

    fn to_wire(self) -> (r: u64)
        ensures
            r as nat == self.wire(),
    ;

    /// Reading back the bits of a value gives the value.
    proof fn lemma_wire_round_trip(v: Self)
        ensures
            Self::from_groups(v.wire()) == v,
            v.wire() < pow128(Self::spec_max_len()),
    ;

    proof fn lemma_max_len()
        ensures
            1 <= Self::spec_max_len() <= 10,
    ;
}

pub open spec fn i32_from_bits(t: nat) -> i32 {
    if t < 0x8000_0000 {
        t as i32
    } else {
        (t - 0x1_0000_0000) as i32
    }
}

pub open spec fn i64_from_bits(t: nat) -> i64 {
    if t < 0x8000_0000_0000_0000 {
        t as i64
    } else {
        (t - 0x1_0000_0000_0000_0000) as i64
    }
}

proof fn lemma_pow128_values()
    ensures
        pow128(5) == 0x8_0000_0000,
        pow128(10) == 0x40_0000_0000_0000_0000,
{
    reveal_with_fuel(pow128, 11);
}

impl VarInt for i32 {
    open spec fn spec_max_len() -> nat {
        5
    }

    open spec fn from_groups(sum: nat) -> i32 {
        i32_from_bits(sum % 0x1_0000_0000)
    }

    open spec fn wire(self) -> nat {
        if self >= 0 {
            self as nat
        } else {
            (self + 0x1_0000_0000) as nat
        }
    }

    fn max_len() -> (r: usize) {
        5
    }

    fn decode_groups(sum: u128) -> (r: i32) {
        let t: u128 = sum % 0x1_0000_0000;
        if t < 0x8000_0000 {
            t as i32
        } else {
            (t as i64 - 0x1_0000_0000) as i32
        }
    }

    fn to_wire(self) -> (r: u64) {
        if self >= 0 {
            self as u64
        } else {
            (self as i64 + 0x1_0000_0000) as u64
        }
    }

    proof fn lemma_wire_round_trip(v: i32) {
        lemma_pow128_values();
    }

    proof fn lemma_max_len() {
    }
}

impl VarInt for i64 {
    open spec fn spec_max_len() -> nat {
        10
    }

    open spec fn from_groups(sum: nat) -> i64 {
        i64_from_bits(sum % 0x1_0000_0000_0000_0000)
    }

    open spec fn wire(self) -> nat {
        if self >= 0 {
            self as nat
        } else {
            (self + 0x1_0000_0000_0000_0000) as nat
        }
    }

    fn max_len() -> (r: usize) {
        10
    }

    fn decode_groups(sum: u128) -> (r: i64) {
        let t: u128 = sum % 0x1_0000_0000_0000_0000;
        if t < 0x8000_0000_0000_0000 {
            t as i64
        } else {
            (t as i128 - 0x1_0000_0000_0000_0000) as i64
        }
    }

    fn to_wire(self) -> (r: u64) {
        if self >= 0 {
            self as u64
        } else {
            (self as i128 + 0x1_0000_0000_0000_0000) as u64
        }
    }

    proof fn lemma_wire_round_trip(v: i64) {
        lemma_pow128_values();
    }

    proof fn lemma_max_len() {
    }
}


/// `group_sum` of `n` groups stays below `128^n`.
pub proof fn lemma_group_sum_bound(bs: Seq<u8>, n: nat)
    requires
        n <= bs.len(),
    ensures
        group_sum(bs, n) < pow128(n),
    decreases n,
{
    if n > 0 {
        let m = (n - 1) as nat;
        lemma_group_sum_bound(bs, m);
        let d = (bs[m as int] % 128) as nat;
        let p = pow128(m);
        let a = group_sum(bs, m);
        assert(a + d * p < 128 * p) by (nonlinear_arith)
            requires
                a < p,
                d < 128,
        ;
    }
}

/// Only the first `n` bytes matter to `group_sum(bs, n)`.
pub proof fn lemma_group_sum_prefix(bs: Seq<u8>, cs: Seq<u8>, n: nat)
    requires
        n <= bs.len(),
        n <= cs.len(),
        bs.subrange(0, n as int) == cs.subrange(0, n as int),
    ensures
        group_sum(bs, n) == group_sum(cs, n),
    decreases n,
{
    if n > 0 {
        assert(bs[n - 1] == bs.subrange(0, n as int)[n - 1]);
        assert(cs[n - 1] == cs.subrange(0, n as int)[n - 1]);
        assert(bs.subrange(0, n - 1) == bs.subrange(0, n as int).subrange(0, n - 1));
        assert(cs.subrange(0, n - 1) == cs.subrange(0, n as int).subrange(0, n - 1));
        lemma_group_sum_prefix(bs, cs, (n - 1) as nat);
    }
}

/// Peeling the first group off: `group_sum` of `b` then `rest`.
proof fn lemma_group_sum_cons(b: u8, rest: Seq<u8>, n: nat)
    requires
        n <= rest.len(),
    ensures
        group_sum(seq![b] + rest, n + 1) == (b % 128) as nat + 128 * group_sum(rest, n),
    decreases n,
{
    let bs = seq![b] + rest;
    if n == 0 {
        assert(bs[0] == b);
        assert(pow128(0) == 1);
        assert(group_sum(bs, 1) == group_sum(bs, 0) + ((bs[0] % 128) as nat) * pow128(0));
    } else {
        let m = (n - 1) as nat;
        lemma_group_sum_cons(b, rest, m);
        assert(bs[n as int] == rest[m as int]);
        assert(pow128(n) == 128 * pow128(m));
        let d = (rest[m as int] % 128) as nat;
        assert(group_sum(rest, n) == group_sum(rest, m) + d * pow128(m));
        assert(group_sum(bs, n + 1) == group_sum(bs, n) + d * pow128(n));
        assert(128 * group_sum(rest, m) + d * (128 * pow128(m)) == 128 * (group_sum(rest, m) + d
            * pow128(m))) by (nonlinear_arith);
    }
}

/// An encoding of `u` is no longer than `k` bytes when `u < 128^k`.
pub proof fn lemma_var_bytes_len(u: nat, k: nat)
    requires
        k >= 1,
        u < pow128(k),
    ensures
        var_bytes(u).len() <= k,
        var_bytes(u).len() >= 1,
    decreases u,
{
    if u >= 128 {
        assert(k >= 2) by {
            if k == 1 {
                reveal_with_fuel(pow128, 2);
            }
        }
        let k1 = (k - 1) as nat;
        assert(u / 128 < pow128(k1)) by {
            assert(pow128(k) == 128 * pow128(k1));
            assert(u / 128 < pow128(k1)) by (nonlinear_arith)
                requires
                    u < 128 * pow128(k1),
            ;
        }
        lemma_var_bytes_len(u / 128, k1);
    }
}

/// Scanning behind one leading continuation byte is scanning the rest with
/// one byte less to spare.
proof fn lemma_scan_shift(b: u8, s: Seq<u8>, i: nat, max: nat)
    requires
        b >= 128,
        i <= s.len(),
    ensures
        scan_from(seq![b] + s, i + 1, max + 1) == match scan_from(s, i, max) {
            VarScan::Complete(n) => VarScan::Complete(n + 1),
            other => other,
        },
    decreases s.len() - i,
{
    let bs = seq![b] + s;
    if i < s.len() {
        assert(bs[i + 1 as int] == s[i as int]);
        if i < max && s[i as int] >= 128 {
            lemma_scan_shift(b, s, i + 1, max);
        }
    }
}

/// The encoding of `u`, followed by anything, scans as complete at its own
/// length and carries `u`.
pub proof fn lemma_var_bytes_decode(u: nat, tail: Seq<u8>, max: nat)
    requires
        var_bytes(u).len() <= max,
    ensures
        var_scan(var_bytes(u) + tail, max) == VarScan::Complete(var_bytes(u).len()),
        group_sum(var_bytes(u) + tail, var_bytes(u).len()) == u,
    decreases u,
{
    let bs = var_bytes(u) + tail;
    if u < 128 {
        assert(bs[0] == u as u8);
        assert(var_bytes(u).len() == 1);
        assert(pow128(0) == 1);
        assert(group_sum(bs, 1) == group_sum(bs, 0) + ((bs[0] % 128) as nat) * pow128(0));
    } else {
        let b = ((u % 128) + 128) as u8;
        let rest = var_bytes(u / 128) + tail;
        assert(bs == seq![b] + rest);
        let m = (max - 1) as nat;
        lemma_var_bytes_decode(u / 128, tail, m);
        assert(bs[0] == b);
        lemma_scan_shift(b, rest, 0, m);
        let n = var_bytes(u / 128).len();
        lemma_group_sum_cons(b, rest, n);
        assert(var_bytes(u).len() == n + 1);
        assert(b % 128 == u % 128);
        assert(u == u % 128 + 128 * (u / 128));
    }
}

/// The bytes pushed by the encoder: `var_bytes` of the bits of `v`, no more
/// than the longest encoding.
pub proof fn lemma_encoding_len<T: VarInt>(v: T)
    ensures
        1 <= var_bytes(v.wire()).len() <= T::spec_max_len(),
{
    T::lemma_wire_round_trip(v);
    T::lemma_max_len();
    lemma_var_bytes_len(v.wire(), T::spec_max_len());
}

/// What a one-shot decode of the front of `bs` gives: the value and the
/// number of bytes it took, or why it failed.
pub open spec fn var_decode<T: VarInt>(bs: Seq<u8>) -> Result<(T, nat), ProtocolError> {
    match var_scan(bs, T::spec_max_len()) {
        VarScan::Complete(n) => Ok((T::from_groups(group_sum(bs, n)), n)),
        VarScan::Incomplete => Err(ProtocolError::UnexpectedEnd),
        VarScan::TooLong => Err(ProtocolError::MalformedVarInt),
    }
}

/// Decoding an encoded value gives the value back, whatever follows it, and
/// the encoding is at most five bytes for `i32` and ten for `i64`.
pub proof fn lemma_var_round_trip<T: VarInt>(v: T, tail: Seq<u8>)
    ensures
        var_decode::<T>(var_bytes(v.wire()) + tail) == Ok::<(T, nat), ProtocolError>(
            (v, var_bytes(v.wire()).len()),
        ),
        var_bytes(v.wire()).len() <= T::spec_max_len(),
{
    lemma_encoding_len(v);
    lemma_var_bytes_decode(v.wire(), tail, T::spec_max_len());
    T::lemma_wire_round_trip(v);
}

/// Appends the encoding of the unsigned number `u` to `out`.
pub fn push_var_bits(out: &mut Vec<u8>, u: u64)
    ensures
        final(out)@ == old(out)@ + var_bytes(u as nat),
{
    let mut rem: u64 = u;
    while rem >= 128
        invariant
            out@ + var_bytes(rem as nat) == old(out)@ + var_bytes(u as nat),
        decreases rem,
    {
        let b: u8 = (rem % 128 + 128) as u8;
        proof {
            assert(var_bytes(rem as nat) == seq![b] + var_bytes((rem / 128) as nat));
        }
        out.push(b);
        proof {
            assert(out@ + var_bytes((rem / 128) as nat) == old(out)@ + var_bytes(u as nat));
        }
        rem = rem / 128;
    }
    out.push(rem as u8);
    proof {
        assert(var_bytes(rem as nat) == seq![rem as u8]);
    }
}

/// Appends the variable-width encoding of `v` to `out`.
pub fn write_var<T: VarInt>(out: &mut Vec<u8>, v: T)
    ensures
        final(out)@ == old(out)@ + var_bytes(v.wire()),
{
    let bits = v.to_wire();
    push_var_bits(out, bits);
}

/// The variable-width encoding of `v`.
pub fn encode_var<T: VarInt>(v: T) -> (r: Vec<u8>)
    ensures
        r@ == var_bytes(v.wire()),
        1 <= r@.len() <= T::spec_max_len(),
{
    let mut out: Vec<u8> = Vec::new();
    write_var(&mut out, v);
    proof {
        assert(out@ == var_bytes(v.wire()));
        lemma_encoding_len(v);
    }
    out
}

/// Decodes a variable-width integer from the front of `bs`, returning it with
/// the number of bytes it took.
pub fn decode_var<T: VarInt>(bs: &[u8]) -> (r: Result<(T, usize), ProtocolError>)
    ensures
        match r {
            Ok((v, n)) => var_decode::<T>(bs@) == Ok::<(T, nat), ProtocolError>((v, n as nat)),
            Err(e) => var_decode::<T>(bs@) == Err::<(T, nat), ProtocolError>(e),
        },
{
    let max = T::max_len();
    let mut i: usize = 0;
    let mut acc: u128 = 0;
    let mut mul: u128 = 1;
    proof {
        reveal_with_fuel(pow128, 11);
    }
    loop
        invariant
            max as nat == T::spec_max_len(),
            1 <= max <= 10,
            i <= max,
            i <= bs@.len(),
            acc as nat == group_sum(bs@, i as nat),
            mul as nat == pow128(i as nat),
            pow128(10) == 0x40_0000_0000_0000_0000,
            scan_from(bs@, i as nat, max as nat) == var_scan(bs@, max as nat),
        decreases max - i,
    {
        if i >= bs.len() {
            return Err(ProtocolError::UnexpectedEnd);
        }
        if i >= max {
            return Err(ProtocolError::MalformedVarInt);
        }
        let b = bs[i];
        proof {
            lemma_group_sum_bound(bs@, (i + 1) as nat);
            lemma_pow128_mono((i + 1) as nat, max as nat);
            lemma_pow128_mono(max as nat, 10);
        }
        acc = acc + (b % 128) as u128 * mul;
        if b < 128 {
            return Ok((T::decode_groups(acc), i + 1));
        }
        proof {
            lemma_pow128_mono((i + 1) as nat, 10);
        }
        mul = mul * 128;
        i = i + 1;
    }
}

/// A successful decode takes at least one byte and no more than there are.
pub proof fn lemma_var_decode_len<T: VarInt>(bs: Seq<u8>)
    ensures
        var_decode::<T>(bs) matches Ok((v, n)) ==> 1 <= n <= bs.len(),
{
    lemma_scan_len(bs, 0, T::spec_max_len());
}

proof fn lemma_scan_len(bs: Seq<u8>, i: nat, max: nat)
    ensures
        scan_from(bs, i, max) matches VarScan::Complete(n) ==> i + 1 <= n <= bs.len(),
    decreases bs.len() - i,
{
    if i < bs.len() && i < max && bs[i as int] >= 128 {
        lemma_scan_len(bs, i + 1, max);
    }
}

/// `128^a <= 128^b` when `a <= b`.
pub proof fn lemma_pow128_mono(a: nat, b: nat)
    requires
        a <= b,
    ensures
        pow128(a) <= pow128(b),
    decreases b,
{
    if a < b {
        lemma_pow128_mono(a, (b - 1) as nat);
    }
}

/// What an incremental decoder has seen so far, as a mathematical value.
pub enum VarProgress<T> {
    /// Continuation bytes taken so far.
    Partial(Seq<u8>),
    /// The decoded value.
    Full(T),
    /// The encoding ran past its longest length.
    Failed,
}

/// Feeding one byte to an incremental decoder.
pub open spec fn var_step<T: VarInt>(p: VarProgress<T>, byte: u8) -> VarProgress<T> {
    match p {
        VarProgress::Partial(bs) => {
            if bs.len() >= T::spec_max_len() {
                VarProgress::Failed
            } else if byte < 128 {
                VarProgress::Full(T::from_groups(group_sum(bs.push(byte), bs.len() + 1)))
            } else {
                VarProgress::Partial(bs.push(byte))
            }
        },
        other => other,
    }
}

/// Feeding the bytes of `bs`, one at a time, to a fresh decoder.
pub open spec fn var_feed<T: VarInt>(bs: Seq<u8>) -> VarProgress<T>
    decreases bs.len(),
{
    if bs.len() == 0 {
        VarProgress::Partial(Seq::empty())
    } else {
        var_step(var_feed::<T>(bs.drop_last()), bs.last())
    }
}

/// A variable-width integer read one byte at a time.
pub enum PartialVarInt<T> {
    Partial(Vec<u8>),
    Full(T),
}

impl<T: VarInt> View for PartialVarInt<T> {
    type V = VarProgress<T>;

    open spec fn view(&self) -> VarProgress<T> {
        match self {
            PartialVarInt::Partial(bs) => VarProgress::Partial(bs@),
            PartialVarInt::Full(v) => VarProgress::Full(*v),
        }
    }
}

impl<T: VarInt> PartialVarInt<T> {
    /// A decoder that has seen no byte.
    pub fn new() -> (r: Self)
        ensures
            r@ == VarProgress::<T>::Partial(Seq::empty()),
    {
        PartialVarInt::Partial(Vec::new())
    }

    /// Takes the next byte: a final byte completes the value, a continuation
    /// byte is kept, and a byte past the longest encoding is an error. A
    /// complete value stays as it is.
    pub fn next(self, byte: u8) -> (r: Result<Self, ProtocolError>)
        ensures
            match r {
                Ok(p) => p@ == var_step(self@, byte),
                Err(e) => var_step(self@, byte) == VarProgress::<T>::Failed && e
                    == ProtocolError::MalformedVarInt,
            },
    {
        match self {
            PartialVarInt::Full(v) => Ok(PartialVarInt::Full(v)),
            PartialVarInt::Partial(bs) => {
                let mut bs = bs;
                if bs.len() >= T::max_len() {
                    return Err(ProtocolError::MalformedVarInt);
                }
                bs.push(byte);
                if byte >= 128 {
                    return Ok(PartialVarInt::Partial(bs));
                }
                let mut acc: u128 = 0;
                let mut mul: u128 = 1;
                let mut i: usize = 0;
                proof {
                    reveal_with_fuel(pow128, 11);
                    T::lemma_max_len();
                }
                while i < bs.len()
                    invariant
                        i <= bs@.len() <= T::spec_max_len() <= 10,
                        acc as nat == group_sum(bs@, i as nat),
                        mul as nat == pow128(i as nat),
                        pow128(10) == 0x40_0000_0000_0000_0000,
                    decreases bs.len() - i,
                {
                    proof {
                        lemma_group_sum_bound(bs@, (i + 1) as nat);
                        lemma_pow128_mono((i + 1) as nat, 10);
                    }
                    acc = acc + (bs[i] % 128) as u128 * mul;
                    mul = mul * 128;
                    i = i + 1;
                }
                proof {
                    lemma_group_sum_bound(bs@, bs@.len());
                    lemma_pow128_mono(bs@.len(), T::spec_max_len());
                }
                Ok(PartialVarInt::Full(T::decode_groups(acc)))
            },
        }
    }
}

/// Fed one byte at a time, a decoder completes exactly where a one-shot
/// decode ends, with the same value, and fails exactly where a one-shot
/// decode finds the encoding too long; before that it is still partial.
pub proof fn lemma_incremental_matches_one_shot<T: VarInt>(bs: Seq<u8>)
    ensures
        var_scan(bs, T::spec_max_len()) matches VarScan::Complete(n) ==> var_feed::<T>(
            bs.subrange(0, n as int),
        ) == VarProgress::Full(T::from_groups(group_sum(bs, n))),
        var_scan(bs, T::spec_max_len()) == VarScan::TooLong ==> var_feed::<T>(
            bs.subrange(0, T::spec_max_len() + 1 as int),
        ) == VarProgress::<T>::Failed,
        forall|j: nat|
            #![trigger var_feed::<T>(bs.subrange(0, j as int))]
            j <= bs.len() && (forall|i: int| 0 <= i < j ==> bs[i] >= 128) && j
                <= T::spec_max_len() ==> var_feed::<T>(bs.subrange(0, j as int))
                == VarProgress::<T>::Partial(bs.subrange(0, j as int)),
{
    let max = T::spec_max_len();
    assert forall|j: nat|
        #![trigger var_feed::<T>(bs.subrange(0, j as int))]
        j <= bs.len() && (forall|i: int| 0 <= i < j ==> bs[i] >= 128) && j
            <= max implies var_feed::<T>(bs.subrange(0, j as int)) == VarProgress::<T>::Partial(
        bs.subrange(0, j as int),
    ) by {
        lemma_feed_continuations::<T>(bs, j);
    }
    lemma_scan_walk::<T>(bs, 0);
}

/// Feeding continuation bytes, no more than the longest encoding, keeps
/// them all.
proof fn lemma_feed_continuations<T: VarInt>(bs: Seq<u8>, j: nat)
    requires
        j <= bs.len(),
        forall|i: int| 0 <= i < j ==> bs[i] >= 128,
        j <= T::spec_max_len(),
    ensures
        var_feed::<T>(bs.subrange(0, j as int)) == VarProgress::<T>::Partial(
            bs.subrange(0, j as int),
        ),
    decreases j,
{
    if j > 0 {
        let p = bs.subrange(0, j as int);
        assert(p.drop_last() == bs.subrange(0, j - 1));
        lemma_feed_continuations::<T>(bs, (j - 1) as nat);
        assert(p.last() == bs[j - 1]);
        assert(bs[j - 1] >= 128);
        assert(bs.subrange(0, j - 1).push(bs[j - 1]) == p);
        assert(var_feed::<T>(p) == var_step(var_feed::<T>(p.drop_last()), p.last()));
    } else {
        assert(bs.subrange(0, 0) =~= Seq::<u8>::empty());
    }
}

/// Walks the scan from index `i`, with the decoder partial on the first `i`
/// bytes, to where it ends.
proof fn lemma_scan_walk<T: VarInt>(bs: Seq<u8>, i: nat)
    requires
        i <= bs.len(),
        i <= T::spec_max_len(),
        forall|k: int| 0 <= k < i ==> bs[k] >= 128,
        scan_from(bs, i, T::spec_max_len()) == var_scan(bs, T::spec_max_len()),
    ensures
        var_scan(bs, T::spec_max_len()) matches VarScan::Complete(n) ==> var_feed::<T>(
            bs.subrange(0, n as int),
        ) == VarProgress::Full(T::from_groups(group_sum(bs, n))),
        var_scan(bs, T::spec_max_len()) == VarScan::TooLong ==> var_feed::<T>(
            bs.subrange(0, T::spec_max_len() + 1 as int),
        ) == VarProgress::<T>::Failed,
    decreases bs.len() - i,
{
    let max = T::spec_max_len();
    lemma_feed_continuations::<T>(bs, i);
    if i < bs.len() {
        let p = bs.subrange(0, i + 1 as int);
        assert(p.drop_last() == bs.subrange(0, i as int));
        assert(p.last() == bs[i as int]);
        assert(bs.subrange(0, i as int).push(bs[i as int]) == p);
        if i >= max {
        } else if bs[i as int] < 128 {
            assert(p.subrange(0, i + 1 as int) == p);
            lemma_group_sum_prefix(p, bs, i + 1);
        } else {
            lemma_scan_walk::<T>(bs, i + 1);
        }
    }
}

} // verus!
