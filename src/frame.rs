use vstd::prelude::*;

use crate::codec::{push_all, PacketReader};
use crate::error::ProtocolError;
use crate::varint::{
    decode_var, group_sum, scan_from, var_bytes, var_decode, var_feed, var_scan, var_step,
    write_var, PartialVarInt, VarInt, VarProgress, VarScan,
};

verus! {

/// Packets whose id and payload take at least this many bytes are deflated
/// once compression is on.
pub const COMPRESSION_THRESHOLD: usize = 256;

/// The first `len` bytes that the zlib stream `stream` inflates to, if it
/// holds that many.
pub uninterp spec fn inflated(stream: Seq<u8>, len: nat) -> Option<Seq<u8>>;

/// The zlib stream (default level) that `data` deflates to, or nothing when
/// the compressor reports an error.
pub uninterp spec fn deflated(data: Seq<u8>) -> Option<Seq<u8>>;

/// Relies on flate2's `ZlibEncoder` (writing into a `Vec`, default level):
/// its output is a function of `data` alone, and on success it is a zlib
/// stream of `data`, which inflates back to `data`.
#[verifier::external_body]
fn zlib_compress(data: &[u8]) -> (r: Option<Vec<u8>>)
    ensures
        match r {
            Some(c) => deflated(data@) == Some(c@),
            None => deflated(data@) is None,
        },
        r matches Some(c) ==> inflated(c@, data@.len()) == Some(data@),
{
    let mut encoder = flate2::write::ZlibEncoder::new(Vec::new(), flate2::Compression::default());
    std::io::Write::write_all(&mut encoder, data).ok()?;
    encoder.finish().ok()
}

/// Relies on flate2's `ZlibDecoder` read with `read_exact`: the first `len`
/// bytes that `stream` inflates to, or nothing when the stream is malformed
/// or inflates to fewer bytes.
#[verifier::external_body]
fn zlib_inflate(stream: &[u8], len: usize) -> (r: Option<Vec<u8>>)
    ensures
        match r {
            Some(v) => inflated(stream@, len as nat) == Some(v@),
            None => inflated(stream@, len as nat) is None,
        },
{
    let mut decoder = flate2::read::ZlibDecoder::new(stream);
    let mut data = vec![0u8; len];
    std::io::Read::read_exact(&mut decoder, &mut data).ok()?;
    Some(data)
}

/// `env` preceded by its length as a variable-width integer.
pub open spec fn length_prefixed(env: Seq<u8>) -> Seq<u8> {
    var_bytes((env.len() as i32).wire()) + env
}

/// The id and payload carried by the body `body` of one frame: the body
/// itself without compression; with it, an uncompressed length (zero for
/// "stored as is") and then the stored or deflated bytes.
pub open spec fn unpack_spec(body: Seq<u8>, compressed: bool) -> Result<Seq<u8>, ProtocolError> {
    if !compressed {
        Ok(body)
    } else {
        match var_decode::<i32>(body) {
            Err(e) => Err(e),
            Ok((len, n)) => {
                let rest = body.subrange(n as int, body.len() as int);
                if len < 0 {
                    Err(ProtocolError::NegativeLength)
                } else if len == 0 {
                    Ok(rest)
                } else {
                    match inflated(rest, len as nat) {
                        Some(d) => Ok(d),
                        None => Err(ProtocolError::CompressionFormatError),
                    }
                }
            },
        }
    }
}

/// A framed packet unpacks to what was framed: without compression the body
/// is the data; with compression, data under the threshold is stored behind
/// a literal zero, and data at or over it behind its length, deflated.
pub proof fn lemma_envelope_round_trip(data: Seq<u8>, c: Seq<u8>)
    requires
        data.len() <= i32::MAX,
    ensures
        unpack_spec(data, false) == Ok::<Seq<u8>, ProtocolError>(data),
        data.len() < COMPRESSION_THRESHOLD ==> unpack_spec(seq![0u8] + data, true) == Ok::<
            Seq<u8>,
            ProtocolError,
        >(data),
        data.len() >= COMPRESSION_THRESHOLD && inflated(c, data.len()) == Some(data)
            ==> unpack_spec(var_bytes((data.len() as i32).wire()) + c, true) == Ok::<
            Seq<u8>,
            ProtocolError,
        >(data),
{
    let zero = seq![0u8] + data;
    crate::varint::lemma_var_round_trip(0i32, data);
    assert(var_bytes((0i32).wire()) == seq![0u8]);
    assert(zero.subrange(1, zero.len() as int) =~= data);
    let len = data.len() as i32;
    crate::varint::lemma_var_round_trip(len, c);
    let body = var_bytes(len.wire()) + c;
    let n = var_bytes(len.wire()).len();
    assert(body.subrange(n as int, body.len() as int) =~= c);
}

/// `f` is a frame of `data`: with compression off, `data` behind its
/// length; on, below the threshold, `data` behind a zero; at or over it, a
/// zlib stream of `data` behind the data's length.
pub open spec fn framed_as(data: Seq<u8>, compressed: bool, f: Seq<u8>) -> bool {
    if !compressed {
        f == length_prefixed(data)
    } else if data.len() < COMPRESSION_THRESHOLD {
        f == length_prefixed(seq![0u8] + data)
    } else {
        exists|c: Seq<u8>|
            f == length_prefixed(var_bytes((data.len() as i32).wire()) + c) && inflated(
                c,
                data.len(),
            ) == Some(data)
    }
}

/// The frame of `data`: without compression, `data` behind its length; with
/// it, below the threshold, `data` behind a zero; at or over it, the zlib
/// stream of `data` behind the data's length. Fails when a length does not
/// fit a signed 32-bit integer or the compressor fails.
pub open spec fn frame_of(data: Seq<u8>, compressed: bool) -> Result<Seq<u8>, ProtocolError> {
    if data.len() > i32::MAX {
        Err(ProtocolError::LengthOverflow)
    } else if !compressed {
        Ok(length_prefixed(data))
    } else if data.len() < COMPRESSION_THRESHOLD {
        Ok(length_prefixed(seq![0u8] + data))
    } else {
        match deflated(data) {
            None => Err(ProtocolError::CompressionFormatError),
            Some(c) => {
                let env = var_bytes((data.len() as i32).wire()) + c;
                if env.len() > i32::MAX {
                    Err(ProtocolError::LengthOverflow)
                } else {
                    Ok(length_prefixed(env))
                }
            },
        }
    }
}

/// Frames the bytes `data` (a packet id and its payload) for the wire: its
/// length, then, with compression on, an uncompressed length that is zero
/// below the threshold and the data's length, followed by the data deflated,
/// at or over it.
pub fn frame_packet(data: &[u8], compressed: bool) -> (r: Result<Vec<u8>, ProtocolError>)
    ensures
        match frame_of(data@, compressed) {
            Ok(f) => r matches Ok(g) && g@ == f,
            Err(e) => r == Err::<Vec<u8>, ProtocolError>(e),
        },
        !compressed ==> match r {
            Ok(f) => data@.len() <= i32::MAX && f@ == length_prefixed(data@),
            Err(e) => data@.len() > i32::MAX && e == ProtocolError::LengthOverflow,
        },
        compressed && data@.len() < COMPRESSION_THRESHOLD ==> (r matches Ok(f) && f@
            == length_prefixed(seq![0u8] + data@)),
        compressed && data@.len() >= COMPRESSION_THRESHOLD ==> match r {
            Ok(f) => data@.len() <= i32::MAX && exists|c: Seq<u8>|
                f@ == length_prefixed(var_bytes((data@.len() as i32).wire()) + c) && inflated(
                    c,
                    data@.len(),
                ) == Some(data@),
            Err(e) => e == ProtocolError::LengthOverflow || e
                == ProtocolError::CompressionFormatError,
        },
        r matches Ok(f) ==> framed_as(data@, compressed, f@),
        r matches Ok(f) ==> exists|env: Seq<u8>|
            f@ == length_prefixed(env) && env.len() <= i32::MAX && unpack_spec(env, compressed)
                == Ok::<Seq<u8>, ProtocolError>(data@),
{
    if data.len() > 0x7fff_ffff {
        return Err(ProtocolError::LengthOverflow);
    }
    let mut env: Vec<u8> = Vec::new();
    if !compressed {
        push_all(&mut env, data);
        assert(env@ =~= data@);
    } else if data.len() < COMPRESSION_THRESHOLD {
        write_var(&mut env, 0i32);
        push_all(&mut env, data);
        proof {
            assert(var_bytes((0i32).wire()) == seq![0u8]);
            assert(env@ =~= seq![0u8] + data@);
        }
    } else {
        write_var(&mut env, data.len() as i32);
        let c = match zlib_compress(data) {
            Some(c) => c,
            None => return Err(ProtocolError::CompressionFormatError),
        };
        push_all(&mut env, c.as_slice());
        proof {
            let k = var_bytes((data@.len() as i32).wire()).len();
            assert(env@.subrange(k as int, env@.len() as int) =~= c@);
        }
        if env.len() > 0x7fff_ffff {
            return Err(ProtocolError::LengthOverflow);
        }
    }
    proof {
        lemma_envelope_round_trip(data@, env@.subrange(
            var_bytes((data@.len() as i32).wire()).len() as int,
            env@.len() as int,
        ));
        if compressed && data@.len() >= COMPRESSION_THRESHOLD {
            let k = var_bytes((data@.len() as i32).wire()).len();
            assert(env@ == var_bytes((data@.len() as i32).wire()) + env@.subrange(
                k as int,
                env@.len() as int,
            ));
        }
    }
    proof {
        if compressed && data@.len() < COMPRESSION_THRESHOLD {
            assert(env@ == seq![0u8] + data@);
        }
        assert(unpack_spec(env@, compressed) == Ok::<Seq<u8>, ProtocolError>(data@));
    }
    let mut framed: Vec<u8> = Vec::new();
    write_var(&mut framed, env.len() as i32);
    push_all(&mut framed, env.as_slice());
    assert(framed@ == length_prefixed(env@));
    Ok(framed)
}

/// Unpacks the body of one frame to the packet id and payload it carries.
pub fn unpack_body(body: &[u8], compressed: bool) -> (r: Result<Vec<u8>, ProtocolError>)
    ensures
        match r {
            Ok(v) => unpack_spec(body@, compressed) == Ok::<Seq<u8>, ProtocolError>(v@),
            Err(e) => unpack_spec(body@, compressed) == Err::<Seq<u8>, ProtocolError>(e),
        },
{
    let mut out: Vec<u8> = Vec::new();
    if !compressed {
        push_all(&mut out, body);
        return Ok(out);
    }
    let mut reader = PacketReader::new(body);
    let len = reader.read_var::<i32>()?;
    if len < 0 {
        return Err(ProtocolError::NegativeLength);
    }
    let rest = reader.remaining();
    if len == 0 {
        push_all(&mut out, rest);
        return Ok(out);
    }
    match zlib_inflate(rest, len as usize) {
        Some(d) => Ok(d),
        None => Err(ProtocolError::CompressionFormatError),
    }
}

/// How far the frame assembler has got, as a mathematical value.
pub enum FrameProgress {
    /// Reading the frame's length.
    AwaitingLen(VarProgress<i32>),
    /// Collecting `len` body bytes.
    AwaitingBody { len: nat, body: Seq<u8> },
    /// A whole body.
    Full(Seq<u8>),
}

/// Feeding one byte to the frame assembler.
pub open spec fn frame_step(p: FrameProgress, byte: u8) -> Result<FrameProgress, ProtocolError> {
    match p {
        FrameProgress::AwaitingLen(v) => match var_step(v, byte) {
            VarProgress::Failed => Err(ProtocolError::MalformedVarInt),
            VarProgress::Full(len) => {
                if len < 0 {
                    Err(ProtocolError::NegativeLength)
                } else if len == 0 {
                    Ok(FrameProgress::Full(Seq::empty()))
                } else {
                    Ok(FrameProgress::AwaitingBody { len: len as nat, body: Seq::empty() })
                }
            },
            VarProgress::Partial(bs) => Ok(FrameProgress::AwaitingLen(VarProgress::Partial(bs))),
        },
        FrameProgress::AwaitingBody { len, body } => {
            if body.len() + 1 >= len {
                Ok(FrameProgress::Full(body.push(byte)))
            } else {
                Ok(FrameProgress::AwaitingBody { len, body: body.push(byte) })
            }
        },
        FrameProgress::Full(b) => Ok(FrameProgress::Full(b)),
    }
}

/// A packet being assembled from the byte stream, one byte at a time.
pub enum PartialPacket {
    AwaitingLen(PartialVarInt<i32>),
    AwaitingBody { len: usize, body: Vec<u8> },
    Full(Vec<u8>),
}

impl View for PartialPacket {
    type V = FrameProgress;

    open spec fn view(&self) -> FrameProgress {
        match self {
            PartialPacket::AwaitingLen(v) => FrameProgress::AwaitingLen(v@),
            PartialPacket::AwaitingBody { len, body } => FrameProgress::AwaitingBody {
                len: *len as nat,
                body: body@,
            },
            PartialPacket::Full(b) => FrameProgress::Full(b@),
        }
    }
}

impl PartialPacket {
    /// Never more body bytes than the length announced, and a length that
    /// is still being read is still partial.
    pub open spec fn wf(&self) -> bool {
        match self {
            PartialPacket::AwaitingLen(v) => v@ is Partial,
            PartialPacket::AwaitingBody { len, body } => body@.len() < *len,
            PartialPacket::Full(_) => true,
        }
    }

    /// An assembler that has seen no byte.
    pub fn new() -> (r: Self)
        ensures
            r@ == FrameProgress::AwaitingLen(VarProgress::Partial(Seq::empty())),
            r.wf(),
    {
        PartialPacket::AwaitingLen(PartialVarInt::new())
    }

    /// Takes the next byte of the stream.
    pub fn next(self, byte: u8) -> (r: Result<Self, ProtocolError>)
        requires
            self.wf(),
        ensures
            match r {
                Ok(p) => frame_step(self@, byte) == Ok::<FrameProgress, ProtocolError>(p@)
                    && p.wf(),
                Err(e) => frame_step(self@, byte) == Err::<FrameProgress, ProtocolError>(e),
            },
    {
        match self {
            PartialPacket::AwaitingLen(v) => {
                match v.next(byte)? {
                    PartialVarInt::Full(len) => {
                        if len < 0 {
                            Err(ProtocolError::NegativeLength)
                        } else if len == 0 {
                            Ok(PartialPacket::Full(Vec::new()))
                        } else {
                            Ok(PartialPacket::AwaitingBody { len: len as usize, body: Vec::new() })
                        }
                    },
                    PartialVarInt::Partial(bs) => Ok(
                        PartialPacket::AwaitingLen(PartialVarInt::Partial(bs)),
                    ),
                }
            },
            PartialPacket::AwaitingBody { len, body } => {
                let mut body = body;
                body.push(byte);
                if body.len() >= len {
                    Ok(PartialPacket::Full(body))
                } else {
                    Ok(PartialPacket::AwaitingBody { len, body })
                }
            },
            PartialPacket::Full(b) => Ok(PartialPacket::Full(b)),
        }
    }
}

/// Feeding the bytes of `bs` to a fresh frame assembler, one at a time.
pub open spec fn frame_feed(bs: Seq<u8>) -> Result<FrameProgress, ProtocolError>
    decreases bs.len(),
{
    if bs.len() == 0 {
        Ok(FrameProgress::AwaitingLen(VarProgress::Partial(Seq::empty())))
    } else {
        match frame_feed(bs.drop_last()) {
            Ok(p) => frame_step(p, bs.last()),
            Err(e) => Err(e),
        }
    }
}

/// Before a complete scan, every byte continues.
proof fn lemma_scan_continues(bs: Seq<u8>, i: nat, max: nat)
    ensures
        scan_from(bs, i, max) matches VarScan::Complete(n) ==> n <= max && (forall|j: int|
            i <= j < n - 1 ==> bs[j] >= 128) && bs[n - 1] < 128,
    decreases bs.len() - i,
{
    if i < bs.len() && i < max && bs[i as int] >= 128 {
        lemma_scan_continues(bs, i + 1, max);
    }
}

/// While the length is still partial, the assembler only tracks it.
proof fn lemma_feed_length(bs: Seq<u8>, m: nat)
    requires
        m <= bs.len(),
        forall|j: int|
            0 <= j <= m ==> #[trigger] var_feed::<i32>(bs.subrange(0, j)) is Partial,
    ensures
        frame_feed(bs.subrange(0, m as int)) == Ok::<FrameProgress, ProtocolError>(
            FrameProgress::AwaitingLen(var_feed::<i32>(bs.subrange(0, m as int))),
        ),
    decreases m,
{
    if m == 0 {
        assert(bs.subrange(0, 0) =~= Seq::<u8>::empty());
    } else {
        let p = bs.subrange(0, m as int);
        assert(p.drop_last() == bs.subrange(0, m - 1));
        lemma_feed_length(bs, (m - 1) as nat);
        assert(var_feed::<i32>(bs.subrange(0, m - 1)) is Partial);
        assert(var_feed::<i32>(p) == var_step(var_feed::<i32>(p.drop_last()), p.last()));
    }
}

/// Body bytes are collected until the announced length is reached.
proof fn lemma_feed_body(pre: Seq<u8>, env: Seq<u8>, j: nat)
    requires
        0 < env.len(),
        j <= env.len(),
        frame_feed(pre) == Ok::<FrameProgress, ProtocolError>(
            FrameProgress::AwaitingBody { len: env.len(), body: Seq::empty() },
        ),
    ensures
        j < env.len() ==> frame_feed(pre + env.subrange(0, j as int)) == Ok::<
            FrameProgress,
            ProtocolError,
        >(FrameProgress::AwaitingBody { len: env.len(), body: env.subrange(0, j as int) }),
        j == env.len() ==> frame_feed(pre + env.subrange(0, j as int)) == Ok::<
            FrameProgress,
            ProtocolError,
        >(FrameProgress::Full(env)),
    decreases j,
{
    if j == 0 {
        assert(pre + env.subrange(0, 0) =~= pre);
        assert(env.subrange(0, 0) =~= Seq::<u8>::empty());
    } else {
        lemma_feed_body(pre, env, (j - 1) as nat);
        let q = pre + env.subrange(0, j as int);
        assert(q.drop_last() =~= pre + env.subrange(0, j - 1));
        assert(q.last() == env[j - 1]);
        assert(frame_feed(q) == frame_step(
            FrameProgress::AwaitingBody { len: env.len(), body: env.subrange(0, j - 1) },
            env[j - 1],
        ));
        assert(env.subrange(0, j - 1).push(env[j - 1]) =~= env.subrange(0, j as int));
        if j == env.len() {
            assert(env.subrange(0, j as int) =~= env);
        }
    }
}

/// A frame fed to a fresh assembler, one byte at a time, comes out as its
/// body exactly at its last byte.
pub proof fn lemma_frame_assembly(env: Seq<u8>)
    requires
        env.len() <= i32::MAX,
    ensures
        frame_feed(length_prefixed(env)) == Ok::<FrameProgress, ProtocolError>(
            FrameProgress::Full(env),
        ),
        forall|j: int|
            0 <= j < length_prefixed(env).len() ==> !(#[trigger] frame_feed(
                length_prefixed(env).subrange(0, j),
            ) matches Ok(FrameProgress::Full(_))),
{
    let len = env.len() as i32;
    let h = var_bytes(len.wire());
    let k = h.len();
    let bs = length_prefixed(env);
    crate::varint::lemma_var_round_trip(len, env);
    crate::varint::lemma_var_bytes_decode(len.wire(), env, 5);
    assert(var_scan(bs, 5) == VarScan::Complete(k));
    lemma_scan_continues(bs, 0, 5);
    crate::varint::lemma_incremental_matches_one_shot::<i32>(bs);
    assert forall|j: int| 0 <= j <= k - 1 implies #[trigger] var_feed::<i32>(bs.subrange(0, j)) is Partial by {
        assert(forall|i: int| 0 <= i < j ==> bs[i] >= 128);
        assert(var_feed::<i32>(bs.subrange(0, j as nat as int)) == VarProgress::<i32>::Partial(
            bs.subrange(0, j as nat as int),
        ));
    }
    lemma_feed_length(bs, (k - 1) as nat);
    // The last length byte completes the length.
    let pk = bs.subrange(0, k as int);
    assert(pk.drop_last() == bs.subrange(0, k - 1));
    assert(var_feed::<i32>(pk) == VarProgress::Full(<i32 as VarInt>::from_groups(group_sum(bs, k))));
    assert(<i32 as VarInt>::from_groups(group_sum(bs, k)) == len);
    assert(var_feed::<i32>(pk) == var_step(var_feed::<i32>(pk.drop_last()), pk.last()));
    assert(pk =~= h);
    assert(bs =~= h + env);
    assert(frame_feed(pk) == frame_step(
        FrameProgress::AwaitingLen(var_feed::<i32>(pk.drop_last())),
        pk.last(),
    ));
    if env.len() == 0 {
        assert(env =~= Seq::<u8>::empty());
        assert(frame_feed(pk) == Ok::<FrameProgress, ProtocolError>(FrameProgress::Full(env)));
        assert(bs =~= pk);
        assert forall|j: int|
            0 <= j < bs.len() implies !(#[trigger] frame_feed(bs.subrange(0, j)) matches Ok(
            FrameProgress::Full(_),
        )) by {
            assert(var_feed::<i32>(bs.subrange(0, j)) is Partial);
            lemma_feed_length(bs, j as nat);
        }
    } else {
        assert(frame_feed(pk) == Ok::<FrameProgress, ProtocolError>(
            FrameProgress::AwaitingBody { len: env.len(), body: Seq::empty() },
        ));
        lemma_feed_body(pk, env, env.len());
        assert(env.subrange(0, env.len() as int) =~= env);
        assert forall|j: int|
            0 <= j < bs.len() implies !(#[trigger] frame_feed(bs.subrange(0, j)) matches Ok(
            FrameProgress::Full(_),
        )) by {
            if j < k {
                assert(var_feed::<i32>(bs.subrange(0, j)) is Partial);
                lemma_feed_length(bs, j as nat);
            } else {
                let jj = (j - k) as nat;
                lemma_feed_body(pk, env, jj);
                assert(bs.subrange(0, j) =~= pk + env.subrange(0, jj as int));
            }
        }
    }
}

} // verus!
