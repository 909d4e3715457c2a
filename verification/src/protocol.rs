//! The length-prefixed byte framing used to exchange data with an
//! out-of-process pose estimator over a pair of uni-directional byte
//! channels.
//!
//! The frame channel carries raw pixel bytes verbatim (geometry is agreed
//! out-of-band, see `codec::Frame`). The points channel carries one message
//! per cycle: a 4-byte unsigned little-endian length `n`, then exactly `n`
//! payload bytes holding a flat list of 12-byte point records. A read that
//! yields fewer bytes than declared is a fatal protocol violation, never an
//! empty result; a zero-length payload is valid and means "no pose detected".

use vstd::prelude::*;

verus! {

/// A serialized keypoint as it travels on the points channel: the IEEE-754
/// single-precision bit patterns of its x, y and z coordinates, each sent as
/// 4 little-endian bytes, field order fixed. Coordinates are normalized to
/// [0, 1] relative to the frame geometry.
#[derive(Clone, Copy, PartialEq, Eq, Structural, Debug)]
pub struct WirePoint {
    pub x_bits: u32,
    pub y_bits: u32,
    pub z_bits: u32,
}

/// A violation of the points-channel framing. All of these are fatal for the
/// current cycle: there is no partial-message recovery.
#[derive(Clone, Copy, PartialEq, Eq, Structural, Debug)]
pub enum ProtocolError {
    /// The stream closed before the 4 length-prefix bytes arrived.
    ShortHeader { got: usize },
    /// The stream yielded a different number of payload bytes than declared.
    ShortRead { expected: u32, got: usize },
    /// The payload length is not a whole number of 12-byte point records.
    MalformedPayload { len: usize },
}

/// The 4 little-endian bytes of `n`.
pub open spec fn le32_bytes(n: u32) -> Seq<u8> {
    seq![
        (n & 0xff) as u8,
        ((n >> 8) & 0xff) as u8,
        ((n >> 16) & 0xff) as u8,
        ((n >> 24) & 0xff) as u8,
    ]
}

/// The unsigned integer held by 4 little-endian bytes.
pub open spec fn u32_from_le(b0: u8, b1: u8, b2: u8, b3: u8) -> u32 {
    (b0 as u32) | ((b1 as u32) << 8) | ((b2 as u32) << 16) | ((b3 as u32) << 24)
}

/// Reading back the 4 little-endian bytes of `n` yields `n`.
pub proof fn lemma_le32_round_trip(n: u32)
    ensures
        u32_from_le(le32_bytes(n)[0], le32_bytes(n)[1], le32_bytes(n)[2], le32_bytes(n)[3]) == n,
{
    let b0 = (n & 0xff) as u8;
    let b1 = ((n >> 8) & 0xff) as u8;
    let b2 = ((n >> 16) & 0xff) as u8;
    let b3 = ((n >> 24) & 0xff) as u8;
    assert((b0 as u32) | ((b1 as u32) << 8) | ((b2 as u32) << 16) | ((b3 as u32) << 24) == n)
        by (bit_vector)
        requires
            b0 == (n & 0xff) as u8,
            b1 == ((n >> 8) & 0xff) as u8,
            b2 == ((n >> 16) & 0xff) as u8,
            b3 == ((n >> 24) & 0xff) as u8,
    ;
    assert(le32_bytes(n)[0] == b0);
    assert(le32_bytes(n)[1] == b1);
    assert(le32_bytes(n)[2] == b2);
    assert(le32_bytes(n)[3] == b3);
}

/// Serializing the integer read from 4 bytes restores those very bytes.
pub proof fn lemma_le32_bytes_exact(b0: u8, b1: u8, b2: u8, b3: u8)
    ensures
        le32_bytes(u32_from_le(b0, b1, b2, b3)) == seq![b0, b1, b2, b3],
{
    let n = u32_from_le(b0, b1, b2, b3);
    assert((n & 0xff) as u8 == b0 && ((n >> 8) & 0xff) as u8 == b1 && ((n >> 16) & 0xff) as u8
        == b2 && ((n >> 24) & 0xff) as u8 == b3) by (bit_vector)
        requires
            n == (b0 as u32) | ((b1 as u32) << 8) | ((b2 as u32) << 16) | ((b3 as u32) << 24),
    ;
    assert(le32_bytes(n) =~= seq![b0, b1, b2, b3]);
}

/// Append the 4 little-endian bytes of `n` to `out`.
pub fn push_le32(out: &mut Vec<u8>, n: u32)
    ensures
        final(out)@ == old(out)@ + le32_bytes(n),
{
    proof {
        assert(n & 0xff < 256 && (n >> 8) & 0xff < 256 && (n >> 16) & 0xff < 256 && (n >> 24)
            & 0xff < 256) by (bit_vector);
    }
    out.push((n & 0xff) as u8);
    out.push(((n >> 8) & 0xff) as u8);
    out.push(((n >> 16) & 0xff) as u8);
    out.push(((n >> 24) & 0xff) as u8);
    proof {
        assert(out@ =~= old(out)@ + le32_bytes(n));
    }
}

/// Read a 4-byte little-endian length prefix.
pub fn parse_length_prefix(header: &[u8]) -> (n: u32)
    requires
        header@.len() == 4,
    ensures
        n == u32_from_le(header@[0], header@[1], header@[2], header@[3]),
{
    let b0 = *vstd::slice::slice_index_get(header, 0);
    let b1 = *vstd::slice::slice_index_get(header, 1);
    let b2 = *vstd::slice::slice_index_get(header, 2);
    let b3 = *vstd::slice::slice_index_get(header, 3);
    (b0 as u32) | ((b1 as u32) << 8) | ((b2 as u32) << 16) | ((b3 as u32) << 24)
}

/// The 12 bytes of one point record: x, y, z bit patterns, each
/// little-endian, in that order.
pub open spec fn point_bytes(p: WirePoint) -> Seq<u8> {
    le32_bytes(p.x_bits) + le32_bytes(p.y_bits) + le32_bytes(p.z_bits)
}

/// The serialized form of a whole keypoint list: its records in order.
pub open spec fn points_bytes(ps: Seq<WirePoint>) -> Seq<u8>
    decreases ps.len(),
{
    if ps.len() == 0 {
        Seq::<u8>::empty()
    } else {
        point_bytes(ps[0]) + points_bytes(ps.skip(1))
    }
}

/// The point record held by 12 payload bytes.
pub open spec fn parse_point(b: Seq<u8>) -> WirePoint {
    WirePoint {
        x_bits: u32_from_le(b[0], b[1], b[2], b[3]),
        y_bits: u32_from_le(b[4], b[5], b[6], b[7]),
        z_bits: u32_from_le(b[8], b[9], b[10], b[11]),
    }
}

/// The point list held by a payload, taken 12 bytes at a time.
pub open spec fn parse_points(b: Seq<u8>) -> Seq<WirePoint>
    decreases b.len(),
{
    if b.len() < 12 {
        Seq::<WirePoint>::empty()
    } else {
        seq![parse_point(b.subrange(0, 12))] + parse_points(b.skip(12))
    }
}

/// Serialization appends one record per appended point.
pub proof fn lemma_points_bytes_push(ps: Seq<WirePoint>, p: WirePoint)
    ensures
        points_bytes(ps.push(p)) == points_bytes(ps) + point_bytes(p),
    decreases ps.len(),
{
    if ps.len() == 0 {
        assert(ps.push(p)[0] == p);
        assert(ps.push(p).skip(1) =~= ps);
        assert(points_bytes(ps.push(p)) == point_bytes(p) + points_bytes(ps));
        assert(point_bytes(p) + points_bytes(ps) =~= points_bytes(ps) + point_bytes(p));
    } else {
        lemma_points_bytes_push(ps.skip(1), p);
        assert(ps.push(p)[0] == ps[0]);
        assert(ps.push(p).skip(1) =~= ps.skip(1).push(p));
        assert(points_bytes(ps.push(p)) == point_bytes(ps[0]) + (points_bytes(ps.skip(1))
            + point_bytes(p)));
        assert(point_bytes(ps[0]) + (points_bytes(ps.skip(1)) + point_bytes(p)) =~= (point_bytes(
            ps[0],
        ) + points_bytes(ps.skip(1))) + point_bytes(p));
    }
}

/// A serialized list is exactly 12 bytes per point.
pub proof fn lemma_points_bytes_len(ps: Seq<WirePoint>)
    ensures
        points_bytes(ps).len() == 12 * ps.len(),
    decreases ps.len(),
{
    if ps.len() > 0 {
        lemma_points_bytes_len(ps.skip(1));
    }
}

/// A 12-byte record parses back to the point it was made from.
pub proof fn lemma_point_round_trip(p: WirePoint)
    ensures
        parse_point(point_bytes(p)) == p,
{
    let b = point_bytes(p);
    assert(b[0] == le32_bytes(p.x_bits)[0]);
    assert(b[1] == le32_bytes(p.x_bits)[1]);
    assert(b[2] == le32_bytes(p.x_bits)[2]);
    assert(b[3] == le32_bytes(p.x_bits)[3]);
    assert(b[4] == le32_bytes(p.y_bits)[0]);
    assert(b[5] == le32_bytes(p.y_bits)[1]);
    assert(b[6] == le32_bytes(p.y_bits)[2]);
    assert(b[7] == le32_bytes(p.y_bits)[3]);
    assert(b[8] == le32_bytes(p.z_bits)[0]);
    assert(b[9] == le32_bytes(p.z_bits)[1]);
    assert(b[10] == le32_bytes(p.z_bits)[2]);
    assert(b[11] == le32_bytes(p.z_bits)[3]);
    lemma_le32_round_trip(p.x_bits);
    lemma_le32_round_trip(p.y_bits);
    lemma_le32_round_trip(p.z_bits);
}

/// Law: serializing a keypoint list and parsing the payload back yields the
/// original list exactly, record for record.
pub proof fn lemma_points_round_trip(ps: Seq<WirePoint>)
    ensures
        points_bytes(ps).len() == 12 * ps.len(),
        parse_points(points_bytes(ps)) == ps,
    decreases ps.len(),
{
    lemma_points_bytes_len(ps);
    if ps.len() == 0 {
        assert(parse_points(points_bytes(ps)) =~= ps);
    } else {
        lemma_points_round_trip(ps.skip(1));
        lemma_points_bytes_len(ps.skip(1));
        let b = points_bytes(ps);
        assert(b.subrange(0, 12) =~= point_bytes(ps[0]));
        assert(b.skip(12) =~= points_bytes(ps.skip(1)));
        lemma_point_round_trip(ps[0]);
        assert(seq![ps[0]] + ps.skip(1) =~= ps);
    }
}

/// Law: one full cycle of the points channel is lossless. Framing a
/// keypoint list and then reading back the 4-byte prefix and the declared
/// payload yields the payload size and the original list exactly, record
/// for record.
pub proof fn lemma_message_round_trip(ps: Seq<WirePoint>)
    requires
        12 * ps.len() <= u32::MAX,
    ensures
        frame_bytes(points_bytes(ps)).len() == 4 + 12 * ps.len(),
        u32_from_le(
            frame_bytes(points_bytes(ps))[0],
            frame_bytes(points_bytes(ps))[1],
            frame_bytes(points_bytes(ps))[2],
            frame_bytes(points_bytes(ps))[3],
        ) == 12 * ps.len(),
        parse_points(frame_bytes(points_bytes(ps)).skip(4)) == ps,
{
    lemma_points_bytes_len(ps);
    lemma_frame_fidelity(points_bytes(ps));
    lemma_points_round_trip(ps);
}

/// Serialize a keypoint list into its raw payload bytes, 12 per point.
pub fn encode_points(points: &Vec<WirePoint>) -> (r: Vec<u8>)
    ensures
        r@ == points_bytes(points@),
        r@.len() == 12 * points@.len(),
{
    let mut out: Vec<u8> = Vec::new();
    let mut i: usize = 0;
    while i < points.len()
        invariant
            i <= points@.len(),
            out@ == points_bytes(points@.subrange(0, i as int)),
            out@.len() == 12 * i,
        decreases points@.len() - i,
    {
        let p = *vstd::slice::slice_index_get(points.as_slice(), i);
        let ghost pre = points@.subrange(0, i as int);
        let ghost pre_out = out@;
        push_le32(&mut out, p.x_bits);
        push_le32(&mut out, p.y_bits);
        push_le32(&mut out, p.z_bits);
        proof {
            assert(out@ =~= pre_out + point_bytes(p));
            lemma_points_bytes_push(pre, p);
            assert(pre.push(p) =~= points@.subrange(0, i + 1));
        }
        i = i + 1;
    }
    proof {
        assert(points@.subrange(0, points@.len() as int) =~= points@);
    }
    out
}

/// A complete framed message for a payload: the payload's length as 4
/// little-endian bytes, then the payload itself.
pub open spec fn frame_bytes(payload: Seq<u8>) -> Seq<u8> {
    le32_bytes(payload.len() as u32) + payload
}

/// Law: length-prefix framing is faithful. For an `n`-byte payload the framed
/// message holds exactly `4 + n` bytes, its first 4 bytes read back as `n`,
/// and the bytes after the prefix are exactly the payload — so a receiver
/// that reads 4 bytes and then the declared count reconstructs the payload.
pub proof fn lemma_frame_fidelity(payload: Seq<u8>)
    requires
        payload.len() <= u32::MAX,
    ensures
        frame_bytes(payload).len() == 4 + payload.len(),
        u32_from_le(
            frame_bytes(payload)[0],
            frame_bytes(payload)[1],
            frame_bytes(payload)[2],
            frame_bytes(payload)[3],
        ) == payload.len(),
        frame_bytes(payload).skip(4) == payload,
{
    let n = payload.len() as u32;
    lemma_le32_round_trip(n);
    assert(frame_bytes(payload)[0] == le32_bytes(n)[0]);
    assert(frame_bytes(payload)[1] == le32_bytes(n)[1]);
    assert(frame_bytes(payload)[2] == le32_bytes(n)[2]);
    assert(frame_bytes(payload)[3] == le32_bytes(n)[3]);
    assert(frame_bytes(payload).skip(4) =~= payload);
}

/// Serialize a keypoint list into one complete framed message for the points
/// channel: the payload length as 4 little-endian bytes, then the payload.
pub fn encode_points_message(points: &Vec<WirePoint>) -> (r: Vec<u8>)
    requires
        12 * points@.len() <= u32::MAX,
    ensures
        r@ == frame_bytes(points_bytes(points@)),
        r@.len() == 4 + 12 * points@.len(),
{
    let payload = encode_points(points);
    let mut out: Vec<u8> = Vec::new();
    push_le32(&mut out, payload.len() as u32);
    let mut i: usize = 0;
    while i < payload.len()
        invariant
            i <= payload@.len(),
            payload@.len() == 12 * points@.len() <= u32::MAX,
            out@ == le32_bytes((12 * points@.len()) as u32) + payload@.subrange(0, i as int),
        decreases payload@.len() - i,
    {
        let b = *vstd::slice::slice_index_get(payload.as_slice(), i);
        out.push(b);
        proof {
            assert(out@ =~= le32_bytes((12 * points@.len()) as u32) + payload@.subrange(
                0,
                i + 1,
            ));
        }
        i = i + 1;
    }
    proof {
        assert(payload@.subrange(0, payload@.len() as int) =~= payload@);
        assert(out@ =~= frame_bytes(points_bytes(points@)));
    }
    out
}

/// Deserialize a points payload. A zero-length payload is valid and yields
/// the empty list; a length that is not a whole number of records is a
/// schema violation.
pub fn decode_points(payload: &[u8]) -> (r: Result<Vec<WirePoint>, ProtocolError>)
    ensures
        match r {
            Ok(ps) => payload@.len() % 12 == 0 && ps@ == parse_points(payload@),
            Err(e) => payload@.len() % 12 != 0 && e == (ProtocolError::MalformedPayload {
                len: payload@.len() as usize,
            }),
        },
{
    let n: usize = payload.len();
    if n % 12 != 0 {
        return Err(ProtocolError::MalformedPayload { len: n });
    }
    let count: usize = n / 12;
    proof {
        vstd::arithmetic::div_mod::lemma_fundamental_div_mod(n as int, 12);
    }
    let mut ps: Vec<WirePoint> = Vec::new();
    proof {
        assert(payload@.skip(0) =~= payload@);
        assert(Seq::<WirePoint>::empty() + parse_points(payload@) =~= parse_points(payload@));
    }
    let mut rec: usize = 0;
    while rec < count
        invariant
            n == payload@.len(),
            count == n / 12,
            n == 12 * count,
            rec <= count,
            ps@.len() == rec,
            ps@ + parse_points(payload@.skip(12 * rec)) == parse_points(payload@),
        decreases count - rec,
    {
        proof {
            assert(12 * rec + 12 <= 12 * count) by (nonlinear_arith)
                requires
                    rec < count,
            ;
        }
        let idx: usize = 12 * rec;
        let b0 = *vstd::slice::slice_index_get(payload, idx);
        let b1 = *vstd::slice::slice_index_get(payload, idx + 1);
        let b2 = *vstd::slice::slice_index_get(payload, idx + 2);
        let b3 = *vstd::slice::slice_index_get(payload, idx + 3);
        let b4 = *vstd::slice::slice_index_get(payload, idx + 4);
        let b5 = *vstd::slice::slice_index_get(payload, idx + 5);
        let b6 = *vstd::slice::slice_index_get(payload, idx + 6);
        let b7 = *vstd::slice::slice_index_get(payload, idx + 7);
        let b8 = *vstd::slice::slice_index_get(payload, idx + 8);
        let b9 = *vstd::slice::slice_index_get(payload, idx + 9);
        let b10 = *vstd::slice::slice_index_get(payload, idx + 10);
        let b11 = *vstd::slice::slice_index_get(payload, idx + 11);
        let point = WirePoint {
            x_bits: (b0 as u32) | ((b1 as u32) << 8) | ((b2 as u32) << 16) | ((b3 as u32) << 24),
            y_bits: (b4 as u32) | ((b5 as u32) << 8) | ((b6 as u32) << 16) | ((b7 as u32) << 24),
            z_bits: (b8 as u32) | ((b9 as u32) << 8) | ((b10 as u32) << 16) | ((b11 as u32)
                << 24),
        };
        let ghost pre = ps@;
        ps.push(point);
        proof {
            let tail = payload@.skip(12 * rec as int);
            assert(tail.len() == n - 12 * rec >= 12);
            assert(tail.subrange(0, 12) =~= payload@.subrange(12 * rec as int, 12 * rec + 12));
            assert(tail.skip(12) =~= payload@.skip(12 * (rec + 1)));
            assert(point == parse_point(tail.subrange(0, 12))) by {
                let sub = payload@.subrange(12 * rec as int, 12 * rec + 12);
                assert(sub[0] == b0 && sub[1] == b1 && sub[2] == b2 && sub[3] == b3 && sub[4] == b4
                    && sub[5] == b5 && sub[6] == b6 && sub[7] == b7 && sub[8] == b8 && sub[9] == b9
                    && sub[10] == b10 && sub[11] == b11);
            }
            assert(parse_points(tail) == seq![point] + parse_points(payload@.skip(12 * (rec
                + 1))));
            assert(ps@ =~= pre + seq![point]);
            assert(pre + parse_points(tail) =~= ps@ + parse_points(payload@.skip(12 * (rec + 1))));
        }
        rec = rec + 1;
    }
    proof {
        assert(payload@.skip(12 * count as int).len() == 0);
        assert(ps@ + parse_points(payload@.skip(12 * count as int)) =~= ps@);
    }
    Ok(ps)
}

/// Interpret one receive cycle of the points channel: `header` holds what a
/// 4-byte read of the length prefix yielded, `body` what the subsequent read
/// of the declared payload yielded. The receiver accepts exactly the declared
/// byte count: anything else is a fatal protocol error for the cycle, never
/// silently treated as "no keypoints".
pub fn receive_points(header: &[u8], body: &[u8]) -> (r: Result<Vec<WirePoint>, ProtocolError>)
    ensures
        match r {
            Ok(ps) => {
                &&& header@.len() == 4
                &&& body@.len() == u32_from_le(header@[0], header@[1], header@[2], header@[3])
                &&& body@.len() % 12 == 0
                &&& ps@ == parse_points(body@)
            },
            Err(ProtocolError::ShortHeader { got }) => {
                &&& header@.len() != 4
                &&& got == header@.len()
            },
            Err(ProtocolError::ShortRead { expected, got }) => {
                &&& header@.len() == 4
                &&& expected == u32_from_le(header@[0], header@[1], header@[2], header@[3])
                &&& got == body@.len()
                &&& body@.len() != expected
            },
            Err(ProtocolError::MalformedPayload { len }) => {
                &&& header@.len() == 4
                &&& body@.len() == u32_from_le(header@[0], header@[1], header@[2], header@[3])
                &&& len == body@.len()
                &&& body@.len() % 12 != 0
            },
        },
{
    if header.len() != 4 {
        return Err(ProtocolError::ShortHeader { got: header.len() });
    }
    let expected: u32 = parse_length_prefix(header);
    let got: usize = body.len();
    if (got as u64) != (expected as u64) {
        return Err(ProtocolError::ShortRead { expected, got });
    }
    decode_points(body)
}

} // verus!
