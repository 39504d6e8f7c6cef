//! Length-delimited framing.
//!
//! A file written by the sink is, once decompressed, a sequence of frames:
//! a 4-byte big-endian length followed by that many payload bytes.  Readers
//! iterate frames until the end of the stream and tolerate a truncated tail
//! by recovering every frame that is intact.

use vstd::prelude::*;

verus! {

/// The four big-endian bytes of a frame length.
pub open spec fn be_bytes_of(n: u32) -> Seq<u8> {
    seq![
        ((n >> 24) & 0xff) as u8,
        ((n >> 16) & 0xff) as u8,
        ((n >> 8) & 0xff) as u8,
        (n & 0xff) as u8,
    ]
}

/// The length read back from four big-endian bytes.
pub open spec fn be_u32_of(b: Seq<u8>) -> u32
    recommends
        b.len() == 4,
{
    (((b[0] as u32) << 24) | ((b[1] as u32) << 16) | ((b[2] as u32) << 8) | (b[3] as u32)) as u32
}

/// One frame: the payload length as four big-endian bytes, then the payload.
pub open spec fn frame_spec(payload: Seq<u8>) -> Seq<u8>
    recommends
        payload.len() <= u32::MAX,
{
    be_bytes_of(payload.len() as u32) + payload
}

/// The framed encoding of a sequence of payloads, in order.
pub open spec fn frames_spec(payloads: Seq<Seq<u8>>) -> Seq<u8>
    decreases payloads.len(),
{
    if payloads.len() == 0 {
        Seq::empty()
    } else {
        frame_spec(payloads[0]) + frames_spec(payloads.drop_first())
    }
}

/// Every payload of the sequence fits in a 4-byte length prefix.
pub open spec fn payloads_fit(payloads: Seq<Seq<u8>>) -> bool {
    forall|i: int| 0 <= i < payloads.len() ==> #[trigger] payloads[i].len() <= u32::MAX
}

/// Frames recovered from a byte stream, together with whether the stream
/// ended cleanly on a frame boundary.  A truncated tail (a partial length
/// prefix, or a short payload) loses only that tail.
pub open spec fn decode_spec(b: Seq<u8>) -> (Seq<Seq<u8>>, bool)
    decreases b.len(),
{
    if b.len() == 0 {
        (Seq::empty(), true)
    } else if b.len() < 4 {
        (Seq::empty(), false)
    } else {
        let n = be_u32_of(b.subrange(0, 4)) as int;
        if b.len() < 4 + n {
            (Seq::empty(), false)
        } else {
            let rest = decode_spec(b.subrange(4 + n, b.len() as int));
            (seq![b.subrange(4, 4 + n)] + rest.0, rest.1)
        }
    }
}

/// Reading back the four big-endian bytes of a length yields the length.
pub proof fn lemma_be_round_trip(n: u32)
    ensures
        be_u32_of(be_bytes_of(n)) == n,
{
    let b = be_bytes_of(n);
    assert(((((((n >> 24) & 0xff) as u8) as u32) << 24) | (((((n >> 16) & 0xff) as u8) as u32)
        << 16) | (((((n >> 8) & 0xff) as u8) as u32) << 8) | (((n & 0xff) as u8) as u32)) as u32
        == n) by (bit_vector);
    assert(b[0] == (((n >> 24) & 0xff) as u8));
    assert(b[1] == (((n >> 16) & 0xff) as u8));
    assert(b[2] == (((n >> 8) & 0xff) as u8));
    assert(b[3] == ((n & 0xff) as u8));
}

/// Round trip: decoding the framed encoding of any payload sequence whose
/// payloads fit the length prefix recovers exactly that sequence, and the
/// stream is seen to end cleanly.
pub proof fn lemma_frames_round_trip(payloads: Seq<Seq<u8>>)
    requires
        payloads_fit(payloads),
    ensures
        decode_spec(frames_spec(payloads)) == (payloads, true),
    decreases payloads.len(),
{
    if payloads.len() == 0 {
        assert(frames_spec(payloads).len() == 0);
        assert(decode_spec(frames_spec(payloads)) == (Seq::<Seq<u8>>::empty(), true));
        assert(payloads =~= Seq::<Seq<u8>>::empty());
    } else {
        let p0 = payloads[0];
        let rest = payloads.drop_first();
        let b = frames_spec(payloads);
        let n = p0.len() as u32;
        assert(b == frame_spec(p0) + frames_spec(rest));
        assert(frame_spec(p0).len() == 4 + p0.len());
        assert(b.len() >= 4 + p0.len());
        assert(b.subrange(0, 4) =~= be_bytes_of(n));
        lemma_be_round_trip(n);
        assert(be_u32_of(b.subrange(0, 4)) == n);
        assert(b.subrange(4, 4 + n as int) =~= p0);
        assert(b.subrange(4 + n as int, b.len() as int) =~= frames_spec(rest));
        lemma_frames_round_trip(rest);
        let tail = decode_spec(b.subrange(4 + n as int, b.len() as int));
        assert(tail == (rest, true));
        assert(decode_spec(b).0 =~= seq![p0] + rest);
        assert(seq![p0] + rest =~= payloads);
    }
}

/// Appending one more framed payload extends the encoded stream.
pub proof fn lemma_frames_push(payloads: Seq<Seq<u8>>, p: Seq<u8>)
    ensures
        frames_spec(payloads.push(p)) == frames_spec(payloads) + frame_spec(p),
    decreases payloads.len(),
{
    if payloads.len() == 0 {
        assert(payloads.push(p).drop_first() =~= Seq::<Seq<u8>>::empty());
        assert(payloads.push(p)[0] == p);
        assert(frames_spec(payloads.push(p)) == frame_spec(p) + frames_spec(
            Seq::<Seq<u8>>::empty(),
        ));
        assert(frames_spec(Seq::<Seq<u8>>::empty()) == Seq::<u8>::empty());
        assert(frame_spec(p) + Seq::<u8>::empty() =~= frame_spec(p));
        assert(frames_spec(payloads) + frame_spec(p) =~= frame_spec(p));
    } else {
        assert(payloads.push(p).drop_first() =~= payloads.drop_first().push(p));
        assert(payloads.push(p)[0] == payloads[0]);
        lemma_frames_push(payloads.drop_first(), p);
        assert(frames_spec(payloads.push(p)) == frame_spec(payloads[0]) + (frames_spec(
            payloads.drop_first(),
        ) + frame_spec(p)));
        assert(frame_spec(payloads[0]) + (frames_spec(payloads.drop_first()) + frame_spec(p)) =~= (
        frame_spec(payloads[0]) + frames_spec(payloads.drop_first())) + frame_spec(p));
        assert(frames_spec(payloads.push(p)) =~= frames_spec(payloads) + frame_spec(p));
    }
}

/// Encode one payload as a frame.
pub fn encode_frame(payload: &Vec<u8>) -> (r: Vec<u8>)
    requires
        payload@.len() <= u32::MAX,
    ensures
        r@ == frame_spec(payload@),
{
    let n = payload.len() as u32;
    let mut out: Vec<u8> = Vec::new();
    out.push(((n >> 24) & 0xff) as u8);
    out.push(((n >> 16) & 0xff) as u8);
    out.push(((n >> 8) & 0xff) as u8);
    out.push((n & 0xff) as u8);
    out.extend_from_slice(payload.as_slice());
    proof {
        assert(out@ =~= frame_spec(payload@));
    }
    out
}

/// Encode a sequence of payloads as a framed stream, in order.
pub fn encode_frames(payloads: &Vec<Vec<u8>>) -> (r: Vec<u8>)
    requires
        payloads_fit(payloads@.map_values(|p: Vec<u8>| p@)),
    ensures
        r@ == frames_spec(payloads@.map_values(|p: Vec<u8>| p@)),
{
    let ghost model = payloads@.map_values(|p: Vec<u8>| p@);
    let mut out: Vec<u8> = Vec::new();
    let mut i: usize = 0;
    proof {
        assert(model.subrange(0, 0) =~= Seq::<Seq<u8>>::empty());
    }
    while i < payloads.len()
        invariant
            0 <= i <= payloads.len(),
            model == payloads@.map_values(|p: Vec<u8>| p@),
            payloads_fit(model),
            out@ == frames_spec(model.subrange(0, i as int)),
        decreases payloads.len() - i,
    {
        proof {
            assert(model[i as int].len() <= u32::MAX);
            assert(payloads@[i as int]@ == model[i as int]);
        }
        let frame = encode_frame(&payloads[i]);
        let ghost prefix = model.subrange(0, i as int);
        out.extend_from_slice(frame.as_slice());
        proof {
            lemma_frames_push(prefix, model[i as int]);
            assert(prefix.push(model[i as int]) =~= model.subrange(0, i as int + 1));
        }
        i += 1;
    }
    proof {
        assert(model.subrange(0, payloads.len() as int) =~= model);
    }
    out
}

/// Decode a framed stream.  Returns the recovered payloads and whether the
/// stream ended cleanly on a frame boundary.
pub fn decode_frames(bytes: &Vec<u8>) -> (r: (Vec<Vec<u8>>, bool))
    ensures
        (r.0@.map_values(|p: Vec<u8>| p@), r.1) == decode_spec(bytes@),
{
    let mut out: Vec<Vec<u8>> = Vec::new();
    let mut pos: usize = 0;
    let mut clean: bool = true;
    let len = bytes.len();
    proof {
        assert(bytes@.subrange(0, len as int) =~= bytes@);
    }
    while pos < len
        invariant_except_break
            0 <= pos <= len,
            len == bytes@.len(),
            clean,
            decode_spec(bytes@).0 =~= out@.map_values(|p: Vec<u8>| p@) + decode_spec(
                bytes@.subrange(pos as int, len as int),
            ).0,
            decode_spec(bytes@).1 == decode_spec(bytes@.subrange(pos as int, len as int)).1,
        ensures
            decode_spec(bytes@).0 =~= out@.map_values(|p: Vec<u8>| p@),
            decode_spec(bytes@).1 == clean,
        decreases len - pos,
    {
        let ghost suffix = bytes@.subrange(pos as int, len as int);
        if len - pos < 4 {
            clean = false;
            proof {
                assert(decode_spec(suffix) == (Seq::<Seq<u8>>::empty(), false));
                assert(out@.map_values(|p: Vec<u8>| p@) + decode_spec(suffix).0 =~= out@.map_values(
                    |p: Vec<u8>| p@,
                ));
            }
            break ;
        }
        let n = ((bytes[pos] as u32) << 24) | ((bytes[pos + 1] as u32) << 16) | ((bytes[pos
            + 2] as u32) << 8) | (bytes[pos + 3] as u32);
        proof {
            assert(suffix.subrange(0, 4) =~= seq![
                bytes@[pos as int],
                bytes@[pos as int + 1],
                bytes@[pos as int + 2],
                bytes@[pos as int + 3],
            ]);
            assert(be_u32_of(suffix.subrange(0, 4)) == n);
        }
        if ((len - pos - 4) as u64) < (n as u64) {
            clean = false;
            proof {
                assert(suffix.len() < 4 + n as int);
                assert(decode_spec(suffix) == (Seq::<Seq<u8>>::empty(), false));
                assert(out@.map_values(|p: Vec<u8>| p@) + decode_spec(suffix).0 =~= out@.map_values(
                    |p: Vec<u8>| p@,
                ));
            }
            break ;
        }
        let n_usize = n as usize;
        let mut payload: Vec<u8> = Vec::new();
        let mut j: usize = pos + 4;
        while j < pos + 4 + n_usize
            invariant
                pos + 4 <= j <= pos + 4 + n_usize,
                pos + 4 + n_usize <= len,
                len == bytes@.len(),
                payload@ =~= bytes@.subrange(pos as int + 4, j as int),
            decreases pos + 4 + n_usize - j,
        {
            payload.push(bytes[j]);
            j += 1;
        }
        proof {
            assert(payload@ =~= suffix.subrange(4, 4 + n as int));
        }
        let ghost old_out = out@;
        out.push(payload);
        proof {
            let next = bytes@.subrange(pos as int + 4 + n as int, len as int);
            assert(suffix.subrange(4 + n as int, suffix.len() as int) =~= next);
            assert(decode_spec(suffix).0 =~= seq![suffix.subrange(4, 4 + n as int)] + decode_spec(
                next,
            ).0);
            assert(out@.map_values(|p: Vec<u8>| p@) =~= old_out.map_values(|p: Vec<u8>| p@).push(
                payload@,
            ));
            assert(out@.map_values(|p: Vec<u8>| p@) + decode_spec(next).0 =~= old_out.map_values(
                |p: Vec<u8>| p@,
            ) + decode_spec(suffix).0);
        }
        pos = pos + 4 + n_usize;
        proof {
            assert(bytes@.subrange(pos as int, len as int) =~= suffix.subrange(
                4 + n as int,
                suffix.len() as int,
            ));
        }
    }
    (out, clean)
}

} // verus!
