use vstd::prelude::*;
use crate::error::Error;
use crate::numbytes::{
    be_bytes, be_val, lemma_be_bytes_len, lemma_be_bytes_of_val, lemma_be_val_bound,
    lemma_be_val_of_bytes, pow256, read_be,
};

verus! {

// A frame on the wire is an 8-byte big-endian stream id, a 4-byte
// big-endian payload length, then exactly that many payload bytes.

/// The stream id declared by the frame header at the start of `s`.
pub open spec fn header_id(s: Seq<u8>) -> nat {
    be_val(s.subrange(0, 8))
}

/// The payload length declared by the frame header at the start of `s`.
pub open spec fn header_len(s: Seq<u8>) -> nat {
    be_val(s.subrange(8, 12))
}

/// True when `s` starts with one complete frame: a full 12-byte header
/// whose declared length fits in the bytes that follow it.
pub open spec fn has_frame(s: Seq<u8>) -> bool {
    s.len() >= 12 && header_len(s) + 12 <= s.len()
}

/// The first frame's payload bytes.
pub open spec fn frame_payload(s: Seq<u8>) -> Seq<u8> {
    s.subrange(12, 12 + header_len(s) as int)
}

/// The bytes after the first frame.
pub open spec fn frame_rest(s: Seq<u8>) -> Seq<u8> {
    s.skip(12 + header_len(s) as int)
}

/// All frames that parsing `s` front to back yields, each as
/// (stream id, payload).
pub open spec fn frames_of(s: Seq<u8>) -> Seq<(nat, Seq<u8>)>
    decreases s.len(),
{
    if has_frame(s) {
        seq![(header_id(s), frame_payload(s))] + frames_of(frame_rest(s))
    } else {
        Seq::empty()
    }
}

/// How parsing `s` ends: `None` for a clean end exactly at the last
/// byte; `TrailingData` when leftover bytes cannot fill a header;
/// `UnexpectedEnd` when a header declares more bytes than remain.
pub open spec fn parse_end(s: Seq<u8>) -> Option<Error>
    decreases s.len(),
{
    if has_frame(s) {
        parse_end(frame_rest(s))
    } else if s.len() == 0 {
        None
    } else if s.len() < 12 {
        Some(Error::TrailingData(s.len() as usize))
    } else {
        Some(Error::UnexpectedEnd)
    }
}

/// The on-wire encoding of one frame.
pub open spec fn frame_bytes(id: nat, payload: Seq<u8>) -> Seq<u8> {
    be_bytes(id, 8) + be_bytes(payload.len(), 4) + payload
}

/// The concatenation of the encodings of a frame sequence.
pub open spec fn unparse(frames: Seq<(nat, Seq<u8>)>) -> Seq<u8>
    decreases frames.len(),
{
    if frames.len() == 0 {
        Seq::empty()
    } else {
        frame_bytes(frames[0].0, frames[0].1) + unparse(frames.drop_first())
    }
}

/// True when a frame's id and payload length fit their fixed-width
/// header fields.
pub open spec fn frame_sized(f: (nat, Seq<u8>)) -> bool {
    f.0 < pow256(8) && f.1.len() < pow256(4)
}

pub open spec fn frames_sized(fs: Seq<(nat, Seq<u8>)>) -> bool {
    forall|i: int| 0 <= i < fs.len() ==> frame_sized(#[trigger] fs[i])
}

/// Round trip: a buffer that parses to a clean end is reproduced
/// exactly by re-concatenating (stream id, length, payload) for every
/// frame the parse yields.
pub proof fn lemma_parse_round_trip(s: Seq<u8>)
    requires
        parse_end(s) is None,
    ensures
        unparse(frames_of(s)) == s,
    decreases s.len(),
{
    if has_frame(s) {
        let id = header_id(s);
        let payload = frame_payload(s);
        let rest = frame_rest(s);
        lemma_parse_round_trip(rest);
        assert(s.subrange(0, 8).len() == 8);
        assert(s.subrange(8, 12).len() == 4);
        lemma_be_bytes_of_val(s.subrange(0, 8));
        lemma_be_bytes_of_val(s.subrange(8, 12));
        assert(payload.len() == header_len(s));
        assert(frames_of(s).drop_first() =~= frames_of(rest));
        assert(frame_bytes(id, payload) + rest =~= s);
        assert(unparse(frames_of(s)) == frame_bytes(id, payload) + unparse(frames_of(rest)));
    } else {
        assert(s.len() == 0);
        assert(unparse(frames_of(s)) =~= s);
    }
}

/// Parsing the encoding of one sized frame followed by any tail finds
/// exactly that frame first and leaves exactly that tail.
pub proof fn lemma_parse_first_frame(id: nat, payload: Seq<u8>, rest: Seq<u8>)
    requires
        id < pow256(8),
        payload.len() < pow256(4),
    ensures
        has_frame(frame_bytes(id, payload) + rest),
        header_id(frame_bytes(id, payload) + rest) == id,
        frame_payload(frame_bytes(id, payload) + rest) == payload,
        frame_rest(frame_bytes(id, payload) + rest) == rest,
{
    let b = frame_bytes(id, payload) + rest;
    lemma_be_bytes_len(id, 8);
    lemma_be_bytes_len(payload.len(), 4);
    assert(b.subrange(0, 8) =~= be_bytes(id, 8));
    assert(b.subrange(8, 12) =~= be_bytes(payload.len(), 4));
    lemma_be_val_of_bytes(id, 8);
    lemma_be_val_of_bytes(payload.len(), 4);
    assert(header_len(b) == payload.len());
    assert(b.subrange(12, 12 + payload.len() as int) =~= payload);
    assert(b.skip(12 + payload.len() as int) =~= rest);
}

/// Parsing the encoding of a sized frame sequence followed by any tail
/// yields those frames, then whatever parsing the tail alone yields.
pub proof fn lemma_parse_append(fs: Seq<(nat, Seq<u8>)>, tail: Seq<u8>)
    requires
        frames_sized(fs),
    ensures
        frames_of(unparse(fs) + tail) == fs + frames_of(tail),
        parse_end(unparse(fs) + tail) == parse_end(tail),
    decreases fs.len(),
{
    if fs.len() == 0 {
        assert(unparse(fs) + tail =~= tail);
        assert(frames_of(tail) =~= fs + frames_of(tail));
    } else {
        let f = fs[0];
        let fs1 = fs.drop_first();
        assert(frame_sized(f));
        assert(frames_sized(fs1));
        lemma_parse_append(fs1, tail);
        let b = unparse(fs) + tail;
        assert(b =~= frame_bytes(f.0, f.1) + (unparse(fs1) + tail));
        lemma_parse_first_frame(f.0, f.1, unparse(fs1) + tail);
        assert(frames_of(b) == seq![(f.0, f.1)] + frames_of(unparse(fs1) + tail));
        assert(frames_of(b) =~= fs + frames_of(tail));
    }
}

/// The bytes after the last complete frame of `s`.
pub open spec fn leftover(s: Seq<u8>) -> Seq<u8>
    decreases s.len(),
{
    if has_frame(s) {
        leftover(frame_rest(s))
    } else {
        s
    }
}

/// Any buffer splits exactly into its complete frames re-concatenated,
/// followed by the bytes after the last complete frame; and the parse
/// outcome is decided by those leftover bytes alone: none is a clean
/// end, one to eleven fail with `TrailingData` carrying exactly their
/// count, and a full header that declares too long a payload fails
/// with `UnexpectedEnd`.
pub proof fn lemma_parse_split(s: Seq<u8>)
    ensures
        unparse(frames_of(s)) + leftover(s) == s,
        leftover(s).len() == 0 <==> parse_end(s) is None,
        0 < leftover(s).len() < 12 <==> parse_end(s) == Some(
            Error::TrailingData(leftover(s).len() as usize),
        ),
        leftover(s).len() >= 12 <==> parse_end(s) == Some(Error::UnexpectedEnd),
    decreases s.len(),
{
    if has_frame(s) {
        let rest = frame_rest(s);
        lemma_parse_split(rest);
        assert(frames_of(s).drop_first() =~= frames_of(rest));
        assert(unparse(frames_of(s)) == frame_bytes(header_id(s), frame_payload(s)) + unparse(
            frames_of(rest),
        ));
        assert(s.subrange(0, 8).len() == 8);
        assert(s.subrange(8, 12).len() == 4);
        lemma_be_bytes_of_val(s.subrange(0, 8));
        lemma_be_bytes_of_val(s.subrange(8, 12));
        assert(frame_payload(s).len() == header_len(s));
        assert(frame_bytes(header_id(s), frame_payload(s)) + rest =~= s);
        assert(unparse(frames_of(s)) + leftover(s) =~= frame_bytes(
            header_id(s),
            frame_payload(s),
        ) + (unparse(frames_of(rest)) + leftover(rest)));
        assert(unparse(frames_of(s)) + leftover(s) =~= s);
    } else {
        assert(unparse(frames_of(s)) + leftover(s) =~= s);
    }
}

/// Trailing data: when strictly between 1 and 11 bytes follow the last
/// complete frame, the parse yields exactly the complete frames and
/// ends with `TrailingData` carrying exactly that leftover count.
pub proof fn lemma_trailing_data(fs: Seq<(nat, Seq<u8>)>, tail: Seq<u8>)
    requires
        frames_sized(fs),
        1 <= tail.len() < 12,
    ensures
        frames_of(unparse(fs) + tail) == fs,
        parse_end(unparse(fs) + tail) == Some(Error::TrailingData(tail.len() as usize)),
{
    lemma_parse_append(fs, tail);
    assert(!has_frame(tail));
    assert(fs + frames_of(tail) =~= fs);
}

/// Unexpected end: when a header declares a length longer than the
/// bytes that remain, the parse ends with `UnexpectedEnd` and yields no
/// frame beyond those before that header.
pub proof fn lemma_unexpected_end(fs: Seq<(nat, Seq<u8>)>, id: nat, len: nat, short: Seq<u8>)
    requires
        frames_sized(fs),
        id < pow256(8),
        len < pow256(4),
        short.len() < len,
    ensures
        frames_of(unparse(fs) + (be_bytes(id, 8) + be_bytes(len, 4) + short)) == fs,
        parse_end(unparse(fs) + (be_bytes(id, 8) + be_bytes(len, 4) + short)) == Some(
            Error::UnexpectedEnd,
        ),
{
    let tail = be_bytes(id, 8) + be_bytes(len, 4) + short;
    lemma_parse_append(fs, tail);
    lemma_be_bytes_len(id, 8);
    lemma_be_bytes_len(len, 4);
    assert(tail.subrange(8, 12) =~= be_bytes(len, 4));
    lemma_be_val_of_bytes(len, 4);
    assert(header_len(tail) == len);
    assert(!has_frame(tail));
    assert(tail.len() >= 12);
    assert(fs + frames_of(tail) =~= fs);
}

/// One framed record: a stream id and a payload borrowed from the
/// parser's buffer, alive only as long as that buffer.
pub struct Frame<'a> {
    pub stream_id: u64,
    pub payload: &'a [u8],
}

/// Single-pass, forward-only reader of the frame format over an
/// in-memory buffer. Each `next` first skips the payload of the frame
/// returned before, then reads one header.
pub struct FrameParser<'a> {
    buf: &'a [u8],
    pos: usize,
    last_len: usize,
}

impl<'a> FrameParser<'a> {
    /// The whole underlying buffer.
    pub closed spec fn bytes(&self) -> Seq<u8> {
        self.buf@
    }

    /// Where the next step starts, once the last frame's payload is
    /// skipped.
    pub closed spec fn cursor(&self) -> int {
        self.pos + self.last_len
    }

    /// The bytes not yet consumed.
    pub open spec fn remaining(&self) -> Seq<u8> {
        self.bytes().skip(self.cursor())
    }

    pub closed spec fn wf(&self) -> bool {
        self.pos + self.last_len <= self.buf@.len() && self.buf@.len() <= usize::MAX
    }

    /// The cursor never runs past the buffer, whose length fits a
    /// machine word.
    pub proof fn lemma_cursor_bound(&self)
        requires
            self.wf(),
        ensures
            0 <= self.cursor() <= self.bytes().len() <= usize::MAX,
    {
    }

    pub fn new(buf: &'a [u8]) -> (r: FrameParser<'a>)
        ensures
            r.wf(),
            r.bytes() == buf@,
            r.cursor() == 0,
    {
        let _n: usize = buf.len();
        FrameParser { buf, pos: 0, last_len: 0 }
    }

    /// Yields the next frame, the end of the stream, or the parse error
    /// that the remaining bytes force.
    pub fn next(&mut self) -> (r: Result<Option<Frame<'a>>, Error>)
        requires
            old(self).wf(),
        ensures
            final(self).wf(),
            final(self).bytes() == old(self).bytes(),
            ({
                let s = old(self).remaining();
                if has_frame(s) {
                    &&& r matches Ok(Some(f)) && f.stream_id == header_id(s) && f.payload@
                        == frame_payload(s)
                    &&& final(self).remaining() == frame_rest(s)
                    &&& final(self).cursor() == old(self).cursor() + 12 + header_len(s)
                } else if s.len() == 0 {
                    &&& r matches Ok(None)
                    &&& final(self).remaining() == s
                    &&& final(self).cursor() == old(self).cursor()
                } else if s.len() < 12 {
                    &&& r matches Err(e) && e == Error::TrailingData(s.len() as usize)
                    &&& final(self).remaining() == s
                    &&& final(self).cursor() == old(self).cursor()
                } else {
                    &&& r matches Err(e) && e == Error::UnexpectedEnd
                    &&& final(self).remaining() == s
                    &&& final(self).cursor() == old(self).cursor()
                }
            }),
    {
        let n = self.buf.len();
        let pos = self.pos + self.last_len;
        self.pos = pos;
        self.last_len = 0;
        let ghost s = self.buf@.skip(pos as int);
        let rem = n - pos;
        if rem == 0 {
            return Ok(None);
        }
        if rem < 12 {
            return Err(Error::TrailingData(rem));
        }
        let id = read_be(self.buf, pos, 8);
        let len64 = read_be(self.buf, pos + 8, 4);
        proof {
            assert(self.buf@.subrange(pos as int, pos + 8) =~= s.subrange(0, 8));
            assert(self.buf@.subrange(pos + 8, pos + 12) =~= s.subrange(8, 12));
            lemma_be_val_bound(s.subrange(8, 12));
            assert(pow256(4) == 0x100000000) by {
                reveal_with_fuel(pow256, 5);
            }
        }
        let len = len64 as usize;
        if len > rem - 12 {
            return Err(Error::UnexpectedEnd);
        }
        self.pos = pos + 12;
        self.last_len = len;
        let payload = vstd::slice::slice_subrange(self.buf, pos + 12, pos + 12 + len);
        proof {
            assert(payload@ =~= frame_payload(s));
            assert(self.buf@.skip(pos + 12 + len) =~= frame_rest(s));
        }
        Ok(Some(Frame { stream_id: id, payload }))
    }
}

} // verus!
