use vstd::prelude::*;
use crate::error::Error;
use crate::frame::{frame_payload, frame_rest, has_frame, header_id, FrameParser};

verus! {

/// One decoded header field, as the codec reports it.
pub struct HeaderField {
    pub name: Vec<u8>,
    pub value: Vec<u8>,
}

/// What the driver asks its caller to do next. The codec itself is an
/// external collaborator: the caller performs the requested call and
/// reports its outcome back.
pub enum Poll<'a> {
    /// Feed these bytes to the codec as encoder-stream instructions,
    /// then report the outcome through `control_applied`.
    ApplyControl(&'a [u8]),
    /// Have the codec decode these bytes as one header block against
    /// its current table state, then report through `block_decoded`.
    DecodeData(&'a [u8]),
    /// The pass over this file is over; take the outcome with
    /// `into_result`.
    Finished,
}

/// Which call the driver awaits.
pub enum Phase {
    /// Ready to pull the next frame with `poll`.
    Pulling,
    /// A control frame's bytes are with the codec; awaiting
    /// `control_applied`.
    AwaitControl,
    /// A data frame's bytes are with the codec; awaiting
    /// `block_decoded`.
    AwaitData,
    /// The pass is over.
    Done,
}

/// Sequences one encoded file's frames through a codec: control frames
/// (stream id 0) feed the codec's table state, data frames must arrive
/// with ids 1, 2, 3, ... and each decodes to one header-field list. A
/// data frame whose id is out of order stops the pass silently with
/// what was accumulated; a parse error or a codec failure stops it
/// with that error.
pub struct DecodeDriver<'a> {
    parser: FrameParser<'a>,
    count: u64,
    results: Vec<Vec<HeaderField>>,
    phase: Phase,
    err: Option<Error>,
}

impl<'a> DecodeDriver<'a> {
    /// The whole buffer this pass reads.
    pub closed spec fn bytes(&self) -> Seq<u8> {
        self.parser.bytes()
    }

    /// The bytes not yet consumed.
    pub closed spec fn remaining(&self) -> Seq<u8> {
        self.parser.remaining()
    }

    /// The header-field lists decoded so far, in stream-id order.
    pub closed spec fn results(&self) -> Seq<Vec<HeaderField>> {
        self.results@
    }

    /// How many data frames were decoded so far; the next expected
    /// stream id is one more.
    pub closed spec fn count(&self) -> u64 {
        self.count
    }

    pub closed spec fn phase(&self) -> Phase {
        self.phase
    }

    /// The failure recorded for this pass, if any; meaningful once the
    /// phase is `Done`.
    pub closed spec fn failure(&self) -> Option<Error> {
        self.err
    }

    pub closed spec fn inv(&self) -> bool {
        &&& self.parser.wf()
        &&& self.count as int == self.results@.len()
        &&& 12 * (self.count as int) <= self.parser.cursor()
        &&& (self.phase is AwaitData ==> 12 * (self.count as int) + 12 <= self.parser.cursor())
    }

    pub fn new(buf: &'a [u8]) -> (r: DecodeDriver<'a>)
        ensures
            r.inv(),
            r.phase() is Pulling,
            r.bytes() == buf@,
            r.remaining() == buf@,
            r.results() == Seq::<Vec<HeaderField>>::empty(),
            r.count() == 0,
    {
        let parser = FrameParser::new(buf);
        proof {
            assert(buf@.skip(0) =~= buf@);
        }
        let r = DecodeDriver { parser, count: 0, results: Vec::new(), phase: Phase::Pulling, err: None };
        proof {
            assert(r.results@ =~= Seq::<Vec<HeaderField>>::empty());
        }
        r
    }

    /// Pulls the next frame and says what to do with it. With a
    /// control frame it hands out the payload for the codec's
    /// "apply encoder instruction"; with the data frame whose id is
    /// exactly `count + 1` it hands out the payload for "decode one
    /// header block"; with a data frame out of order it finishes
    /// silently with what was accumulated; at the end of the bytes it
    /// finishes cleanly; on a malformed stream it finishes with the
    /// parse error.
    pub fn poll(&mut self) -> (r: Poll<'a>)
        requires
            old(self).inv(),
            old(self).phase() is Pulling,
        ensures
            final(self).inv(),
            final(self).bytes() == old(self).bytes(),
            final(self).results() == old(self).results(),
            final(self).count() == old(self).count(),
            ({
                let s = old(self).remaining();
                if has_frame(s) {
                    &&& final(self).remaining() == frame_rest(s)
                    &&& if header_id(s) == 0 {
                        &&& r matches Poll::ApplyControl(p) && p@ == frame_payload(s)
                        &&& final(self).phase() is AwaitControl
                    } else if header_id(s) == old(self).count() + 1 {
                        &&& r matches Poll::DecodeData(p) && p@ == frame_payload(s)
                        &&& final(self).phase() is AwaitData
                    } else {
                        &&& r matches Poll::Finished
                        &&& final(self).phase() is Done
                        &&& final(self).failure() is None
                    }
                } else {
                    &&& final(self).remaining() == s
                    &&& r matches Poll::Finished
                    &&& final(self).phase() is Done
                    &&& if s.len() == 0 {
                        final(self).failure() is None
                    } else if s.len() < 12 {
                        final(self).failure() == Some(Error::TrailingData(s.len() as usize))
                    } else {
                        final(self).failure() == Some(Error::UnexpectedEnd)
                    }
                }
            }),
    {
        match self.phase {
            Phase::Pulling => {},
            _ => {
                // Unreachable under this function's contract; keeps an
                // unverified caller from clobbering a finished pass.
                return Poll::Finished;
            },
        }
        proof {
            self.parser.lemma_cursor_bound();
        }
        match self.parser.next() {
            Err(e) => {
                self.phase = Phase::Done;
                self.err = Some(e);
                Poll::Finished
            },
            Ok(None) => {
                self.phase = Phase::Done;
                self.err = None;
                Poll::Finished
            },
            Ok(Some(frame)) => {
                if frame.stream_id == 0 {
                    self.phase = Phase::AwaitControl;
                    Poll::ApplyControl(frame.payload)
                } else if frame.stream_id == self.count + 1 {
                    self.phase = Phase::AwaitData;
                    Poll::DecodeData(frame.payload)
                } else {
                    self.phase = Phase::Done;
                    self.err = None;
                    Poll::Finished
                }
            },
        }
    }

    /// Records the codec's outcome for the control frame handed out
    /// last: on success the pass goes on; a rejected instruction ends
    /// it with a codec failure.
    pub fn control_applied(&mut self, ok: bool)
        requires
            old(self).inv(),
            old(self).phase() is AwaitControl,
        ensures
            final(self).inv(),
            final(self).bytes() == old(self).bytes(),
            final(self).remaining() == old(self).remaining(),
            final(self).results() == old(self).results(),
            final(self).count() == old(self).count(),
            ok ==> final(self).phase() is Pulling,
            !ok ==> final(self).phase() is Done && final(self).failure() == Some(Error::Codec),
    {
        if ok {
            self.phase = Phase::Pulling;
        } else {
            self.phase = Phase::Done;
            self.err = Some(Error::Codec);
        }
    }

    /// Records the codec's outcome for the data frame handed out last:
    /// a decoded header-field list is appended to the results and the
    /// expected stream id moves on; a rejected header block ends the
    /// pass with a codec failure.
    pub fn block_decoded(&mut self, outcome: Option<Vec<HeaderField>>)
        requires
            old(self).inv(),
            old(self).phase() is AwaitData,
        ensures
            final(self).inv(),
            final(self).bytes() == old(self).bytes(),
            final(self).remaining() == old(self).remaining(),
            ({
                match outcome {
                    Some(fields) => {
                        &&& final(self).results() == old(self).results().push(fields)
                        &&& final(self).count() == old(self).count() + 1
                        &&& final(self).phase() is Pulling
                    },
                    None => {
                        &&& final(self).results() == old(self).results()
                        &&& final(self).count() == old(self).count()
                        &&& final(self).phase() is Done
                        &&& final(self).failure() == Some(Error::Codec)
                    },
                }
            }),
    {
        proof {
            self.parser.lemma_cursor_bound();
        }
        match outcome {
            Some(fields) => {
                self.results.push(fields);
                self.count = self.count + 1;
                self.phase = Phase::Pulling;
            },
            None => {
                self.phase = Phase::Done;
                self.err = Some(Error::Codec);
            },
        }
    }

    /// The pass's outcome: the accumulated header-field lists, or the
    /// failure that ended it.
    pub fn into_result(self) -> (r: Result<Vec<Vec<HeaderField>>, Error>)
        requires
            self.inv(),
            self.phase() is Done,
        ensures
            match self.failure() {
                None => r matches Ok(v) && v@ == self.results(),
                Some(e) => r matches Err(e2) && e2 == e,
            },
    {
        match self.err {
            None => Ok(self.results),
            Some(e) => Err(e),
        }
    }
}

} // verus!
