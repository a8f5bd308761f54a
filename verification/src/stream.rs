//! The transport-facing streaming session.
//!
//! The caller performs the HTTP request and hands every transport event to
//! the session: each chunk of body bytes, the elapse of the bounded
//! first-chunk wait, and the end of the body. The session decides what
//! follows — decode and emit, finish, or fail — so the two-phase timeout
//! policy and the end-of-stream rules live here, while the caller only
//! moves bytes.

use vstd::prelude::*;
use vstd::utf8::{decode_utf8, valid_utf8};
use crate::errors::StreamError;
use crate::sse::{stream_events, SseDecoder};

verus! {

/// One event from the transport loop.
pub enum TransportEvent {
    /// A chunk of response-body bytes arrived.
    Chunk(Vec<u8>),
    /// The bounded wait for the first chunk elapsed without a byte.
    TimedOut,
    /// The body ended.
    Ended,
}

/// What the caller is to do after one event.
pub enum StepOutcome {
    /// Write these deltas to the output, in order, then await the next
    /// event.
    Deltas(Vec<String>),
    /// The stream finished cleanly.
    Finished,
    /// The invocation fails with this error.
    Failed(StreamError),
}

/// The streaming session: whether data has begun flowing — the bounded
/// first-chunk wait applies only until it has — and the incremental
/// decoder.
pub struct StreamSession {
    pub started: bool,
    pub decoder: SseDecoder,
}

impl StreamSession {
    pub open spec fn wf(self) -> bool {
        self.decoder.wf()
    }

    /// The response text seen so far.
    pub open spec fn seen(self) -> Seq<char> {
        self.decoder.seen@
    }

    /// A fresh session: no data yet, so the first-chunk timeout is armed.
    pub fn new() -> (s: StreamSession)
        ensures
            s.wf(),
            !s.started,
            s.seen() == Seq::<char>::empty(),
    {
        StreamSession { started: false, decoder: SseDecoder::new() }
    }

    /// Whether the bounded first-chunk wait still applies; once data has
    /// begun flowing every later wait is unbounded.
    pub fn awaiting_first_chunk(&self) -> (r: bool)
        ensures
            r == !self.started,
    {
        !self.started
    }

    /// Drives the session by one transport event.
    ///
    /// A chunk must be valid UTF-8 — a chunk that is not fails the stream
    /// with `EncodingError` — and its decoded text is fed to the decoder,
    /// whose newly completed lines yield the deltas to emit. A timeout
    /// before any chunk fails with `FirstChunkTimeout`; after data has
    /// begun flowing no timeout is in force, so a late one is ignored. An
    /// end of body before any chunk fails with `EmptyStream`; after data it
    /// finishes the stream, discarding any unterminated tail.
    pub fn step(&mut self, ev: TransportEvent) -> (out: StepOutcome)
        requires
            old(self).wf(),
        ensures
            final(self).wf(),
            (match ev {
                TransportEvent::Chunk(b) => {
                    if valid_utf8(b@) {
                        &&& final(self).started
                        &&& final(self).seen() == old(self).seen() + decode_utf8(b@)
                        &&& out matches StepOutcome::Deltas(evs) && stream_events(
                            final(self).seen(),
                        ) == stream_events(old(self).seen()) + evs.deep_view()
                    } else {
                        &&& out matches StepOutcome::Failed(e) && e is EncodingError
                        &&& final(self).started == old(self).started
                        &&& final(self).seen() == old(self).seen()
                    }
                },
                TransportEvent::TimedOut => {
                    &&& final(self).started == old(self).started
                    &&& final(self).seen() == old(self).seen()
                    &&& (if old(self).started {
                        out matches StepOutcome::Deltas(evs) && evs.deep_view()
                            == Seq::<Seq<char>>::empty()
                    } else {
                        out matches StepOutcome::Failed(e) && e is FirstChunkTimeout
                    })
                },
                TransportEvent::Ended => {
                    &&& final(self).started == old(self).started
                    &&& final(self).seen() == old(self).seen()
                    &&& (if old(self).started {
                        out is Finished
                    } else {
                        out matches StepOutcome::Failed(e) && e is EmptyStream
                    })
                },
            }),
    {
        match ev {
            TransportEvent::Chunk(b) => {
                match crate::text::utf8_to_str(b.as_slice()) {
                    None => StepOutcome::Failed(StreamError::EncodingError),
                    Some(text) => {
                        self.started = true;
                        let evs = self.decoder.push(text);
                        StepOutcome::Deltas(evs)
                    },
                }
            },
            TransportEvent::TimedOut => {
                if self.started {
                    let evs: Vec<String> = Vec::new();
                    proof {
                        assert(evs.deep_view() =~= Seq::<Seq<char>>::empty());
                    }
                    StepOutcome::Deltas(evs)
                } else {
                    StepOutcome::Failed(StreamError::FirstChunkTimeout)
                }
            },
            TransportEvent::Ended => {
                if self.started {
                    StepOutcome::Finished
                } else {
                    StepOutcome::Failed(StreamError::EmptyStream)
                }
            },
        }
    }
}

/// Checks the HTTP status of the response before streaming: a 2xx status
/// passes; any other fails with the status code and the diagnostic body
/// text, and nothing is streamed.
pub fn check_status(code: u16, body: String) -> (r: Result<(), StreamError>)
    ensures
        (200 <= code < 300) ==> r is Ok,
        !(200 <= code < 300) ==> (r matches Err(e) && e matches StreamError::HttpStatusError {
            code: c,
            body: b,
        } && c == code && b@ == body@),
{
    if 200 <= code && code < 300 {
        Ok(())
    } else {
        Err(StreamError::HttpStatusError { code, body })
    }
}

} // verus!
