use vstd::prelude::*;

use crate::frame::{
    frame_bufs, header_bytes, header_of, lemma_header_round_trip, parse_header, FrameHeader, FRAME_HEADER_LEN,
    FRAME_TYPE_SETTINGS, SETTINGS_FLAG_ACK,
};

verus! {

/// Largest number of bytes that one read of the transport asks for.
pub const READ_CHUNK: usize = 16384;

/// What the read side of a connection hands to its owner.
pub enum Ev<E> {
    Frame { frame: FrameHeader, payload: Vec<u8> },
    IoError { error: E },
    Eof,
}

/// The peer broke the framing: it hung up in the middle of a frame.
#[derive(Clone, Copy, Debug, PartialEq, Eq, Structural)]
pub enum Violation {
    /// End of stream with part of a frame header buffered.
    IncompleteHeader,
    /// End of stream after a full header, with part of its payload buffered.
    IncompletePayload,
}

/// What the read loop does next.
pub enum ReadStep {
    /// Read up to `READ_CHUNK` more bytes and hand the result to `on_read`.
    Read,
    /// Hand this frame to the owner.
    Frame { frame: FrameHeader, payload: Vec<u8> },
    /// Stop and close the queue: clean end of stream.
    Close,
    /// Stop: the peer broke the framing.
    Fatal(Violation),
}

/// The read step without its buffers: what a step is, in terms of values.
pub enum StepSpec {
    Read,
    Frame(FrameHeader, Seq<u8>),
    Close,
    Fatal(Violation),
}

impl ReadStep {
    pub open spec fn view(&self) -> StepSpec {
        match self {
            ReadStep::Read => StepSpec::Read,
            ReadStep::Frame { frame, payload } => StepSpec::Frame(*frame, payload@),
            ReadStep::Close => StepSpec::Close,
            ReadStep::Fatal(v) => StepSpec::Fatal(*v),
        }
    }
}

/// The state of the read loop, in terms of values.
pub struct ReaderState {
    /// Bytes read and not yet taken into a header or a payload.
    pub buf: Seq<u8>,
    /// The transport reported the end of the stream.
    pub eof: bool,
    /// A header whose payload is still being buffered.
    pub pending: Option<FrameHeader>,
    /// The loop has ended.
    pub closed: bool,
}

/// One step of the read loop, from a state to the next one. A header is
/// taken as soon as 9 bytes are buffered, and its payload as soon as
/// enough bytes follow it; only when neither can be taken does the loop
/// read, and at end of stream it closes cleanly with nothing buffered and
/// fails with anything buffered.
pub open spec fn poll_spec(s: ReaderState) -> (ReaderState, StepSpec) {
    if s.closed {
        (s, StepSpec::Close)
    } else {
        let (t, hdr_ok) = if s.pending is None && s.buf.len() >= FRAME_HEADER_LEN {
            (
                ReaderState {
                    buf: s.buf.subrange(FRAME_HEADER_LEN as int, s.buf.len() as int),
                    pending: Some(header_of(s.buf)),
                    ..s
                },
                true,
            )
        } else {
            (s, s.pending is Some)
        };
        if !hdr_ok {
            if !s.eof {
                (s, StepSpec::Read)
            } else if s.buf.len() == 0 {
                (ReaderState { closed: true, ..s }, StepSpec::Close)
            } else {
                (ReaderState { closed: true, ..s }, StepSpec::Fatal(Violation::IncompleteHeader))
            }
        } else {
            let h = t.pending->Some_0;
            if t.buf.len() >= h.len {
                (
                    ReaderState {
                        buf: t.buf.subrange(h.len as int, t.buf.len() as int),
                        pending: None,
                        ..t
                    },
                    StepSpec::Frame(h, t.buf.subrange(0, h.len as int)),
                )
            } else if !t.eof {
                (t, StepSpec::Read)
            } else {
                (ReaderState { closed: true, ..t }, StepSpec::Fatal(Violation::IncompletePayload))
            }
        }
    }
}

/// A frame written as its header bytes followed by its payload is read
/// back as that same frame, from any buffered state with nothing pending;
/// when the stream ends there, the loop then closes cleanly.
pub proof fn lemma_reader_reads_back_frame(h: FrameHeader, payload: Seq<u8>, eof: bool)
    requires
        h.wf(),
        payload.len() == h.len,
    ensures
        ({
            let s = ReaderState {
                buf: header_bytes(h) + payload,
                eof,
                pending: None,
                closed: false,
            };
            let (t, step) = poll_spec(s);
            &&& step == StepSpec::Frame(h, payload)
            &&& t == (ReaderState { buf: Seq::empty(), eof, pending: None, closed: false })
            &&& eof ==> poll_spec(t).1 == StepSpec::Close
        }),
{
    lemma_header_round_trip(h);
    let b = header_bytes(h) + payload;
    assert(header_of(b) == header_of(header_bytes(h)));
    assert(b.subrange(FRAME_HEADER_LEN as int, b.len() as int) =~= payload);
    assert(payload.subrange(0, h.len as int) =~= payload);
    assert(payload.subrange(h.len as int, payload.len() as int) =~= Seq::<u8>::empty());
}

/// A stream that ends after a full header and part of its payload ends
/// the loop with a violation, and no frame is handed out.
pub proof fn lemma_reader_partial_payload_fatal(h: FrameHeader, partial: Seq<u8>)
    requires
        h.wf(),
        partial.len() < h.len,
    ensures
        poll_spec(
            ReaderState { buf: header_bytes(h) + partial, eof: true, pending: None, closed: false },
        ).1 == StepSpec::Fatal(Violation::IncompletePayload),
{
    lemma_header_round_trip(h);
    let b = header_bytes(h) + partial;
    assert(header_of(b) == header_of(header_bytes(h)));
    assert(b.subrange(FRAME_HEADER_LEN as int, b.len() as int) =~= partial);
}

/// The background frame-reading loop of a connection, without its I/O:
/// it says when to read, and cuts what was read into frames.
pub struct FrameReader {
    buf: Vec<u8>,
    eof: bool,
    pending: Option<FrameHeader>,
    closed: bool,
    /// Every byte read so far.
    received: Ghost<Seq<u8>>,
    /// The bytes taken out of the buffer into headers and payloads.
    taken: Ghost<Seq<u8>>,
}

impl FrameReader {
    pub closed spec fn view(&self) -> ReaderState {
        ReaderState { buf: self.buf@, eof: self.eof, pending: self.pending, closed: self.closed }
    }

    /// Every byte read so far.
    pub closed spec fn received(&self) -> Seq<u8> {
        self.received@
    }

    /// The bytes of the stream that went into headers and payloads.
    pub closed spec fn taken(&self) -> Seq<u8> {
        self.taken@
    }

    /// No byte is lost or repeated: the stream read so far is what went
    /// into headers and payloads, followed by what is still buffered.
    pub closed spec fn wf(&self) -> bool {
        self.received@ == self.taken@ + self.buf@
    }

    /// A loop with nothing read yet.
    pub fn new() -> (r: FrameReader)
        ensures
            r.wf(),
            r@ == (ReaderState { buf: Seq::empty(), eof: false, pending: None, closed: false }),
            r.received() == Seq::<u8>::empty(),
            r.taken() == Seq::<u8>::empty(),
    {
        let r = FrameReader {
            buf: Vec::new(),
            eof: false,
            pending: None,
            closed: false,
            received: Ghost(Seq::empty()),
            taken: Ghost(Seq::empty()),
        };
        assert(r.received@ =~= r.taken@ + r.buf@);
        r
    }

    /// Decides the next step, and takes a header or a frame out of the
    /// buffer where the step says so.
    pub fn poll(&mut self) -> (r: ReadStep)
        requires
            old(self).wf(),
        ensures
            final(self).wf(),
            final(self).received() == old(self).received(),
            (final(self)@, r@) == poll_spec(old(self)@),
            r@ matches StepSpec::Frame(h, p) ==> p.len() == h.len,
    {
        if self.closed {
            return ReadStep::Close;
        }
        if self.pending.is_none() {
            match parse_header(self.buf.as_slice()) {
                Some(h) => {
                    let ghost head = self.buf@.subrange(0, FRAME_HEADER_LEN as int);
                    let rest = self.buf.split_off(FRAME_HEADER_LEN);
                    proof {
                        assert(self.buf@ =~= head);
                        self.taken@ = self.taken@ + head;
                        assert(self.received@ =~= self.taken@ + rest@);
                    }
                    self.buf = rest;
                    self.pending = Some(h);
                },
                None => {
                    if !self.eof {
                        return ReadStep::Read;
                    }
                    self.closed = true;
                    if self.buf.len() == 0 {
                        return ReadStep::Close;
                    } else {
                        return ReadStep::Fatal(Violation::IncompleteHeader);
                    }
                },
            }
        }
        let h = match self.pending {
            Some(h) => h,
            None => {
                return ReadStep::Read;
            },
        };
        let frame_len = h.len as usize;
        if self.buf.len() >= frame_len {
            let mut payload = self.buf.split_off(frame_len);
            core::mem::swap(&mut payload, &mut self.buf);
            proof {
                self.taken@ = self.taken@ + payload@;
                assert(self.received@ =~= self.taken@ + self.buf@);
            }
            self.pending = None;
            ReadStep::Frame { frame: h, payload }
        } else if !self.eof {
            ReadStep::Read
        } else {
            self.closed = true;
            ReadStep::Fatal(Violation::IncompletePayload)
        }
    }

    /// Takes in what a read of the transport returned: bytes are buffered,
    /// an empty read marks the end of the stream, and a failure ends the
    /// loop with an error event for the owner.
    pub fn on_read<E>(&mut self, res: Result<Vec<u8>, E>) -> (r: Option<Ev<E>>)
        requires
            old(self).wf(),
        ensures
            final(self).wf(),
            final(self).taken() == old(self).taken(),
            match res {
                Ok(bytes) => r is None && final(self).received() == old(self).received() + bytes@
                    && final(self)@ == (ReaderState {
                    buf: old(self)@.buf + bytes@,
                    eof: old(self)@.eof || bytes@.len() == 0,
                    ..old(self)@
                }),
                Err(e) => r == Some(Ev::<E>::IoError { error: e }) && final(self).received()
                    == old(self).received() && final(self)@ == (ReaderState {
                    closed: true,
                    ..old(self)@
                }),
            },
    {
        match res {
            Ok(bytes) => {
                let mut bytes = bytes;
                if bytes.len() == 0 {
                    self.eof = true;
                }
                let ghost added = bytes@;
                proof {
                    self.received@ = self.received@ + added;
                }
                self.buf.append(&mut bytes);
                assert(self.received@ =~= self.taken@ + self.buf@);
                None
            },
            Err(e) => {
                self.closed = true;
                Some(Ev::IoError { error: e })
            },
        }
    }

    /// Whether the loop has ended.
    pub fn is_closed(&self) -> (r: bool)
        ensures
            r == self@.closed,
    {
        self.closed
    }
}

/// The 24 bytes that open a client connection: "PRI * HTTP/2.0\r\n\r\nSM\r\n\r\n".
pub open spec fn preface_spec() -> Seq<u8> {
    seq![
        0x50u8, 0x52, 0x49, 0x20, 0x2a, 0x20, 0x48, 0x54, 0x54, 0x50, 0x2f, 0x32,
        0x2e, 0x30, 0x0d, 0x0a, 0x0d, 0x0a, 0x53, 0x4d, 0x0d, 0x0a, 0x0d, 0x0a,
    ]
}

/// The client connection preface.
pub fn client_preface() -> (r: Vec<u8>)
    ensures
        r@ == preface_spec(),
{
    let v: Vec<u8> = vec![
        0x50u8, 0x52, 0x49, 0x20, 0x2a, 0x20, 0x48, 0x54, 0x54, 0x50, 0x2f, 0x32,
        0x2e, 0x30, 0x0d, 0x0a, 0x0d, 0x0a, 0x53, 0x4d, 0x0d, 0x0a, 0x0d, 0x0a,
    ];
    assert(v@ =~= preface_spec());
    v
}

/// The header of a SETTINGS frame on the connection's stream 0 with the
/// given flags and no payload.
pub open spec fn settings_header(flags: u8) -> FrameHeader {
    FrameHeader { len: 0, frame_type: FRAME_TYPE_SETTINGS, flags, stream_id: 0 }
}

/// The buffers of a SETTINGS frame that keeps every parameter at its
/// default: its header, then an empty payload.
pub fn settings_frame() -> (r: Vec<Vec<u8>>)
    ensures
        r@.len() == 2,
        r@[0]@ == header_bytes(settings_header(0)),
        r@[1]@ == Seq::<u8>::empty(),
{
    frame_bufs(FrameHeader::new(FRAME_TYPE_SETTINGS, 0), Vec::new())
}

/// The buffers of a SETTINGS frame that acknowledges the peer's settings:
/// ACK flag set, empty payload.
pub fn settings_ack_frame() -> (r: Vec<Vec<u8>>)
    ensures
        r@.len() == 2,
        r@[0]@ == header_bytes(settings_header(SETTINGS_FLAG_ACK)),
        r@[1]@ == Seq::<u8>::empty(),
{
    let h = FrameHeader { len: 0, frame_type: FRAME_TYPE_SETTINGS, flags: SETTINGS_FLAG_ACK, stream_id: 0 };
    frame_bufs(h, Vec::new())
}

/// How a handshake failed: the first thing the peer sent was not its
/// SETTINGS frame.
pub enum HandshakeError<E> {
    /// The queue closed, or the stream ended, before any frame came.
    HungUp,
    /// The transport failed.
    Io(E),
    /// The peer's first frame was a SETTINGS acknowledgement.
    AckedSettings,
    /// The peer's first frame was of another type.
    NotSettings(FrameHeader),
}

/// What the client writes in answer to the first event of a handshake
/// (`None` when the queue closed): a SETTINGS frame without ACK is
/// acknowledged; anything else fails the handshake.
pub fn handshake_reply<E>(ev: Option<Ev<E>>) -> (r: Result<Vec<Vec<u8>>, HandshakeError<E>>)
    ensures
        match ev {
            Some(Ev::Frame { frame, payload: _ }) => if frame.frame_type != FRAME_TYPE_SETTINGS {
                r == Err::<Vec<Vec<u8>>, HandshakeError<E>>(HandshakeError::NotSettings(frame))
            } else if frame.flags & SETTINGS_FLAG_ACK == SETTINGS_FLAG_ACK {
                r == Err::<Vec<Vec<u8>>, HandshakeError<E>>(HandshakeError::AckedSettings)
            } else {
                r matches Ok(bufs) && bufs@.len() == 2 && bufs@[0]@ == header_bytes(
                    settings_header(SETTINGS_FLAG_ACK),
                ) && bufs@[1]@ == Seq::<u8>::empty()
            },
            Some(Ev::IoError { error }) => r == Err::<Vec<Vec<u8>>, HandshakeError<E>>(
                HandshakeError::Io(error),
            ),
            Some(Ev::Eof) => r == Err::<Vec<Vec<u8>>, HandshakeError<E>>(HandshakeError::HungUp),
            None => r == Err::<Vec<Vec<u8>>, HandshakeError<E>>(HandshakeError::HungUp),
        },
{
    match ev {
        None => Err(HandshakeError::HungUp),
        Some(Ev::Eof) => Err(HandshakeError::HungUp),
        Some(Ev::IoError { error }) => Err(HandshakeError::Io(error)),
        Some(Ev::Frame { frame, payload: _ }) => {
            if frame.frame_type != FRAME_TYPE_SETTINGS {
                Err(HandshakeError::NotSettings(frame))
            } else if frame.has_flag(SETTINGS_FLAG_ACK) {
                Err(HandshakeError::AckedSettings)
            } else {
                Ok(settings_ack_frame())
            }
        },
    }
}

} // verus!
