use vstd::prelude::*;

verus! {

/// Size of a frame header on the wire.
pub const FRAME_HEADER_LEN: usize = 9;

/// Type tag of a SETTINGS frame.
pub const FRAME_TYPE_SETTINGS: u8 = 4;

/// Flag of a SETTINGS frame that acknowledges the peer's settings.
pub const SETTINGS_FLAG_ACK: u8 = 1;

/// Largest payload length that the 24-bit length field can declare.
pub const MAX_FRAME_LEN: u32 = 0xff_ffff;

/// Largest stream identifier (31 bits).
pub const MAX_STREAM_ID: u32 = 0x7fff_ffff;

/// The fields of a frame header.
#[derive(Clone, Copy, Debug, PartialEq, Eq, Structural)]
pub struct FrameHeader {
    /// Declared payload length.
    pub len: u32,
    pub frame_type: u8,
    pub flags: u8,
    pub stream_id: u32,
}

impl FrameHeader {
    /// The fields fit their wire widths.
    pub open spec fn wf(&self) -> bool {
        self.len <= MAX_FRAME_LEN && self.stream_id <= MAX_STREAM_ID
    }

    /// A header of the given type and stream, with a length of 0 and no flags.
    pub fn new(frame_type: u8, stream_id: u32) -> (r: FrameHeader)
        ensures
            r == (FrameHeader { len: 0, frame_type, flags: 0, stream_id }),
    {
        FrameHeader { len: 0, frame_type, flags: 0, stream_id }
    }

    /// The same header declaring a payload of `len` bytes.
    pub fn with_len(self, len: u32) -> (r: FrameHeader)
        ensures
            r == (FrameHeader { len, ..self }),
    {
        FrameHeader { len, ..self }
    }

    /// Whether every bit of `flag` is set.
    pub fn has_flag(&self, flag: u8) -> (r: bool)
        ensures
            r == (self.flags & flag == flag),
    {
        self.flags & flag == flag
    }
}

/// The 9 wire bytes of a header: 24-bit length, type, flags, then the
/// stream identifier in 32 bits with the reserved top bit clear, all big
/// endian.
pub open spec fn header_bytes(h: FrameHeader) -> Seq<u8> {
    seq![
        (h.len / 0x1_0000) as u8,
        ((h.len / 0x100) % 0x100) as u8,
        (h.len % 0x100) as u8,
        h.frame_type,
        h.flags,
        (h.stream_id / 0x100_0000) as u8,
        ((h.stream_id / 0x1_0000) % 0x100) as u8,
        ((h.stream_id / 0x100) % 0x100) as u8,
        (h.stream_id % 0x100) as u8,
    ]
}

/// The header that the first 9 bytes of `b` hold; the reserved bit of the
/// stream identifier is ignored.
pub open spec fn header_of(b: Seq<u8>) -> FrameHeader {
    FrameHeader {
        len: (b[0] * 0x1_0000 + b[1] * 0x100 + b[2]) as u32,
        frame_type: b[3],
        flags: b[4],
        stream_id: ((b[5] % 0x80) * 0x100_0000 + b[6] * 0x1_0000 + b[7] * 0x100 + b[8]) as u32,
    }
}

/// Reads a frame header from the front of `bytes`; `None` when fewer than
/// 9 bytes are there yet.
pub fn parse_header(bytes: &[u8]) -> (r: Option<FrameHeader>)
    ensures
        r is None <==> bytes@.len() < FRAME_HEADER_LEN,
        r matches Some(h) ==> h == header_of(bytes@) && h.wf(),
{
    if bytes.len() < FRAME_HEADER_LEN {
        return None;
    }
    let b0 = bytes[0] as u32;
    let b1 = bytes[1] as u32;
    let b2 = bytes[2] as u32;
    let b5 = bytes[5] as u32;
    let b6 = bytes[6] as u32;
    let b7 = bytes[7] as u32;
    let b8 = bytes[8] as u32;
    assert(b0 * 0x1_0000 + b1 * 0x100 + b2 <= MAX_FRAME_LEN) by (nonlinear_arith)
        requires
            b0 < 0x100,
            b1 < 0x100,
            b2 < 0x100,
    ;
    assert((b5 % 0x80) * 0x100_0000 + b6 * 0x1_0000 + b7 * 0x100 + b8 <= MAX_STREAM_ID)
        by (nonlinear_arith)
        requires
            b5 % 0x80 < 0x80,
            b6 < 0x100,
            b7 < 0x100,
            b8 < 0x100,
    ;
    Some(
        FrameHeader {
            len: b0 * 0x1_0000 + b1 * 0x100 + b2,
            frame_type: bytes[3],
            flags: bytes[4],
            stream_id: (b5 % 0x80) * 0x100_0000 + b6 * 0x1_0000 + b7 * 0x100 + b8,
        },
    )
}

/// Writes the 9 wire bytes of a header.
pub fn encode_header(h: &FrameHeader) -> (r: Vec<u8>)
    requires
        h.wf(),
    ensures
        r@ == header_bytes(*h),
{
    let v = vec![
        (h.len / 0x1_0000) as u8,
        ((h.len / 0x100) % 0x100) as u8,
        (h.len % 0x100) as u8,
        h.frame_type,
        h.flags,
        (h.stream_id / 0x100_0000) as u8,
        ((h.stream_id / 0x1_0000) % 0x100) as u8,
        ((h.stream_id / 0x100) % 0x100) as u8,
        (h.stream_id % 0x100) as u8,
    ];
    assert(v@ =~= header_bytes(*h));
    v
}

/// Reading back the bytes of a header gives the same header.
pub proof fn lemma_header_round_trip(h: FrameHeader)
    requires
        h.wf(),
    ensures
        header_bytes(h).len() == FRAME_HEADER_LEN,
        header_of(header_bytes(h)) == h,
{
    let b = header_bytes(h);
    let l = h.len as int;
    let s = h.stream_id as int;
    assert(l / 0x1_0000 < 0x100);
    assert(s / 0x100_0000 < 0x80);
    assert((l / 0x1_0000) * 0x1_0000 + ((l / 0x100) % 0x100) * 0x100 + l % 0x100 == l)
        by (nonlinear_arith)
        requires
            0 <= l,
    ;
    assert((s / 0x100_0000) * 0x100_0000 + ((s / 0x1_0000) % 0x100) * 0x1_0000 + ((s / 0x100)
        % 0x100) * 0x100 + s % 0x100 == s) by (nonlinear_arith)
        requires
            0 <= s,
    ;
    assert(b[0] == l / 0x1_0000);
    assert(b[5] == s / 0x100_0000);
    assert(b[5] % 0x80 == b[5]);
}

/// The two buffers that carry one frame: its header, with the length
/// field set from the payload, then the payload.
pub fn frame_bufs(frame: FrameHeader, payload: Vec<u8>) -> (r: Vec<Vec<u8>>)
    requires
        payload@.len() <= MAX_FRAME_LEN,
        frame.stream_id <= MAX_STREAM_ID,
    ensures
        r@.len() == 2,
        r@[0]@ == header_bytes(FrameHeader { len: payload@.len() as u32, ..frame }),
        r@[1]@ == payload@,
{
    let frame = frame.with_len(payload.len() as u32);
    let header = encode_header(&frame);
    let mut out: Vec<Vec<u8>> = Vec::new();
    out.push(header);
    out.push(payload);
    out
}

} // verus!
