//! The WebSocket frame codec: stateless decoding and encoding of a single
//! frame to and from a byte buffer, including the three-tier payload-length
//! encoding and the client-side XOR masking.

use vstd::prelude::*;

verus! {

/// The 4-bit frame type tag of the WebSocket wire format.
#[derive(Clone, Copy, Debug, PartialEq, Eq, Structural)]
pub enum OpCode {
    TextFrame,
    BinaryFrame,
    ConnectionClose,
    Ping,
    Pong,
}

/// Why a byte buffer could not be decoded into a frame.
///
/// `Truncated` means "need more bytes, retry later"; `InvalidOpcode` is a
/// protocol violation and fatal for the frame.
#[derive(Clone, Copy, Debug, PartialEq, Eq, Structural)]
pub enum DecodeError {
    Truncated,
    InvalidOpcode(u8),
}

/// The wire value of an opcode tag.
pub open spec fn opcode_value(op: OpCode) -> u8 {
    match op {
        OpCode::TextFrame => 1,
        OpCode::BinaryFrame => 2,
        OpCode::ConnectionClose => 8,
        OpCode::Ping => 9,
        OpCode::Pong => 10,
    }
}

/// The opcode tag a wire value stands for, if any.
pub open spec fn opcode_of(op: u8) -> Option<OpCode> {
    if op == 1 {
        Some(OpCode::TextFrame)
    } else if op == 2 {
        Some(OpCode::BinaryFrame)
    } else if op == 8 {
        Some(OpCode::ConnectionClose)
    } else if op == 9 {
        Some(OpCode::Ping)
    } else if op == 10 {
        Some(OpCode::Pong)
    } else {
        None
    }
}

impl OpCode {
    /// Map a raw 4-bit wire value to its opcode tag.
    pub fn from(op: u8) -> (r: Option<OpCode>)
        ensures
            r == opcode_of(op),
    {
        if op == 1 {
            Some(OpCode::TextFrame)
        } else if op == 2 {
            Some(OpCode::BinaryFrame)
        } else if op == 8 {
            Some(OpCode::ConnectionClose)
        } else if op == 9 {
            Some(OpCode::Ping)
        } else if op == 10 {
            Some(OpCode::Pong)
        } else {
            None
        }
    }
}

/// The fixed two-byte base header of a frame.  `payload_length` is the raw
/// 7-bit length field (126 and 127 are the extended-length sentinels), not
/// the logical payload length.
#[derive(Clone, Copy, Debug, PartialEq, Eq, Structural)]
pub struct WebSocketFrameHeader {
    pub fin: bool,
    pub rsv1: bool,
    pub rsv2: bool,
    pub rsv3: bool,
    pub masked: bool,
    pub opcode: OpCode,
    pub payload_length: u8,
}

pub open spec fn bit(b: bool) -> u8 {
    if b {
        1
    } else {
        0
    }
}

/// First header byte: fin/rsv bits and the opcode.
pub open spec fn byte0_of(h: WebSocketFrameHeader) -> u8 {
    (bit(h.fin) << 7) | (bit(h.rsv1) << 6) | (bit(h.rsv2) << 5) | (bit(h.rsv3) << 4)
        | opcode_value(h.opcode)
}

/// Second header byte: mask bit and the 7-bit length field.
pub open spec fn byte1_of(h: WebSocketFrameHeader) -> u8 {
    (bit(h.masked) << 7) | h.payload_length
}

pub open spec fn u16_from_be(b0: u8, b1: u8) -> u16 {
    ((b0 as u16) << 8) | (b1 as u16)
}

/// Both header bytes packed big-endian into one word.
pub open spec fn header_word(h: WebSocketFrameHeader) -> u16 {
    u16_from_be(byte0_of(h), byte1_of(h))
}

/// What parsing a packed header word yields.
pub open spec fn parse_header_spec(buf: u16) -> Result<WebSocketFrameHeader, DecodeError> {
    let b0 = (buf >> 8) as u8;
    let b1 = buf as u8;
    match opcode_of(b0 & 0x0F) {
        Some(op) => Ok(
            WebSocketFrameHeader {
                fin: (b0 >> 7) & 1 == 1,
                rsv1: (b0 >> 6) & 1 == 1,
                rsv2: (b0 >> 5) & 1 == 1,
                rsv3: (b0 >> 4) & 1 == 1,
                opcode: op,
                masked: (b1 >> 7) & 1 == 1,
                payload_length: b1 & 0x7F,
            },
        ),
        None => Err(DecodeError::InvalidOpcode(b0 & 0x0F)),
    }
}

impl WebSocketFrameHeader {
    /// The length field never overlaps the mask bit.
    pub open spec fn wf(self) -> bool {
        self.payload_length < 128
    }

    /// Pick the 7-bit length field for a payload of `len` bytes: the literal
    /// length below 126, the 16-bit sentinel up to 65535, the 64-bit sentinel
    /// beyond.
    pub fn determine_length(len: usize) -> (r: u8)
        ensures
            r == determine_length_spec(len as nat),
    {
        if len < 126 {
            len as u8
        } else if len <= 65535 {
            126
        } else {
            127
        }
    }

    /// A fresh unmasked final-fragment header for a payload of `len` bytes.
    pub fn new_header(len: usize, opcode: OpCode) -> (h: WebSocketFrameHeader)
        ensures
            h == (WebSocketFrameHeader {
                fin: true,
                rsv1: false,
                rsv2: false,
                rsv3: false,
                masked: false,
                opcode: opcode,
                payload_length: determine_length_spec(len as nat),
            }),
            h.wf(),
    {
        WebSocketFrameHeader {
            fin: true,
            rsv1: false,
            rsv2: false,
            rsv3: false,
            masked: false,
            opcode: opcode,
            payload_length: Self::determine_length(len),
        }
    }
}

pub open spec fn determine_length_spec(len: nat) -> u8 {
    if len < 126 {
        len as u8
    } else if len <= 65535 {
        126
    } else {
        127
    }
}

proof fn lemma_bit_shifts(x: u8)
    requires
        x <= 1,
    ensures
        x << 7 == (if x == 1 {
            0x80u8
        } else {
            0u8
        }),
        x << 6 == (if x == 1 {
            0x40u8
        } else {
            0u8
        }),
        x << 5 == (if x == 1 {
            0x20u8
        } else {
            0u8
        }),
        x << 4 == (if x == 1 {
            0x10u8
        } else {
            0u8
        }),
{
    assert(x <= 1 ==> x << 7 == (if x == 1 {
        0x80u8
    } else {
        0u8
    }) && x << 6 == (if x == 1 {
        0x40u8
    } else {
        0u8
    }) && x << 5 == (if x == 1 {
        0x20u8
    } else {
        0u8
    }) && x << 4 == (if x == 1 {
        0x10u8
    } else {
        0u8
    })) by (bit_vector);
}

proof fn lemma_low7_id(l: u8)
    requires
        l < 128,
    ensures
        l & 0x7F == l,
{
    assert(l < 128 ==> l & 0x7F == l) by (bit_vector);
}

proof fn lemma_u16_split(x: u8, y: u8)
    ensures
        ((((x as u16) << 8) | (y as u16)) >> 8) as u8 == x,
        ((((x as u16) << 8) | (y as u16)) as u8) == y,
{
    assert(((((x as u16) << 8) | (y as u16)) >> 8) as u8 == x) by (bit_vector);
    assert(((((x as u16) << 8) | (y as u16)) as u8) == y) by (bit_vector);
}

proof fn lemma_byte0_fields(f: u8, r1: u8, r2: u8, r3: u8, v: u8)
    requires
        f <= 1,
        r1 <= 1,
        r2 <= 1,
        r3 <= 1,
        v < 16,
    ensures
        (((f << 7) | (r1 << 6) | (r2 << 5) | (r3 << 4) | v) >> 7) & 1 == f,
        (((f << 7) | (r1 << 6) | (r2 << 5) | (r3 << 4) | v) >> 6) & 1 == r1,
        (((f << 7) | (r1 << 6) | (r2 << 5) | (r3 << 4) | v) >> 5) & 1 == r2,
        (((f << 7) | (r1 << 6) | (r2 << 5) | (r3 << 4) | v) >> 4) & 1 == r3,
        ((f << 7) | (r1 << 6) | (r2 << 5) | (r3 << 4) | v) & 0x0F == v,
{
    assert((((f << 7) | (r1 << 6) | (r2 << 5) | (r3 << 4) | v) >> 7) & 1 == f
        && (((f << 7) | (r1 << 6) | (r2 << 5) | (r3 << 4) | v) >> 6) & 1 == r1
        && (((f << 7) | (r1 << 6) | (r2 << 5) | (r3 << 4) | v) >> 5) & 1 == r2
        && (((f << 7) | (r1 << 6) | (r2 << 5) | (r3 << 4) | v) >> 4) & 1 == r3
        && ((f << 7) | (r1 << 6) | (r2 << 5) | (r3 << 4) | v) & 0x0F == v) by (bit_vector)
        requires
            f <= 1 && r1 <= 1 && r2 <= 1 && r3 <= 1 && v < 16,
    ;
}

proof fn lemma_byte1_fields(m: u8, l: u8)
    requires
        m <= 1,
        l < 128,
    ensures
        (((m << 7) | l) >> 7) & 1 == m,
        ((m << 7) | l) & 0x7F == l,
{
    assert(((((m << 7) | l) >> 7) & 1 == m) && (((m << 7) | l) & 0x7F == l)) by (bit_vector)
        requires
            m <= 1 && l < 128,
    ;
}

pub open spec fn u64_from_be(s: Seq<u8>) -> u64 {
    ((s[0] as u64) << 56) | ((s[1] as u64) << 48) | ((s[2] as u64) << 40) | ((s[3] as u64) << 32)
        | ((s[4] as u64) << 24) | ((s[5] as u64) << 16) | ((s[6] as u64) << 8) | (s[7] as u64)
}

pub open spec fn u16_be_bytes(v: u16) -> Seq<u8> {
    seq![(v >> 8) as u8, v as u8]
}

pub open spec fn u64_be_bytes(v: u64) -> Seq<u8> {
    seq![
        (v >> 56) as u8,
        (v >> 48) as u8,
        (v >> 40) as u8,
        (v >> 32) as u8,
        (v >> 24) as u8,
        (v >> 16) as u8,
        (v >> 8) as u8,
        v as u8,
    ]
}

/// How many extended-length bytes follow the base header for a given
/// 7-bit length field.
pub open spec fn ext_len_size(lf: u8) -> nat {
    if lf < 126 {
        0
    } else if lf == 126 {
        2
    } else {
        8
    }
}

/// The extended-length bytes a payload of `len` bytes is encoded with.
pub open spec fn length_ext_bytes(len: nat) -> Seq<u8> {
    if len < 126 {
        Seq::empty()
    } else if len <= 65535 {
        u16_be_bytes(len as u16)
    } else {
        u64_be_bytes(len as u64)
    }
}

/// The logical payload length given the 7-bit field and the extended-length
/// bytes that followed it.
pub open spec fn payload_len_value(lf: u8, ext: Seq<u8>) -> nat {
    if lf < 126 {
        lf as nat
    } else if lf == 126 {
        u16_from_be(ext[0], ext[1]) as nat
    } else {
        u64_from_be(ext) as nat
    }
}

proof fn lemma_u16_join(v: u16)
    ensures
        ((((v >> 8) as u8) as u16) << 8) | ((v as u8) as u16) == v,
{
    assert(((((v >> 8) as u8) as u16) << 8) | ((v as u8) as u16) == v) by (bit_vector);
}

proof fn lemma_u64_join(v: u64)
    ensures
        (((((v >> 56) as u8) as u64) << 56) | ((((v >> 48) as u8) as u64) << 48) | ((((v >> 40)
            as u8) as u64) << 40) | ((((v >> 32) as u8) as u64) << 32) | ((((v >> 24) as u8) as u64)
            << 24) | ((((v >> 16) as u8) as u64) << 16) | ((((v >> 8) as u8) as u64) << 8) | ((v
            as u8) as u64)) == v,
{
    assert((((((v >> 56) as u8) as u64) << 56) | ((((v >> 48) as u8) as u64) << 48) | ((((v >> 40)
        as u8) as u64) << 40) | ((((v >> 32) as u8) as u64) << 32) | ((((v >> 24) as u8) as u64)
        << 24) | ((((v >> 16) as u8) as u64) << 16) | ((((v >> 8) as u8) as u64) << 8) | ((v as u8)
        as u64)) == v) by (bit_vector);
}

/// Serializing a well-formed header and parsing the word back yields the
/// same header.
pub proof fn lemma_header_round_trip(h: WebSocketFrameHeader)
    requires
        h.wf(),
    ensures
        parse_header_spec(header_word(h)) == Ok::<WebSocketFrameHeader, DecodeError>(h),
{
    let b0 = byte0_of(h);
    let b1 = byte1_of(h);
    lemma_u16_split(b0, b1);
    assert(opcode_value(h.opcode) < 16);
    lemma_byte0_fields(bit(h.fin), bit(h.rsv1), bit(h.rsv2), bit(h.rsv3), opcode_value(h.opcode));
    lemma_byte1_fields(bit(h.masked), h.payload_length);
    assert(opcode_of(opcode_value(h.opcode)) == Some(h.opcode));
}

/// The mathematical shape of a frame: its header, its mask key if any, and
/// the unmasked payload bytes.
#[verifier::ext_equal]
pub struct FrameModel {
    pub header: WebSocketFrameHeader,
    pub mask: Option<Seq<u8>>,
    pub payload: Seq<u8>,
}

impl FrameModel {
    /// The length field matches the payload's tier, the payload fits the
    /// 64-bit wire length, and the mask key is present exactly when the
    /// mask bit is set.
    pub open spec fn wf(self) -> bool {
        &&& self.header.payload_length == determine_length_spec(self.payload.len())
        &&& self.payload.len() <= u64::MAX
        &&& (self.header.masked <==> self.mask is Some)
        &&& (self.mask matches Some(k) ==> k.len() == 4)
    }
}

/// `data` XORed bytewise against the rotating 4-byte mask key.
pub open spec fn xor_mask(mask: Seq<u8>, data: Seq<u8>) -> Seq<u8> {
    Seq::new(data.len(), |i: int| data[i] ^ mask[i % 4])
}

pub open spec fn mask_size(masked: bool) -> nat {
    if masked {
        4
    } else {
        0
    }
}

/// What decoding a byte buffer yields: the first frame it holds, or
/// `Truncated` when more bytes are needed, or the bad opcode value.
/// Bytes past the first complete frame are ignored.
pub open spec fn decode_spec(s: Seq<u8>) -> Result<FrameModel, DecodeError> {
    if s.len() < 2 {
        Err(DecodeError::Truncated)
    } else {
        match parse_header_spec(u16_from_be(s[0], s[1])) {
            Err(e) => Err(e),
            Ok(h) => {
                let lf = h.payload_length;
                if s.len() < 2 + ext_len_size(lf) {
                    Err(DecodeError::Truncated)
                } else {
                    let ext = s.subrange(2, 2 + ext_len_size(lf) as int);
                    let plen = payload_len_value(lf, ext);
                    let moff = 2 + ext_len_size(lf) as int;
                    if s.len() < moff + mask_size(h.masked) {
                        Err(DecodeError::Truncated)
                    } else {
                        let poff = moff + mask_size(h.masked) as int;
                        if s.len() < poff + plen {
                            Err(DecodeError::Truncated)
                        } else {
                            let wire = s.subrange(poff, poff + plen as int);
                            if h.masked {
                                let key = s.subrange(moff, moff + 4);
                                Ok(
                                    FrameModel {
                                        header: h,
                                        mask: Some(key),
                                        payload: xor_mask(key, wire),
                                    },
                                )
                            } else {
                                Ok(FrameModel { header: h, mask: None, payload: wire })
                            }
                        }
                    }
                }
            },
        }
    }
}

/// The wire bytes of an unmasked frame: the two header bytes, the
/// extended-length bytes its payload tier calls for, then the payload
/// verbatim.
pub open spec fn encode_spec(m: FrameModel) -> Seq<u8> {
    seq![byte0_of(m.header), byte1_of(m.header)] + length_ext_bytes(m.payload.len()) + m.payload
}

/// One WebSocket protocol unit.  The in-memory `payload` is always the
/// unmasked application data; masking exists only at the wire boundary.
#[derive(Debug, PartialEq)]
pub struct WebSocketFrame {
    pub header: WebSocketFrameHeader,
    pub mask: Option<[u8; 4]>,
    pub payload: Vec<u8>,
}

impl View for WebSocketFrame {
    type V = FrameModel;

    open spec fn view(&self) -> FrameModel {
        FrameModel {
            header: self.header,
            mask: match self.mask {
                Some(k) => Some(k@),
                None => None,
            },
            payload: self.payload@,
        }
    }
}

/// An unmasked final-fragment text frame around the given payload.
pub open spec fn text_frame_model(payload: Seq<u8>) -> FrameModel {
    FrameModel {
        header: WebSocketFrameHeader {
            fin: true,
            rsv1: false,
            rsv2: false,
            rsv3: false,
            masked: false,
            opcode: OpCode::TextFrame,
            payload_length: determine_length_spec(payload.len()),
        },
        mask: None,
        payload: payload,
    }
}

impl WebSocketFrame {
    /// Wrap an application text payload in an unmasked frame.
    pub fn from(payload: Vec<u8>) -> (f: WebSocketFrame)
        ensures
            f@ == text_frame_model(payload@),
            f@.wf(),
    {
        let len = payload.len();
        let f = WebSocketFrame {
            header: WebSocketFrameHeader::new_header(len, OpCode::TextFrame),
            mask: None,
            payload: payload,
        };
        proof {
            assert(usize::MAX <= u64::MAX);
        }
        f
    }

    pub fn get_opcode(&self) -> (r: OpCode)
        ensures
            r == self.header.opcode,
    {
        self.header.opcode
    }

    /// Split a packed header word into its fields, or report the bad opcode.
    pub fn parse_header(buf: u16) -> (r: Result<WebSocketFrameHeader, DecodeError>)
        ensures
            r == parse_header_spec(buf),
    {
        let b0 = (buf >> 8) as u8;
        let b1 = buf as u8;
        match OpCode::from(b0 & 0x0F) {
            Some(op) => Ok(
                WebSocketFrameHeader {
                    fin: (b0 >> 7) & 1 == 1,
                    rsv1: (b0 >> 6) & 1 == 1,
                    rsv2: (b0 >> 5) & 1 == 1,
                    rsv3: (b0 >> 4) & 1 == 1,
                    opcode: op,
                    masked: (b1 >> 7) & 1 == 1,
                    payload_length: b1 & 0x7F,
                },
            ),
            None => Err(DecodeError::InvalidOpcode(b0 & 0x0F)),
        }
    }

    /// Pack a well-formed header into its two wire bytes.
    pub fn serialize_header(hdr: &WebSocketFrameHeader) -> (r: u16)
        requires
            hdr.wf(),
        ensures
            r == header_word(*hdr),
    {
        let b0: u8 = (if hdr.fin {
            0x80
        } else {
            0
        }) | (if hdr.rsv1 {
            0x40
        } else {
            0
        }) | (if hdr.rsv2 {
            0x20
        } else {
            0
        }) | (if hdr.rsv3 {
            0x10
        } else {
            0
        }) | Self::opcode_num(hdr.opcode);
        let b1: u8 = (if hdr.masked {
            0x80
        } else {
            0
        }) | (hdr.payload_length & 0x7F);
        proof {
            lemma_bit_shifts(bit(hdr.fin));
            lemma_bit_shifts(bit(hdr.rsv1));
            lemma_bit_shifts(bit(hdr.rsv2));
            lemma_bit_shifts(bit(hdr.rsv3));
            lemma_bit_shifts(bit(hdr.masked));
            lemma_low7_id(hdr.payload_length);
        }
        ((b0 as u16) << 8) | (b1 as u16)
    }

    fn opcode_num(op: OpCode) -> (r: u8)
        ensures
            r == opcode_value(op),
    {
        match op {
            OpCode::TextFrame => 1,
            OpCode::BinaryFrame => 2,
            OpCode::ConnectionClose => 8,
            OpCode::Ping => 9,
            OpCode::Pong => 10,
        }
    }

    /// Resolve the logical payload length: the field itself below 126, else
    /// the 16- or 64-bit big-endian extension that follows the base header.
    pub fn read_length(payload_len: u8, input: &[u8]) -> (r: Result<u64, DecodeError>)
        ensures
            match r {
                Ok(v) => input@.len() >= 2 + ext_len_size(payload_len) && v as nat
                    == payload_len_value(
                    payload_len,
                    input@.subrange(2, 2 + ext_len_size(payload_len) as int),
                ),
                Err(e) => e == DecodeError::Truncated && input@.len() < 2 + ext_len_size(
                    payload_len,
                ),
            },
    {
        if payload_len < 126 {
            if input.len() < 2 {
                Err(DecodeError::Truncated)
            } else {
                Ok(payload_len as u64)
            }
        } else if payload_len == 126 {
            if input.len() < 4 {
                Err(DecodeError::Truncated)
            } else {
                let v: u16 = ((input[2] as u16) << 8) | (input[3] as u16);
                proof {
                    let ext = input@.subrange(2, 4);
                    assert(ext[0] == input@[2] && ext[1] == input@[3]);
                }
                Ok(v as u64)
            }
        } else {
            if input.len() < 10 {
                Err(DecodeError::Truncated)
            } else {
                let v: u64 = ((input[2] as u64) << 56) | ((input[3] as u64) << 48) | ((input[4]
                    as u64) << 40) | ((input[5] as u64) << 32) | ((input[6] as u64) << 24) | ((
                input[7] as u64) << 16) | ((input[8] as u64) << 8) | (input[9] as u64);
                proof {
                    let ext = input@.subrange(2, 10);
                    assert(ext[0] == input@[2] && ext[1] == input@[3] && ext[2] == input@[4]
                        && ext[3] == input@[5] && ext[4] == input@[6] && ext[5] == input@[7]
                        && ext[6] == input@[8] && ext[7] == input@[9]);
                }
                Ok(v)
            }
        }
    }

    /// Copy the 4-byte mask key that sits at `offset`.
    pub fn read_mask(input: &[u8], offset: usize) -> (r: [u8; 4])
        requires
            offset + 4 <= input@.len(),
        ensures
            r@ == input@.subrange(offset as int, offset as int + 4),
    {
        let r = [input[offset], input[offset + 1], input[offset + 2], input[offset + 3]];
        proof {
            assert(r@ =~= input@.subrange(offset as int, offset as int + 4));
        }
        r
    }

    /// Copy the `len` payload bytes that sit at `offset`.
    pub fn read_payload(input: &[u8], offset: usize, len: usize) -> (r: Vec<u8>)
        requires
            offset + len <= input@.len(),
        ensures
            r@ == input@.subrange(offset as int, offset as int + len as int),
    {
        let n = input.len();
        assert(offset + len <= n);
        let mut r: Vec<u8> = Vec::new();
        let mut i: usize = 0;
        while i < len
            invariant
                i <= len,
                offset + len <= n,
                offset + len <= input@.len(),
                r@ == input@.subrange(offset as int, offset as int + i as int),
            decreases len - i,
        {
            r.push(input[offset + i]);
            proof {
                assert(r@ =~= input@.subrange(offset as int, offset as int + i as int + 1));
            }
            i = i + 1;
        }
        r
    }

    /// XOR every payload byte against the rotating mask key; applying it
    /// twice with the same key restores the original bytes.
    pub fn apply_mask(mask: [u8; 4], bytes: &mut Vec<u8>)
        ensures
            final(bytes)@ == xor_mask(mask@, old(bytes)@),
    {
        let n = bytes.len();
        let mut i: usize = 0;
        while i < n
            invariant
                i <= n,
                n == bytes@.len(),
                bytes@.len() == old(bytes)@.len(),
                forall|j: int| 0 <= j < i ==> bytes@[j] == old(bytes)@[j] ^ mask@[j % 4],
                forall|j: int| i <= j < n ==> bytes@[j] == old(bytes)@[j],
            decreases n - i,
        {
            let b = bytes[i];
            bytes[i] = b ^ mask[i % 4];
            i = i + 1;
        }
        proof {
            assert(bytes@ =~= xor_mask(mask@, old(bytes)@));
        }
    }

    /// Decode the first frame held in `input`, unmasking the payload when
    /// the frame carries a mask key.  `Truncated` asks the caller to retry
    /// with more bytes; an unrecognized opcode is a protocol violation.
    pub fn read(input: &[u8]) -> (r: Result<WebSocketFrame, DecodeError>)
        ensures
            (r matches Ok(f) ==> decode_spec(input@) == Ok::<FrameModel, DecodeError>(f@)),
            (r matches Err(e) ==> decode_spec(input@) == Err::<FrameModel, DecodeError>(e)),
    {
        if input.len() < 2 {
            return Err(DecodeError::Truncated);
        }
        let buf: u16 = ((input[0] as u16) << 8) | (input[1] as u16);
        let header = match Self::parse_header(buf) {
            Ok(h) => h,
            Err(e) => {
                return Err(e);
            },
        };
        let len64 = match Self::read_length(header.payload_length, input) {
            Ok(v) => v,
            Err(e) => {
                return Err(e);
            },
        };
        let ext_size: usize = if header.payload_length < 126 {
            0
        } else if header.payload_length == 126 {
            2
        } else {
            8
        };
        let mask_off = 2 + ext_size;
        let payload_off = if header.masked {
            mask_off + 4
        } else {
            mask_off
        };
        if input.len() < payload_off {
            return Err(DecodeError::Truncated);
        }
        if ((input.len() - payload_off) as u64) < len64 {
            return Err(DecodeError::Truncated);
        }
        let len = len64 as usize;
        let mask_key = if header.masked {
            Some(Self::read_mask(input, mask_off))
        } else {
            None
        };
        let mut payload = Self::read_payload(input, payload_off, len);
        if let Some(mask) = mask_key {
            Self::apply_mask(mask, &mut payload);
        }
        Ok(WebSocketFrame { header, mask: mask_key, payload })
    }

    /// Encode this unmasked frame into its wire bytes.
    pub fn write(&self) -> (r: Vec<u8>)
        requires
            self@.wf(),
            !self.header.masked,
        ensures
            r@ == encode_spec(self@),
    {
        let mut out: Vec<u8> = Vec::new();
        let w = Self::serialize_header(&self.header);
        proof {
            lemma_u16_split(byte0_of(self.header), byte1_of(self.header));
        }
        out.push((w >> 8) as u8);
        out.push(w as u8);
        let len = self.payload.len();
        if self.header.payload_length == 126 {
            let l16 = len as u16;
            out.push((l16 >> 8) as u8);
            out.push(l16 as u8);
        } else if self.header.payload_length == 127 {
            let l64 = len as u64;
            out.push((l64 >> 56) as u8);
            out.push((l64 >> 48) as u8);
            out.push((l64 >> 40) as u8);
            out.push((l64 >> 32) as u8);
            out.push((l64 >> 24) as u8);
            out.push((l64 >> 16) as u8);
            out.push((l64 >> 8) as u8);
            out.push(l64 as u8);
        }
        let mut i: usize = 0;
        let ghost head = out@;
        while i < len
            invariant
                i <= len,
                len == self.payload@.len(),
                out@ == head + self.payload@.subrange(0, i as int),
            decreases len - i,
        {
            out.push(self.payload[i]);
            proof {
                assert(out@ =~= head + self.payload@.subrange(0, i as int + 1));
            }
            i = i + 1;
        }
        proof {
            assert(out@ =~= encode_spec(self@));
        }
        out
    }
}

/// Law: decoding the encoding of any well-formed unmasked frame gives the
/// frame back unchanged.
pub proof fn lemma_round_trip(m: FrameModel)
    requires
        m.wf(),
        !m.header.masked,
    ensures
        decode_spec(encode_spec(m)) == Ok::<FrameModel, DecodeError>(m),
{
    let s = encode_spec(m);
    let h = m.header;
    let len = m.payload.len();
    let ext = length_ext_bytes(len);
    assert(s.len() == 2 + ext.len() + len);
    assert(s[0] == byte0_of(h));
    assert(s[1] == byte1_of(h));
    lemma_header_round_trip(h);
    assert(parse_header_spec(u16_from_be(s[0], s[1])) == Ok::<WebSocketFrameHeader, DecodeError>(
        h,
    ));
    let lf = h.payload_length;
    assert(lf == determine_length_spec(len));
    let esz = ext_len_size(lf) as int;
    assert(ext.len() == esz);
    let sub = s.subrange(2, 2 + esz);
    assert(sub =~= ext);
    if len < 126 {
        assert(payload_len_value(lf, sub) == len);
    } else if len <= 65535 {
        let v = len as u16;
        lemma_u16_join(v);
        assert(sub[0] == (v >> 8) as u8 && sub[1] == v as u8);
        assert(payload_len_value(lf, sub) == len);
    } else {
        let v = len as u64;
        lemma_u64_join(v);
        assert(sub[0] == (v >> 56) as u8 && sub[1] == (v >> 48) as u8 && sub[2] == (v >> 40) as u8
            && sub[3] == (v >> 32) as u8 && sub[4] == (v >> 24) as u8 && sub[5] == (v >> 16) as u8
            && sub[6] == (v >> 8) as u8 && sub[7] == v as u8);
        assert(payload_len_value(lf, sub) == len);
    }
    let poff = 2 + esz;
    assert(s.len() == poff + len);
    let wire = s.subrange(poff, poff + len as int);
    assert(wire =~= m.payload);
    assert(m.mask == None::<Seq<u8>>);
    assert(decode_spec(s) == Ok::<FrameModel, DecodeError>(
        FrameModel { header: h, mask: None, payload: wire },
    ));
}

/// Law: payload length 125 uses the compact 7-bit field and no extension;
/// 126 and 65535 use the 16-bit extension; 65536 uses the 64-bit extension.
pub proof fn lemma_length_tier_boundaries()
    ensures
        determine_length_spec(125) == 125 && length_ext_bytes(125).len() == 0,
        determine_length_spec(126) == 126 && length_ext_bytes(126).len() == 2,
        determine_length_spec(65535) == 126 && length_ext_bytes(65535).len() == 2,
        determine_length_spec(65536) == 127 && length_ext_bytes(65536).len() == 8,
{
}

/// Law: masking is involutive — XOR-masking any payload twice with the same
/// 4-byte key yields the payload unchanged.
pub proof fn lemma_mask_involutive(mask: Seq<u8>, payload: Seq<u8>)
    requires
        mask.len() == 4,
    ensures
        xor_mask(mask, xor_mask(mask, payload)) == payload,
{
    assert(forall|x: u8, k: u8| (x ^ k) ^ k == x) by (bit_vector);
    assert(xor_mask(mask, xor_mask(mask, payload)) =~= payload);
}

} // verus!
