//! One WebSocket connection: the HTTP-header accumulator, the handshake
//! accept-key derivation, and the per-connection state machine that moves a
//! socket from the upgrade handshake to framed message exchange.
//!
//! The socket itself, the poll loop and the HTTP tokenizer live outside the
//! library; they hand bytes and header pairs in and carry response bytes out.

use vstd::prelude::*;
use vstd::string::StrSliceExecFns;
use vstd::string::StringSliceAdditionalSpecFns;

use rustc_serialize::base64::ToBase64;
use sha1::Digest;

use crate::frame::{decode_spec, encode_spec, text_frame_model, FrameModel, WebSocketFrame};

verus! {

/// Byte-wise equality of two byte vectors.
pub fn bytes_eq(a: &Vec<u8>, b: &Vec<u8>) -> (r: bool)
    ensures
        r == (a@ == b@),
{
    if a.len() != b.len() {
        return false;
    }
    let n = a.len();
    let mut i: usize = 0;
    while i < n
        invariant
            i <= n,
            n == a@.len(),
            n == b@.len(),
            forall|j: int| 0 <= j < i ==> a@[j] == b@[j],
        decreases n - i,
    {
        if a[i] != b[i] {
            return false;
        }
        i = i + 1;
    }
    proof {
        assert(a@ =~= b@);
    }
    true
}

fn clone_bytes(v: &Vec<u8>) -> (r: Vec<u8>)
    ensures
        r@ == v@,
{
    let mut r: Vec<u8> = Vec::new();
    let n = v.len();
    let mut i: usize = 0;
    while i < n
        invariant
            i <= n,
            n == v@.len(),
            r@ == v@.subrange(0, i as int),
        decreases n - i,
    {
        r.push(v[i]);
        proof {
            assert(r@ =~= v@.subrange(0, i as int + 1));
        }
        i = i + 1;
    }
    proof {
        assert(r@ =~= v@);
    }
    r
}

/// The value recorded for `name`, scanning the pairs front to back.
pub open spec fn header_lookup(hs: Seq<(Seq<u8>, Seq<u8>)>, name: Seq<u8>) -> Option<Seq<u8>>
    decreases hs.len(),
{
    if hs.len() == 0 {
        None
    } else if hs[0].0 == name {
        Some(hs[0].1)
    } else {
        header_lookup(hs.subrange(1, hs.len() as int), name)
    }
}

proof fn lemma_lookup_skip(hs: Seq<(Seq<u8>, Seq<u8>)>, name: Seq<u8>, i: int)
    requires
        0 <= i <= hs.len(),
        forall|j: int| 0 <= j < i ==> (#[trigger] hs[j]).0 != name,
    ensures
        header_lookup(hs, name) == header_lookup(hs.subrange(i, hs.len() as int), name),
    decreases i,
{
    if i == 0 {
        assert(hs.subrange(0, hs.len() as int) =~= hs);
    } else {
        let tail = hs.subrange(1, hs.len() as int);
        lemma_lookup_skip(tail, name, i - 1);
        assert(tail.subrange(i - 1, tail.len() as int) =~= hs.subrange(i, hs.len() as int));
    }
}

/// The header name/value pairs accumulated during the handshake, newest
/// first; a later record of the same name shadows the earlier one.
pub struct Headers {
    entries: Vec<(Vec<u8>, Vec<u8>)>,
}

impl View for Headers {
    type V = Seq<(Seq<u8>, Seq<u8>)>;

    closed spec fn view(&self) -> Seq<(Seq<u8>, Seq<u8>)> {
        Seq::new(self.entries@.len(), |i: int| (self.entries@[i].0@, self.entries@[i].1@))
    }
}

impl Headers {
    pub fn new() -> (h: Headers)
        ensures
            h@ == Seq::<(Seq<u8>, Seq<u8>)>::empty(),
    {
        let h = Headers { entries: Vec::new() };
        proof {
            assert(h@ =~= Seq::<(Seq<u8>, Seq<u8>)>::empty());
        }
        h
    }

    /// Record one header pair; it shadows any earlier pair of the same name.
    pub fn insert(&mut self, name: Vec<u8>, value: Vec<u8>)
        ensures
            final(self)@ == seq![(name@, value@)] + old(self)@,
    {
        let ghost before = self@;
        let ghost n = name@;
        let ghost v = value@;
        self.entries.insert(0, (name, value));
        proof {
            assert(self@ =~= seq![(n, v)] + before);
        }
    }

    /// The value recorded for `name`, if any.
    pub fn get(&self, name: &Vec<u8>) -> (r: Option<Vec<u8>>)
        ensures
            match r {
                Some(v) => header_lookup(self@, name@) == Some(v@),
                None => header_lookup(self@, name@) is None,
            },
    {
        let n = self.entries.len();
        let mut i: usize = 0;
        while i < n
            invariant
                i <= n,
                n == self.entries@.len(),
                n == self@.len(),
                forall|j: int| 0 <= j < i ==> (#[trigger] self@[j]).0 != name@,
            decreases n - i,
        {
            if bytes_eq(&self.entries[i].0, name) {
                let r = clone_bytes(&self.entries[i].1);
                proof {
                    lemma_lookup_skip(self@, name@, i as int);
                    let rest = self@.subrange(i as int, self@.len() as int);
                    assert(rest[0] == self@[i as int]);
                }
                return Some(r);
            }
            i = i + 1;
        }
        proof {
            lemma_lookup_skip(self@, name@, n as int);
            assert(self@.subrange(n as int, self@.len() as int).len() == 0);
        }
        None
    }
}

/// The SHA-1 digest of the given bytes.
pub uninterp spec fn sha1_of(data: Seq<u8>) -> Seq<u8>;

/// The RFC 4648 standard base64 text (padded, unwrapped) of the given bytes.
pub uninterp spec fn base64_of(data: Seq<u8>) -> Seq<u8>;

/// Relies on the `sha1` crate's `Digest` API: the digest is a function of
/// the input bytes alone and is always 20 bytes long.
#[verifier::external_body]
fn sha1_digest(data: &Vec<u8>) -> (r: Vec<u8>)
    ensures
        r@ == sha1_of(data@),
        r@.len() == 20,
{
    let digest = sha1::Sha1::digest(data.as_slice());
    digest.to_vec()
}

/// Relies on rustc-serialize's `ToBase64` with the `STANDARD` config (RFC
/// 4648 alphabet, `=`-padded, no line wrapping): the output is ASCII text,
/// a function of the input bytes alone, of length 4 * ceil(n / 3).
#[verifier::external_body]
fn base64_encode(data: &Vec<u8>) -> (r: Vec<u8>)
    ensures
        r@ == base64_of(data@),
        r@.len() == ((data@.len() + 2) / 3) * 4,
{
    data.as_slice().to_base64(rustc_serialize::base64::STANDARD).into_bytes()
}

/// The fixed RFC 6455 magic GUID appended to the client's key.
pub open spec fn websocket_guid() -> Seq<u8> {
    "258EAFA5-E914-47DA-95CA-C5AB0DC85B11".spec_bytes()
}

/// The `Sec-WebSocket-Accept` token owed for a client key:
/// base64(sha1(key + magic GUID)).
pub open spec fn accept_key_of(key: Seq<u8>) -> Seq<u8> {
    base64_of(sha1_of(key + websocket_guid()))
}

/// Compute the handshake accept token for the client's `Sec-WebSocket-Key`
/// value.
pub fn gen_key(key: &Vec<u8>) -> (r: Vec<u8>)
    ensures
        r@ == accept_key_of(key@),
{
    let mut input = clone_bytes(key);
    let guid: Vec<u8> = "258EAFA5-E914-47DA-95CA-C5AB0DC85B11".as_bytes_vec();
    let mut guid_tail = guid;
    input.append(&mut guid_tail);
    proof {
        assert(input@ =~= key@ + websocket_guid());
    }
    let digest = sha1_digest(&input);
    base64_encode(&digest)
}

/// The phase of a connection.  Transitions are one-directional:
/// `AwaitingHandshake` to `HandshakeResponse` to `Connected`.
#[derive(Clone, Copy, Debug, PartialEq, Eq, Structural)]
pub enum ClientState {
    AwaitingHandshake,
    HandshakeResponse,
    Connected,
}

/// The readiness a connection currently wants to be woken for.
#[derive(Clone, Copy, Debug, PartialEq, Eq, Structural)]
pub enum Interest {
    Readable,
    Writable,
}

/// Why a handshake response could not be produced.
#[derive(Clone, Copy, Debug, PartialEq, Eq, Structural)]
pub enum HandshakeError {
    MissingKey,
}

/// The mathematical shape of a connection: its recorded headers, its
/// declared interest, its phase, and the queue of outgoing frames.
#[verifier::ext_equal]
pub struct ClientModel {
    pub headers: Seq<(Seq<u8>, Seq<u8>)>,
    pub interest: Interest,
    pub state: ClientState,
    pub outgoing: Seq<FrameModel>,
}

impl ClientModel {
    /// Every queued frame can be put on the wire: well formed and unmasked.
    pub open spec fn wf(self) -> bool {
        forall|i: int|
            0 <= i < self.outgoing.len() ==> (#[trigger] self.outgoing[i]).wf()
                && !self.outgoing[i].header.masked
    }
}

/// A fresh connection: no headers, read interest, awaiting the handshake.
pub open spec fn new_client_model() -> ClientModel {
    ClientModel {
        headers: Seq::empty(),
        interest: Interest::Readable,
        state: ClientState::AwaitingHandshake,
        outgoing: Seq::empty(),
    }
}

/// Recording a header pair touches nothing but the header list.
pub open spec fn record_header_step(c: ClientModel, name: Seq<u8>, value: Seq<u8>) -> ClientModel {
    ClientModel { headers: seq![(name, value)] + c.headers, ..c }
}

/// The read-path handshake decision: once the tokenizer reports an upgrade
/// request while awaiting the handshake, move to `HandshakeResponse` and
/// swap read interest for write interest; otherwise stay put.
pub open spec fn read_handshake_step(c: ClientModel, is_upgrade: bool) -> ClientModel {
    if c.state is AwaitingHandshake && is_upgrade {
        ClientModel { state: ClientState::HandshakeResponse, interest: Interest::Writable, ..c }
    } else {
        c
    }
}

/// The reply payload enqueued for every frame received.
pub open spec fn reply_payload() -> Seq<u8> {
    "Hi there!".spec_bytes()
}

/// The reply frame enqueued for every frame received.
pub open spec fn reply_frame_model() -> FrameModel {
    text_frame_model(reply_payload())
}

/// The frame-path read decision: a decodable frame enqueues the reply and
/// swaps to write interest; a decode failure changes nothing.
pub open spec fn read_step(c: ClientModel, input: Seq<u8>) -> ClientModel {
    match decode_spec(input) {
        Ok(_) => ClientModel {
            outgoing: c.outgoing.push(reply_frame_model()),
            interest: Interest::Writable,
            ..c
        },
        Err(_) => c,
    }
}

/// The name of the header the handshake response is derived from.
pub open spec fn sec_websocket_key_name() -> Seq<u8> {
    "Sec-WebSocket-Key".spec_bytes()
}

pub open spec fn response_prefix() -> Seq<u8> {
    "HTTP/1.1 101 Switching Protocols\r\nConnection: Upgrade\r\nSec-WebSocket-Accept: ".spec_bytes()
}

pub open spec fn response_suffix() -> Seq<u8> {
    "\r\nUpgrade: websocket\r\n\r\n".spec_bytes()
}

/// The literal HTTP/1.1 101 upgrade response owed for a client key.
pub open spec fn handshake_response(key: Seq<u8>) -> Seq<u8> {
    response_prefix() + accept_key_of(key) + response_suffix()
}

/// The handshake write transition: with the client's key on record the
/// connection is promoted to `Connected` and returns to read interest; a
/// missing key is fatal and changes nothing.
pub open spec fn write_handshake_step(c: ClientModel) -> ClientModel {
    match header_lookup(c.headers, sec_websocket_key_name()) {
        Some(_) => ClientModel { state: ClientState::Connected, interest: Interest::Readable, ..c },
        None => c,
    }
}

/// What the handshake write puts on the wire.
pub open spec fn write_handshake_result(c: ClientModel) -> Result<Seq<u8>, HandshakeError> {
    match header_lookup(c.headers, sec_websocket_key_name()) {
        Some(key) => Ok(handshake_response(key)),
        None => Err(HandshakeError::MissingKey),
    }
}

/// The wire bytes of a queue of frames, in order.
pub open spec fn encode_all(fs: Seq<FrameModel>) -> Seq<u8>
    decreases fs.len(),
{
    if fs.len() == 0 {
        Seq::empty()
    } else {
        encode_spec(fs[0]) + encode_all(fs.subrange(1, fs.len() as int))
    }
}

proof fn lemma_encode_all_snoc(fs: Seq<FrameModel>, f: FrameModel)
    ensures
        encode_all(fs.push(f)) == encode_all(fs) + encode_spec(f),
    decreases fs.len(),
{
    if fs.len() == 0 {
        assert(fs.push(f)[0] == f);
        assert(fs.push(f).subrange(1, 1) =~= Seq::<FrameModel>::empty());
        assert(encode_all(fs.push(f)) == encode_spec(f) + encode_all(fs.push(f).subrange(1, 1)));
        assert(encode_spec(f) + Seq::<u8>::empty() =~= encode_spec(f));
        assert(Seq::<u8>::empty() + encode_spec(f) =~= encode_spec(f));
    } else {
        let tail = fs.subrange(1, fs.len() as int);
        lemma_encode_all_snoc(tail, f);
        assert(fs.push(f).subrange(1, fs.push(f).len() as int) =~= tail.push(f));
        assert(fs.push(f)[0] == fs[0]);
        assert(encode_all(fs) + encode_spec(f) =~= encode_spec(fs[0]) + (encode_all(tail)
            + encode_spec(f)));
    }
}

/// The write-path transition, by phase: `HandshakeResponse` performs the
/// handshake write; `Connected` drains the outgoing queue and returns to
/// read interest; `AwaitingHandshake` never has write interest and is a
/// no-op.
pub open spec fn write_step(c: ClientModel) -> ClientModel {
    match c.state {
        ClientState::HandshakeResponse => write_handshake_step(c),
        ClientState::Connected => ClientModel {
            outgoing: Seq::empty(),
            interest: Interest::Readable,
            ..c
        },
        ClientState::AwaitingHandshake => c,
    }
}

/// What the write path puts on the wire, by phase.
pub open spec fn write_result(c: ClientModel) -> Result<Seq<u8>, HandshakeError> {
    match c.state {
        ClientState::HandshakeResponse => write_handshake_result(c),
        ClientState::Connected => Ok(encode_all(c.outgoing)),
        ClientState::AwaitingHandshake => Ok(Seq::empty()),
    }
}

/// One connection as the library sees it; the socket stays with the caller.
pub struct WebSocketClient {
    pub headers: Headers,
    pub interest: Interest,
    pub state: ClientState,
    pub outgoing: Vec<WebSocketFrame>,
}

impl View for WebSocketClient {
    type V = ClientModel;

    open spec fn view(&self) -> ClientModel {
        ClientModel {
            headers: self.headers@,
            interest: self.interest,
            state: self.state,
            outgoing: Seq::new(self.outgoing@.len(), |i: int| self.outgoing@[i]@),
        }
    }
}

impl WebSocketClient {
    /// A fresh connection in `AwaitingHandshake` with read interest.
    pub fn new() -> (c: WebSocketClient)
        ensures
            c@ == new_client_model(),
            c@.wf(),
    {
        let c = WebSocketClient {
            headers: Headers::new(),
            interest: Interest::Readable,
            state: ClientState::AwaitingHandshake,
            outgoing: Vec::new(),
        };
        proof {
            assert(c@ =~= new_client_model());
        }
        c
    }

    /// Record one header pair reported by the HTTP tokenizer.
    pub fn record_header(&mut self, name: Vec<u8>, value: Vec<u8>)
        ensures
            final(self)@ == record_header_step(old(self)@, name@, value@),
            old(self)@.wf() ==> final(self)@.wf(),
    {
        let ghost n = name@;
        let ghost v = value@;
        self.headers.insert(name, value);
        proof {
            assert(self@ =~= record_header_step(old(self)@, n, v));
        }
    }

    /// The read-path handshake decision, fed the tokenizer's upgrade flag.
    pub fn read_handshake(&mut self, is_upgrade: bool)
        ensures
            final(self)@ == read_handshake_step(old(self)@, is_upgrade),
            old(self)@.wf() ==> final(self)@.wf(),
    {
        if is_upgrade {
            match self.state {
                ClientState::AwaitingHandshake => {
                    self.state = ClientState::HandshakeResponse;
                    self.interest = Interest::Writable;
                },
                _ => (),
            }
        }
        proof {
            assert(self@ =~= read_handshake_step(old(self)@, is_upgrade));
        }
    }

    /// The frame-path read decision: decode one frame out of `input`; on
    /// success enqueue the fixed reply and swap to write interest; on
    /// failure leave everything as it was.
    pub fn read(&mut self, input: &[u8])
        ensures
            final(self)@ == read_step(old(self)@, input@),
            old(self)@.wf() ==> final(self)@.wf(),
    {
        match WebSocketFrame::read(input) {
            Ok(_frame) => {
                let reply = WebSocketFrame::from("Hi there!".as_bytes_vec());
                self.outgoing.push(reply);
                self.interest = Interest::Writable;
                proof {
                    assert(self@.outgoing =~= old(self)@.outgoing.push(reply_frame_model()));
                    assert(self@ =~= read_step(old(self)@, input@));
                }
            },
            Err(_) => (),
        }
    }

    /// The handshake write: derive the accept token from the recorded
    /// `Sec-WebSocket-Key`, produce the fixed 101 response, and promote the
    /// connection to `Connected` with read interest.  A missing key is
    /// fatal for the connection and reported as an error.
    pub fn write_handshake(&mut self) -> (r: Result<Vec<u8>, HandshakeError>)
        ensures
            final(self)@ == write_handshake_step(old(self)@),
            (r matches Ok(v) ==> write_handshake_result(old(self)@) == Ok::<
                Seq<u8>,
                HandshakeError,
            >(v@)),
            (r matches Err(e) ==> write_handshake_result(old(self)@) == Err::<
                Seq<u8>,
                HandshakeError,
            >(e)),
            old(self)@.wf() ==> final(self)@.wf(),
    {
        let name: Vec<u8> = "Sec-WebSocket-Key".as_bytes_vec();
        match self.headers.get(&name) {
            Some(key) => {
                let token = gen_key(&key);
                let mut response: Vec<u8> =
                    "HTTP/1.1 101 Switching Protocols\r\nConnection: Upgrade\r\nSec-WebSocket-Accept: ".as_bytes_vec();
                let mut token_tail = token;
                response.append(&mut token_tail);
                let mut suffix: Vec<u8> = "\r\nUpgrade: websocket\r\n\r\n".as_bytes_vec();
                response.append(&mut suffix);
                self.state = ClientState::Connected;
                self.interest = Interest::Readable;
                proof {
                    assert(response@ =~= handshake_response(key@));
                }
                proof {
                    assert(self@ =~= write_handshake_step(old(self)@));
                }
                Ok(response)
            },
            None => Err(HandshakeError::MissingKey),
        }
    }

    /// The write path, by phase: emit the handshake response, or drain the
    /// outgoing queue in order (clearing it and returning to read
    /// interest), or do nothing while still awaiting the handshake.
    pub fn write(&mut self) -> (r: Result<Vec<u8>, HandshakeError>)
        requires
            old(self)@.wf(),
        ensures
            final(self)@ == write_step(old(self)@),
            (r matches Ok(v) ==> write_result(old(self)@) == Ok::<Seq<u8>, HandshakeError>(v@)),
            (r matches Err(e) ==> write_result(old(self)@) == Err::<Seq<u8>, HandshakeError>(e)),
            final(self)@.wf(),
    {
        match self.state {
            ClientState::HandshakeResponse => self.write_handshake(),
            ClientState::Connected => {
                let mut out: Vec<u8> = Vec::new();
                let n = self.outgoing.len();
                let mut i: usize = 0;
                while i < n
                    invariant
                        i <= n,
                        n == self.outgoing@.len(),
                        self == old(self),
                        old(self)@.wf(),
                        out@ == encode_all(self@.outgoing.subrange(0, i as int)),
                    decreases n - i,
                {
                    proof {
                        assert(self@.outgoing[i as int] == self.outgoing@[i as int]@);
                        assert(self@.outgoing[i as int].wf());
                    }
                    let mut frame_bytes = self.outgoing[i].write();
                    out.append(&mut frame_bytes);
                    proof {
                        let pre = self@.outgoing.subrange(0, i as int);
                        lemma_encode_all_snoc(pre, self@.outgoing[i as int]);
                        assert(pre.push(self@.outgoing[i as int]) =~= self@.outgoing.subrange(
                            0,
                            i as int + 1,
                        ));
                    }
                    i = i + 1;
                }
                proof {
                    assert(self@.outgoing.subrange(0, n as int) =~= self@.outgoing);
                }
                self.outgoing.clear();
                self.interest = Interest::Readable;
                proof {
                    assert(self@ =~= write_step(old(self)@));
                }
                Ok(out)
            },
            ClientState::AwaitingHandshake => {
                proof {
                    assert(self@ =~= write_step(old(self)@));
                }
                Ok(Vec::new())
            },
        }
    }
}

/// Law: a connection in `AwaitingHandshake` that has the client's key on
/// record and is fed a complete upgrade request moves to
/// `HandshakeResponse` with write interest on the read path, and on the
/// following write path to `Connected` with read interest, emitting the
/// fixed 101 response for that key.
pub proof fn lemma_handshake_progression(c: ClientModel, key: Seq<u8>)
    requires
        c.state is AwaitingHandshake,
        header_lookup(c.headers, sec_websocket_key_name()) == Some(key),
    ensures
        read_handshake_step(c, true).state is HandshakeResponse,
        read_handshake_step(c, true).interest is Writable,
        write_step(read_handshake_step(c, true)).state is Connected,
        write_step(read_handshake_step(c, true)).interest is Readable,
        write_result(read_handshake_step(c, true)) == Ok::<Seq<u8>, HandshakeError>(
            handshake_response(key),
        ),
{
}

} // verus!
