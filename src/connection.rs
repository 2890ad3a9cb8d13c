//! One connection's protocol state machine, without its socket: bytes that
//! were read go in, bytes to send and the interest set come out.
use vstd::prelude::*;
use vstd::slice::slice_subrange;
use vstd::string::StringSliceAdditionalSpecFns;
use crate::frame::{Frame, FrameView, decode, decode_spec, Decoding, encode_spec, frames_view};
use crate::handler::MessageHandler;
use crate::handshake::{accept_key_spec, append_bytes, gen_key, handshake_response, handshake_response_spec};
use crate::http::{Header, HttpParser, ParserView, find_header, header_lookup, headers_view, run};

verus! {

/// The readiness that a connection asks to be told of.
#[derive(Clone, Copy, Debug, PartialEq, Eq, Structural)]
pub struct Interest {
    pub readable: bool,
    pub writable: bool,
    pub hup: bool,
}

/// Readable and hang-up.
pub open spec fn read_interest() -> Interest {
    Interest { readable: true, writable: false, hup: true }
}

/// Writable and hang-up.
pub open spec fn write_interest() -> Interest {
    Interest { readable: false, writable: true, hup: true }
}

impl Interest {
    pub fn reading() -> (r: Interest)
        ensures
            r == read_interest(),
    {
        Interest { readable: true, writable: false, hup: true }
    }

    pub fn writing() -> (r: Interest)
        ensures
            r == write_interest(),
    {
        Interest { readable: false, writable: true, hup: true }
    }
}

/// Why a connection is abandoned.
#[derive(Clone, Copy, Debug, PartialEq, Eq, Structural)]
pub enum ProtocolError {
    /// The upgrade request has no `Sec-WebSocket-Key` header.
    MissingKey,
    /// A frame header that no frame may have.
    MalformedFrame,
}

/// Where a connection stands in the protocol.
#[derive(Clone, Debug)]
pub enum ClientState {
    /// Reading the upgrade request.
    AwaitingHandshake(HttpParser),
    /// The request is read; the response is not yet written.
    HandshakeResponse,
    /// Frames flow both ways.
    Connected,
}

/// The name of the header that carries the client's key.
pub const KEY_HEADER: &'static str = "Sec-WebSocket-Key";

/// What the frames at the start of `bytes` give: the replies to them in
/// order, the bytes after the last whole frame, and whether a malformed
/// header stopped the reading.
pub open spec fn drain<H: MessageHandler>(h: H, bytes: Seq<u8>) -> (Seq<FrameView>, Seq<u8>, bool)
    decreases bytes.len(),
{
    match decode_spec(bytes) {
        Decoding::Complete(f, n) => if 0 < n <= bytes.len() {
            let d = drain(h, bytes.subrange(n as int, bytes.len() as int));
            (h.replies_spec(f) + d.0, d.1, d.2)
        } else {
            (seq![], bytes, false)
        },
        Decoding::Malformed => (seq![], bytes, true),
        Decoding::Incomplete => (seq![], bytes, false),
    }
}

/// The bytes of frames sent one after the other.
pub open spec fn encode_all(fs: Seq<FrameView>) -> Seq<u8>
    decreases fs.len(),
{
    if fs.len() == 0 {
        seq![]
    } else {
        encode_all(fs.drop_last()) + encode_spec(fs.last().fin, fs.last().opcode, fs.last().payload)
    }
}

/// `k` is where the header block ends in `data`, fed to a reader in state `p`.
pub open spec fn head_ends_at(p: ParserView, data: Seq<u8>, k: int) -> bool {
    &&& 0 < k <= data.len()
    &&& run(p, data.subrange(0, k)).complete
    &&& !run(p, data.subrange(0, k - 1)).complete
}

/// One connection, without its socket.
#[derive(Clone, Debug)]
pub struct WebSocketClient {
    pub state: ClientState,
    pub interest: Interest,
    /// The headers of the upgrade request, once it is read.
    pub headers: Vec<Header>,
    /// Frames waiting to be sent, oldest first.
    pub outgoing: Vec<Frame>,
    /// Bytes read and not yet taken by a whole frame.
    pub inbound: Vec<u8>,
}

impl WebSocketClient {
    /// The interest set follows the state and the queue: reading while the
    /// request comes in, writing while a response or a frame waits.
    pub open spec fn wf(&self) -> bool {
        match self.state {
            ClientState::AwaitingHandshake(p) => {
                &&& !p@.complete
                &&& self.interest == read_interest()
                &&& self.outgoing@.len() == 0
            },
            ClientState::HandshakeResponse => {
                &&& self.interest == write_interest()
                &&& self.outgoing@.len() == 0
            },
            ClientState::Connected => if self.outgoing@.len() > 0 {
                self.interest == write_interest()
            } else {
                self.interest == read_interest()
            },
        }
    }

    /// A connection that waits for the upgrade request.
    pub fn new() -> (r: WebSocketClient)
        ensures
            r.wf(),
            r.state matches ClientState::AwaitingHandshake(p) && p@ == crate::http::initial_parser(),
            r.interest == read_interest(),
            r.headers@.len() == 0,
            r.outgoing@.len() == 0,
            r.inbound@.len() == 0,
    {
        WebSocketClient {
            state: ClientState::AwaitingHandshake(HttpParser::new()),
            interest: Interest::reading(),
            headers: Vec::new(),
            outgoing: Vec::new(),
            inbound: Vec::new(),
        }
    }

    /// Feeds bytes of the upgrade request. Once the header block is complete
    /// its headers are kept, the connection waits to write the response, and
    /// the bytes after the block are kept for the frames that follow.
    pub fn read_handshake(&mut self, data: &[u8])
        requires
            old(self).state is AwaitingHandshake,
            old(self).wf(),
        ensures
            final(self).wf(),
            handshake_read(*old(self), data@, *final(self)),
    {
        let mut taken = ClientState::HandshakeResponse;
        std::mem::swap(&mut self.state, &mut taken);
        let mut parser = match taken {
            ClientState::AwaitingHandshake(p) => p,
            _ => {
                assert(false);
                return;
            },
        };
        let ghost p0 = parser@;
        let consumed = parser.feed(data);
        if parser.complete {
            assert(head_ends_at(p0, data@, consumed as int));
            let rest = slice_subrange(data, consumed, data.len());
            append_bytes(&mut self.inbound, rest);
            self.headers = parser.headers;
            self.interest = Interest::writing();
            self.state = ClientState::HandshakeResponse;
        } else {
            self.state = ClientState::AwaitingHandshake(parser);
        }
    }

    /// Takes every whole frame off the inbound bytes, queues the handler's
    /// replies to them in order, and keeps the bytes of a frame not yet
    /// complete. The interest turns to writing once a frame waits.
    fn process_frames<H: MessageHandler>(&mut self, h: &H) -> (r: Result<(), ProtocolError>)
        requires
            old(self).state is Connected,
            old(self).wf(),
        ensures
            r is Ok ==> final(self).wf(),
            frames_read(*h, *old(self), old(self).inbound@, *final(self), r),
    {
        let ghost d0 = drain(*h, self.inbound@);
        let n = self.inbound.len();
        let mut pos: usize = 0;
        assert(self.inbound@.subrange(0, n as int) =~= self.inbound@);
        assert(frames_view(self.outgoing@) + seq![] =~= frames_view(self.outgoing@));
        loop
            invariant
                pos <= n,
                n == self.inbound@.len(),
                self.inbound@ == old(self).inbound@,
                self.state is Connected,
                self.interest == old(self).interest,
                self.headers@ == old(self).headers@,
                d0 == drain(*h, old(self).inbound@),
                ({
                    let dp = drain(*h, self.inbound@.subrange(pos as int, n as int));
                    &&& frames_view(self.outgoing@) + dp.0 == frames_view(old(self).outgoing@) + d0.0
                    &&& dp.1 == d0.1
                    &&& dp.2 == d0.2
                }),
            ensures
                pos <= n,
                n == self.inbound@.len(),
                self.inbound@ == old(self).inbound@,
                self.state is Connected,
                self.interest == old(self).interest,
                self.headers@ == old(self).headers@,
                frames_view(self.outgoing@) == frames_view(old(self).outgoing@) + d0.0,
                self.inbound@.subrange(pos as int, n as int) == d0.1,
                !d0.2,
            decreases n - pos,
        {
            let ghost b = self.inbound@.subrange(pos as int, n as int);
            let rest = slice_subrange(self.inbound.as_slice(), pos, n);
            match decode(rest) {
                Err(_) => {
                    assert(drain(*h, b).2);
                    return Err(ProtocolError::MalformedFrame);
                },
                Ok(None) => {
                    assert(drain(*h, b) == (Seq::<FrameView>::empty(), b, false));
                    assert(frames_view(self.outgoing@) + Seq::<FrameView>::empty() =~= frames_view(
                        self.outgoing@,
                    ));
                    break;
                },
                Ok(Some((f, used))) => {
                    let mut replies = h.replies(&f);
                    let ghost before = self.outgoing@;
                    self.outgoing.append(&mut replies);
                    proof {
                        assert(b.subrange(used as int, b.len() as int) =~= self.inbound@.subrange(
                            pos + used,
                            n as int,
                        ));
                        assert(frames_view(self.outgoing@) =~= frames_view(before) + h.replies_spec(
                            f@,
                        ));
                        let dn = drain(*h, self.inbound@.subrange(pos + used, n as int));
                        assert(drain(*h, b).0 == h.replies_spec(f@) + dn.0);
                        assert(frames_view(self.outgoing@) + dn.0 =~= frames_view(before) + drain(
                            *h,
                            b,
                        ).0);
                    }
                    pos = pos + used;
                },
            }
        }
        let mut left: Vec<u8> = Vec::new();
        append_bytes(&mut left, slice_subrange(self.inbound.as_slice(), pos, n));
        self.inbound = left;
        assert(self.outgoing@.len() == frames_view(self.outgoing@).len());
        assert(self.outgoing@.len() >= old(self).outgoing@.len());
        if self.outgoing.len() > 0 {
            self.interest = Interest::writing();
        }
        Ok(())
    }

    /// Reads bytes that came in, as the state asks: request bytes while
    /// waiting for the handshake, frames once connected; bytes that come
    /// before the response is written are kept for later. A malformed frame
    /// header fails, and the connection is then to be abandoned.
    pub fn read<H: MessageHandler>(&mut self, data: &[u8], h: &H) -> (r: Result<(), ProtocolError>)
        requires
            old(self).wf(),
        ensures
            r is Ok ==> final(self).wf(),
            read_post(*h, *old(self), data@, *final(self), r),
    {
        match self.state {
            ClientState::AwaitingHandshake(_) => {
                self.read_handshake(data);
                Ok(())
            },
            ClientState::HandshakeResponse => {
                append_bytes(&mut self.inbound, data);
                Ok(())
            },
            ClientState::Connected => {
                append_bytes(&mut self.inbound, data);
                self.process_frames(h)
            },
        }
    }

    /// Writes the upgrade response for the request's `Sec-WebSocket-Key`,
    /// and the connection is then connected. Without that header nothing
    /// changes and the connection is to be abandoned.
    pub fn write_handshake(&mut self) -> (r: Result<Vec<u8>, ProtocolError>)
        requires
            old(self).state is HandshakeResponse,
            old(self).wf(),
        ensures
            handshake_written(*old(self), *final(self), r),
    {
        let key = find_header(&self.headers, KEY_HEADER.as_bytes());
        match key {
            None => Err(ProtocolError::MissingKey),
            Some(k) => {
                let accept = gen_key(k.as_slice());
                let response = handshake_response(accept.as_slice());
                self.interest = Interest::reading();
                self.state = ClientState::Connected;
                Ok(response)
            },
        }
    }

    /// Writes what waits: the upgrade response, or every queued frame in
    /// order, after which the queue is empty and the connection reads again.
    pub fn write(&mut self) -> (r: Result<Vec<u8>, ProtocolError>)
        requires
            old(self).wf(),
        ensures
            r is Ok ==> final(self).wf(),
            write_post(*old(self), *final(self), r),
    {
        match self.state {
            ClientState::AwaitingHandshake(_) => Ok(Vec::new()),
            ClientState::HandshakeResponse => self.write_handshake(),
            ClientState::Connected => {
                let ghost fs = frames_view(self.outgoing@);
                let mut out: Vec<u8> = Vec::new();
                let n = self.outgoing.len();
                let mut i: usize = 0;
                while i < n
                    invariant
                        0 <= i <= n,
                        n == self.outgoing@.len(),
                        fs == frames_view(self.outgoing@),
                        out@ == encode_all(fs.subrange(0, i as int)),
                    decreases n - i,
                {
                    let bytes = self.outgoing[i].encode();
                    append_bytes(&mut out, bytes.as_slice());
                    assert(fs.subrange(0, i + 1).drop_last() =~= fs.subrange(0, i as int));
                    i += 1;
                }
                assert(fs.subrange(0, n as int) =~= fs);
                self.outgoing.clear();
                self.interest = Interest::reading();
                Ok(out)
            },
        }
    }
}

/// What a read does, by the state that the connection was in.
pub open spec fn read_post<H: MessageHandler>(
    h: H,
    before: WebSocketClient,
    data: Seq<u8>,
    after: WebSocketClient,
    r: Result<(), ProtocolError>,
) -> bool {
    match before.state {
        ClientState::AwaitingHandshake(_) => {
            &&& r is Ok
            &&& handshake_read(before, data, after)
        },
        ClientState::HandshakeResponse => {
            &&& r is Ok
            &&& after.state is HandshakeResponse
            &&& after.interest == before.interest
            &&& after.headers@ == before.headers@
            &&& after.outgoing@ == before.outgoing@
            &&& after.inbound@ == before.inbound@ + data
        },
        ClientState::Connected => frames_read(h, before, before.inbound@ + data, after, r),
    }
}

/// What a write does, by the state that the connection was in.
pub open spec fn write_post(
    before: WebSocketClient,
    after: WebSocketClient,
    r: Result<Vec<u8>, ProtocolError>,
) -> bool {
    match before.state {
        ClientState::AwaitingHandshake(_) => {
            &&& r matches Ok(v) && v@.len() == 0
            &&& after == before
        },
        ClientState::HandshakeResponse => handshake_written(before, after, r),
        ClientState::Connected => {
            &&& r matches Ok(v) && v@ == encode_all(frames_view(before.outgoing@))
            &&& after.state is Connected
            &&& after.interest == read_interest()
            &&& after.headers@ == before.headers@
            &&& after.outgoing@.len() == 0
            &&& after.inbound@ == before.inbound@
        },
    }
}

/// What reading request bytes does: see `read_handshake`.
pub open spec fn handshake_read(before: WebSocketClient, data: Seq<u8>, after: WebSocketClient) -> bool {
    let p = before.state->AwaitingHandshake_0@;
    if run(p, data).complete {
        &&& after.state is HandshakeResponse
        &&& headers_view(after.headers@) == run(p, data).headers
        &&& after.interest == write_interest()
        &&& after.outgoing@ == before.outgoing@
        &&& exists|k: int|
            head_ends_at(p, data, k) && after.inbound@ == before.inbound@ + data.subrange(
                k,
                data.len() as int,
            )
    } else {
        &&& after.state matches ClientState::AwaitingHandshake(q) && q@ == run(p, data)
        &&& after.headers@ == before.headers@
        &&& after.interest == before.interest
        &&& after.outgoing@ == before.outgoing@
        &&& after.inbound@ == before.inbound@
    }
}

/// What taking the frames out of `bytes` does: the replies join the queue,
/// the bytes of a frame not yet complete stay, and the interest turns to
/// writing once a frame waits. A malformed header fails.
pub open spec fn frames_read<H: MessageHandler>(
    h: H,
    before: WebSocketClient,
    bytes: Seq<u8>,
    after: WebSocketClient,
    r: Result<(), ProtocolError>,
) -> bool {
    let d = drain(h, bytes);
    if d.2 {
        r == Err::<(), ProtocolError>(ProtocolError::MalformedFrame)
    } else {
        &&& r is Ok
        &&& after.state is Connected
        &&& after.headers@ == before.headers@
        &&& frames_view(after.outgoing@) == frames_view(before.outgoing@) + d.0
        &&& after.inbound@ == d.1
        &&& after.interest == if after.outgoing@.len() > 0 {
            write_interest()
        } else {
            before.interest
        }
    }
}

/// What writing the upgrade response does.
pub open spec fn handshake_written(
    before: WebSocketClient,
    after: WebSocketClient,
    r: Result<Vec<u8>, ProtocolError>,
) -> bool {
    match header_lookup(headers_view(before.headers@), KEY_HEADER.spec_bytes()) {
        None => r == Err::<Vec<u8>, ProtocolError>(ProtocolError::MissingKey) && after == before,
        Some(k) => {
            &&& r matches Ok(v) && v@ == handshake_response_spec(accept_key_spec(k))
            &&& after.state is Connected
            &&& after.interest == read_interest()
            &&& after.headers@ == before.headers@
            &&& after.outgoing@ == before.outgoing@
            &&& after.inbound@ == before.inbound@
            &&& after.wf()
        },
    }
}

/// A read of a connected connection that queues at least one reply leaves
/// it asking to write and not to read; so does every well-formed connected
/// state with a frame waiting, until a write empties the queue.
pub proof fn lemma_replies_turn_to_writing<H: MessageHandler>(
    h: H,
    before: WebSocketClient,
    data: Seq<u8>,
    after: WebSocketClient,
)
    requires
        before.wf(),
        before.state is Connected,
        read_post(h, before, data, after, Ok(())),
        drain(h, before.inbound@ + data).0.len() >= 1,
    ensures
        after.interest.writable,
        !after.interest.readable,
        after.wf(),
{
    assert(frames_view(after.outgoing@).len() == after.outgoing@.len());
    assert(frames_view(before.outgoing@).len() == before.outgoing@.len());
}

} // verus!
