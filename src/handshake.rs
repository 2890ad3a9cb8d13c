//! The upgrade handshake: the accept key and the response that carries it.
use vstd::prelude::*;
use vstd::string::StringSliceAdditionalSpecFns;

verus! {

/// The SHA-1 digest of a byte sequence.
pub uninterp spec fn sha1_of(data: Seq<u8>) -> Seq<u8>;

/// The padded base64 text, standard alphabet, of a byte sequence, as ASCII bytes.
pub uninterp spec fn base64_of(data: Seq<u8>) -> Seq<u8>;

/// Relies on sha1 (`Sha1::new`, `update`, `digest`, `Digest::bytes`): the
/// SHA-1 digest of `data`, a function of the bytes alone.
#[verifier::external_body]
fn sha1_digest(data: &[u8]) -> (r: [u8; 20])
    ensures
        r@ == sha1_of(data@),
{
    let mut m = sha1::Sha1::new();
    m.update(data);
    m.digest().bytes()
}

/// Relies on `base64::encode` (standard alphabet, padded): its text, which is
/// ASCII, handed back as bytes.
#[verifier::external_body]
fn base64_encode(data: &[u8; 20]) -> (r: Vec<u8>)
    ensures
        r@ == base64_of(data@),
{
    base64::encode(data).into_bytes()
}

/// The GUID that the protocol appends to a client's key.
pub const WEBSOCKET_GUID: &'static str = "258EAFA5-E914-47DA-95CA-C5AB0DC85B11";

/// The response text up to the accept key.
pub const RESPONSE_HEAD: &'static str = "HTTP/1.1 101 Switching Protocols\r\nConnection: Upgrade\r\nSec-WebSocket-Accept: ";

/// The response text after the accept key.
pub const RESPONSE_TAIL: &'static str = "\r\nUpgrade: websocket\r\n\r\n";

/// The accept key for a client's `Sec-WebSocket-Key`, taken verbatim.
pub open spec fn accept_key_spec(key: Seq<u8>) -> Seq<u8> {
    base64_of(sha1_of(key + WEBSOCKET_GUID.spec_bytes()))
}

/// The full upgrade response for an accept key; it has no body.
pub open spec fn handshake_response_spec(accept: Seq<u8>) -> Seq<u8> {
    RESPONSE_HEAD.spec_bytes() + accept + RESPONSE_TAIL.spec_bytes()
}

/// Appends the bytes of `b` to `out`.
pub fn append_bytes(out: &mut Vec<u8>, b: &[u8])
    ensures
        final(out)@ == old(out)@ + b@,
{
    let n = b.len();
    let mut i: usize = 0;
    while i < n
        invariant
            0 <= i <= n,
            n == b@.len(),
            out@ =~= old(out)@ + b@.subrange(0, i as int),
        decreases n - i,
    {
        out.push(b[i]);
        i += 1;
    }
    assert(b@.subrange(0, n as int) =~= b@);
}

/// Derives the accept key: base64 of the SHA-1 digest of the key followed by
/// the protocol GUID.
pub fn gen_key(key: &[u8]) -> (r: Vec<u8>)
    ensures
        r@ == accept_key_spec(key@),
{
    let mut data: Vec<u8> = Vec::new();
    append_bytes(&mut data, key);
    append_bytes(&mut data, WEBSOCKET_GUID.as_bytes());
    let digest = sha1_digest(data.as_slice());
    base64_encode(&digest)
}

/// The upgrade response that carries `accept`.
pub fn handshake_response(accept: &[u8]) -> (r: Vec<u8>)
    ensures
        r@ == handshake_response_spec(accept@),
{
    let mut out: Vec<u8> = Vec::new();
    append_bytes(&mut out, RESPONSE_HEAD.as_bytes());
    append_bytes(&mut out, accept);
    append_bytes(&mut out, RESPONSE_TAIL.as_bytes());
    out
}

} // verus!
