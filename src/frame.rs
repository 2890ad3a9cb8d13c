//! The WebSocket base framing: decoding client frames and encoding server frames.
use vstd::prelude::*;

verus! {

/// The kinds of frame that the base framing defines.
#[derive(Clone, Copy, Debug, PartialEq, Eq, Structural)]
pub enum OpCode {
    Continuation,
    Text,
    Binary,
    Close,
    Ping,
    Pong,
}

/// The 4-bit wire code of an opcode.
pub open spec fn opcode_bits(op: OpCode) -> u8 {
    match op {
        OpCode::Continuation => 0,
        OpCode::Text => 1,
        OpCode::Binary => 2,
        OpCode::Close => 8,
        OpCode::Ping => 9,
        OpCode::Pong => 10,
    }
}

/// The opcode that a 4-bit wire code stands for, if any.
pub open spec fn opcode_of(b: u8) -> Option<OpCode> {
    if b == 0 {
        Some(OpCode::Continuation)
    } else if b == 1 {
        Some(OpCode::Text)
    } else if b == 2 {
        Some(OpCode::Binary)
    } else if b == 8 {
        Some(OpCode::Close)
    } else if b == 9 {
        Some(OpCode::Ping)
    } else if b == 10 {
        Some(OpCode::Pong)
    } else {
        None
    }
}

impl OpCode {
    pub fn to_bits(self) -> (r: u8)
        ensures
            r == opcode_bits(self),
    {
        match self {
            OpCode::Continuation => 0,
            OpCode::Text => 1,
            OpCode::Binary => 2,
            OpCode::Close => 8,
            OpCode::Ping => 9,
            OpCode::Pong => 10,
        }
    }

    pub fn from_bits(b: u8) -> (r: Option<OpCode>)
        ensures
            r == opcode_of(b),
    {
        if b == 0 {
            Some(OpCode::Continuation)
        } else if b == 1 {
            Some(OpCode::Text)
        } else if b == 2 {
            Some(OpCode::Binary)
        } else if b == 8 {
            Some(OpCode::Close)
        } else if b == 9 {
            Some(OpCode::Ping)
        } else if b == 10 {
            Some(OpCode::Pong)
        } else {
            None
        }
    }
}

/// `256` to the power `n`.
pub open spec fn pow256(n: nat) -> nat
    decreases n,
{
    if n == 0 {
        1
    } else {
        256 * pow256((n - 1) as nat)
    }
}

/// The number that a big-endian byte sequence spells.
pub open spec fn be_value(s: Seq<u8>) -> nat
    decreases s.len(),
{
    if s.len() == 0 {
        0
    } else {
        be_value(s.drop_last()) * 256 + s.last() as nat
    }
}

/// The last `n` big-endian bytes of `v`.
pub open spec fn be_bytes(v: nat, n: nat) -> Seq<u8>
    decreases n,
{
    if n == 0 {
        seq![]
    } else {
        be_bytes(v / 256, (n - 1) as nat).push((v % 256) as u8)
    }
}

proof fn lemma_pow256_pos(n: nat)
    ensures
        pow256(n) >= 1,
    decreases n,
{
    if n > 0 {
        lemma_pow256_pos((n - 1) as nat);
    }
}

proof fn lemma_pow256_mono(a: nat, b: nat)
    requires
        a <= b,
    ensures
        pow256(a) <= pow256(b),
    decreases b,
{
    if a < b {
        lemma_pow256_mono(a, (b - 1) as nat);
        lemma_pow256_pos((b - 1) as nat);
    }
}

proof fn lemma_pow256_7()
    ensures
        pow256(7) == 72057594037927936,
{
    reveal_with_fuel(pow256, 8);
}

proof fn lemma_be_bytes_roundtrip(v: nat, n: nat)
    requires
        v < pow256(n),
    ensures
        be_bytes(v, n).len() == n,
        be_value(be_bytes(v, n)) == v,
    decreases n,
{
    if n > 0 {
        let m = (n - 1) as nat;
        assert(v / 256 < pow256(m)) by (nonlinear_arith)
            requires
                v < 256 * pow256(m),
        ;
        lemma_be_bytes_roundtrip(v / 256, m);
        let s = be_bytes(v, n);
        assert(s.drop_last() =~= be_bytes(v / 256, m));
        assert(v == (v / 256) * 256 + v % 256) by (nonlinear_arith);
    }
}

proof fn lemma_be_value_bound(s: Seq<u8>)
    ensures
        be_value(s) < pow256(s.len()),
    decreases s.len(),
{
    if s.len() > 0 {
        let p = s.drop_last();
        lemma_be_value_bound(p);
        let a = be_value(p);
        let b = s.last() as nat;
        let q = pow256(p.len());
        assert(a * 256 + b < 256 * q) by (nonlinear_arith)
            requires
                a < q,
                b < 256,
        ;
    }
}

/// Reads `n` bytes of `buf`, from `start` on, as a big-endian number.
fn read_be(buf: &[u8], start: usize, n: usize) -> (r: u64)
    requires
        start + n <= buf@.len(),
        n <= 8,
    ensures
        r as nat == be_value(buf@.subrange(start as int, start + n)),
{
    let mut acc: u64 = 0;
    let mut i: usize = start;
    let len = buf.len();
    let end = start + n;
    while i < end
        invariant
            end == start + n,
            start <= i <= start + n,
            start + n <= buf@.len(),
            n <= 8,
            acc as nat == be_value(buf@.subrange(start as int, i as int)),
        decreases end - i,
    {
        proof {
            let s = buf@.subrange(start as int, i as int);
            lemma_be_value_bound(s);
            lemma_pow256_mono(s.len(), 7);
            lemma_pow256_7();
            assert(buf@.subrange(start as int, i + 1).drop_last() =~= s);
        }
        acc = acc * 256 + buf[i] as u64;
        i += 1;
    }
    acc
}

/// Appends the last `n` big-endian bytes of `v` to `out`.
fn push_be(out: &mut Vec<u8>, v: u64, n: usize)
    requires
        n <= 8,
    ensures
        final(out)@ == old(out)@ + be_bytes(v as nat, n as nat),
    decreases n,
{
    if n > 0 {
        push_be(out, v / 256, n - 1);
        out.push((v % 256) as u8);
        proof {
            assert(final(out)@ =~= old(out)@ + be_bytes(v as nat, n as nat));
        }
    }
}

/// A frame that the connection could not take apart.
#[derive(Clone, Copy, Debug, PartialEq, Eq, Structural)]
pub enum FrameError {
    /// The opcode field holds a code that the base framing does not define.
    UnknownOpcode,
}

/// One unit of the wire protocol.
#[derive(Clone, Debug)]
pub struct Frame {
    pub fin: bool,
    pub opcode: OpCode,
    pub masked: bool,
    pub mask_key: Option<[u8; 4]>,
    pub payload: Vec<u8>,
}

/// A frame as a mathematical value.
pub struct FrameView {
    pub fin: bool,
    pub opcode: OpCode,
    pub masked: bool,
    pub mask_key: Option<Seq<u8>>,
    pub payload: Seq<u8>,
}

impl View for Frame {
    type V = FrameView;

    open spec fn view(&self) -> FrameView {
        FrameView {
            fin: self.fin,
            opcode: self.opcode,
            masked: self.masked,
            mask_key: match self.mask_key {
                Some(k) => Some(k@),
                None => None,
            },
            payload: self.payload@,
        }
    }
}

/// The views of a sequence of frames.
pub open spec fn frames_view(fs: Seq<Frame>) -> Seq<FrameView> {
    fs.map_values(|f: Frame| f@)
}

/// A final, unmasked frame as the server sends it.
pub open spec fn server_frame(fin: bool, opcode: OpCode, payload: Seq<u8>) -> FrameView {
    FrameView { fin, opcode, masked: false, mask_key: None, payload }
}

/// The first header byte: the FIN bit over the opcode.
pub open spec fn first_byte(fin: bool, op: OpCode) -> u8 {
    ((if fin { 128u8 } else { 0u8 }) + opcode_bits(op)) as u8
}

/// The payload length field: the 7-bit code, then 2 or 8 extended bytes.
pub open spec fn length_field(len: nat) -> Seq<u8> {
    if len < 126 {
        seq![len as u8]
    } else if len < 65536 {
        seq![126u8] + be_bytes(len, 2)
    } else {
        seq![127u8] + be_bytes(len, 8)
    }
}

/// The bytes of an unmasked frame.
pub open spec fn encode_spec(fin: bool, op: OpCode, payload: Seq<u8>) -> Seq<u8> {
    seq![first_byte(fin, op)] + length_field(payload.len()) + payload
}

/// Byte `i` of `p` XOR-ed with byte `i mod 4` of the key.
pub open spec fn mask_payload(p: Seq<u8>, key: Seq<u8>) -> Seq<u8> {
    Seq::new(p.len(), |i: int| p[i] ^ key[i % 4])
}

/// The bytes of a frame masked with `key`, as a client sends it.
pub open spec fn masked_wire(fin: bool, op: OpCode, key: Seq<u8>, payload: Seq<u8>) -> Seq<u8> {
    let lf = length_field(payload.len());
    seq![first_byte(fin, op), (lf[0] + 128) as u8] + lf.drop_first() + key + mask_payload(
        payload,
        key,
    )
}

/// What decoding finds at the start of a byte sequence.
pub enum Decoding {
    /// Fewer bytes than the frame needs.
    Incomplete,
    /// A header that no frame may have.
    Malformed,
    /// A frame, and the number of bytes that it took.
    Complete(FrameView, nat),
}

/// The payload length and the offset after the length field, once the
/// bytes that hold them are present.
pub open spec fn length_info(b: Seq<u8>) -> Option<(nat, nat)>
    recommends
        b.len() >= 2,
{
    let code = b[1] % 128;
    if code < 126 {
        Some((code as nat, 2))
    } else if code == 126 {
        if b.len() < 4 {
            None
        } else {
            Some((be_value(b.subrange(2, 4)), 4))
        }
    } else {
        if b.len() < 10 {
            None
        } else {
            Some((be_value(b.subrange(2, 10)), 10))
        }
    }
}

/// The frame at the start of `b`.
pub open spec fn decode_spec(b: Seq<u8>) -> Decoding {
    if b.len() < 1 {
        Decoding::Incomplete
    } else if opcode_of(b[0] % 16) is None {
        Decoding::Malformed
    } else if b.len() < 2 {
        Decoding::Incomplete
    } else {
        match length_info(b) {
            None => Decoding::Incomplete,
            Some((len, off)) => {
                let masked = b[1] >= 128;
                let hdr = if masked { off + 4 } else { off };
                if b.len() < hdr + len {
                    Decoding::Incomplete
                } else {
                    let raw = b.subrange(hdr as int, (hdr + len) as int);
                    let key = b.subrange(off as int, (off + 4) as int);
                    Decoding::Complete(
                        FrameView {
                            fin: b[0] >= 128,
                            opcode: opcode_of(b[0] % 16).unwrap(),
                            masked,
                            mask_key: if masked {
                                Some(key)
                            } else {
                                None
                            },
                            payload: if masked {
                                mask_payload(raw, key)
                            } else {
                                raw
                            },
                        },
                        (hdr + len) as nat,
                    )
                }
            },
        }
    }
}

impl Frame {
    /// A final, unmasked text frame.
    pub fn text(payload: Vec<u8>) -> (r: Frame)
        ensures
            r@ == server_frame(true, OpCode::Text, payload@),
    {
        Frame { fin: true, opcode: OpCode::Text, masked: false, mask_key: None, payload }
    }

    /// The bytes that the server sends for this frame: FIN, opcode, length
    /// and payload, never masked.
    pub fn encode(&self) -> (r: Vec<u8>)
        ensures
            r@ == encode_spec(self.fin, self.opcode, self.payload@),
    {
        let mut out: Vec<u8> = Vec::new();
        let fin: u8 = if self.fin { 128 } else { 0 };
        out.push(fin + self.opcode.to_bits());
        let len = self.payload.len();
        if len < 126 {
            out.push(len as u8);
        } else if len < 65536 {
            out.push(126);
            push_be(&mut out, len as u64, 2);
        } else {
            out.push(127);
            push_be(&mut out, len as u64, 8);
        }
        let ghost head = out@;
        assert(head =~= seq![first_byte(self.fin, self.opcode)] + length_field(len as nat));
        let mut i: usize = 0;
        while i < len
            invariant
                0 <= i <= len,
                len == self.payload@.len(),
                out@ =~= head + self.payload@.subrange(0, i as int),
            decreases len - i,
        {
            out.push(self.payload[i]);
            i += 1;
        }
        assert(self.payload@.subrange(0, len as int) =~= self.payload@);
        out
    }
}

/// Copies `n` bytes of `buf` from `start` on, XOR-ing byte `i` with
/// `key[i mod 4]` where a key is given.
fn copy_payload(buf: &[u8], start: usize, n: usize, key: Option<[u8; 4]>) -> (r: Vec<u8>)
    requires
        start + n <= buf@.len(),
    ensures
        r@ == match key {
            Some(k) => mask_payload(buf@.subrange(start as int, start + n), k@),
            None => buf@.subrange(start as int, start + n),
        },
{
    let mut out: Vec<u8> = Vec::new();
    let ghost raw = buf@.subrange(start as int, start + n);
    let blen = buf.len();
    let mut i: usize = 0;
    while i < n
        invariant
            0 <= i <= n,
            blen == buf@.len(),
            start + n <= buf@.len(),
            raw == buf@.subrange(start as int, start + n),
            out@.len() == i,
            forall|j: int|
                0 <= j < i ==> out@[j] == match key {
                    Some(k) => raw[j] ^ k@[j % 4],
                    None => raw[j],
                },
        decreases n - i,
    {
        let b = buf[start + i];
        match key {
            Some(k) => out.push(b ^ k[i % 4]),
            None => out.push(b),
        }
        i += 1;
    }
    match key {
        Some(k) => assert(out@ =~= mask_payload(raw, k@)),
        None => assert(out@ =~= raw),
    }
    out
}

/// Takes apart the frame at the start of `buf`, unmasking its payload:
/// `Ok(None)` while bytes of it are missing, with the number of bytes that
/// the frame took.
pub fn decode(buf: &[u8]) -> (r: Result<Option<(Frame, usize)>, FrameError>)
    ensures
        match r {
            Err(_) => decode_spec(buf@) is Malformed,
            Ok(None) => decode_spec(buf@) is Incomplete,
            Ok(Some((f, n))) => decode_spec(buf@) == Decoding::Complete(f@, n as nat) && 0 < n
                <= buf@.len(),
        },
{
    let blen = buf.len();
    if blen < 1 {
        return Ok(None);
    }
    let b0 = buf[0];
    let opcode = match OpCode::from_bits(b0 % 16) {
        None => return Err(FrameError::UnknownOpcode),
        Some(op) => op,
    };
    if blen < 2 {
        return Ok(None);
    }
    let b1 = buf[1];
    let code = b1 % 128;
    let len: u64;
    let off: usize;
    if code < 126 {
        len = code as u64;
        off = 2;
    } else if code == 126 {
        if blen < 4 {
            return Ok(None);
        }
        len = read_be(buf, 2, 2);
        off = 4;
    } else {
        if blen < 10 {
            return Ok(None);
        }
        len = read_be(buf, 2, 8);
        off = 10;
    }
    assert(length_info(buf@) == Some((len as nat, off as nat)));
    let masked = b1 >= 128;
    let hdr: usize = if masked { off + 4 } else { off };
    if blen < hdr {
        return Ok(None);
    }
    if len > (blen - hdr) as u64 {
        return Ok(None);
    }
    let n = len as usize;
    let key: Option<[u8; 4]> = if masked {
        Some([buf[off], buf[off + 1], buf[off + 2], buf[off + 3]])
    } else {
        None
    };
    proof {
        if masked {
            assert(key.unwrap()@ =~= buf@.subrange(off as int, off + 4));
        }
    }
    let payload = copy_payload(buf, hdr, n, key);
    Ok(Some((Frame { fin: b0 >= 128, opcode, masked, mask_key: key, payload }, hdr + n)))
}

proof fn lemma_first_byte(fin: bool, op: OpCode)
    ensures
        first_byte(fin, op) % 16 == opcode_bits(op),
        opcode_of(first_byte(fin, op) % 16) == Some(op),
        (first_byte(fin, op) >= 128) == fin,
{
}

/// The length field and the bytes that follow it: the code is below 128,
/// and the extended bytes spell the length.
proof fn lemma_length_field(b0: u8, len: nat, rest: Seq<u8>)
    requires
        len < pow256(8),
    ensures
        length_field(len).len() >= 1,
        length_field(len)[0] < 128,
        ({
            let b = seq![b0] + length_field(len) + rest;
            let b2 = seq![b0, (length_field(len)[0] + 128) as u8] + length_field(len).drop_first() + rest;
            &&& length_info(b) == Some((len, (1 + length_field(len).len()) as nat))
            &&& length_info(b2) == Some((len, (1 + length_field(len).len()) as nat))
        }),
{
    let lf = length_field(len);
    let b = seq![b0] + lf + rest;
    let b2 = seq![b0, (lf[0] + 128) as u8] + lf.drop_first() + rest;
    if len < 126 {
    } else if len < 65536 {
        reveal_with_fuel(pow256, 3);
        lemma_be_bytes_roundtrip(len, 2);
        assert(b.subrange(2, 4) =~= be_bytes(len, 2));
        assert(b2.subrange(2, 4) =~= be_bytes(len, 2));
    } else {
        lemma_be_bytes_roundtrip(len, 8);
        assert(b.subrange(2, 10) =~= be_bytes(len, 8));
        assert(b2.subrange(2, 10) =~= be_bytes(len, 8));
    }
}

/// Decoding the bytes of a server frame gives back its FIN bit, opcode and
/// payload, unmasked, and takes all of its bytes.
pub proof fn lemma_decode_encode(fin: bool, op: OpCode, payload: Seq<u8>)
    requires
        payload.len() < pow256(8),
    ensures
        decode_spec(encode_spec(fin, op, payload)) == Decoding::Complete(
            server_frame(fin, op, payload),
            encode_spec(fin, op, payload).len(),
        ),
{
    let b = encode_spec(fin, op, payload);
    let lf = length_field(payload.len());
    lemma_first_byte(fin, op);
    lemma_length_field(first_byte(fin, op), payload.len(), payload);
    let off: int = 1 + lf.len() as int;
    assert(b.subrange(off, off + payload.len()) =~= payload);
}

proof fn lemma_unmask(p: Seq<u8>, key: Seq<u8>)
    requires
        key.len() == 4,
    ensures
        mask_payload(mask_payload(p, key), key) == p,
{
    assert forall|i: int| 0 <= i < p.len() implies mask_payload(mask_payload(p, key), key)[i]
        == p[i] by {
        let a = p[i];
        let c = key[i % 4];
        assert((a ^ c) ^ c == a) by (bit_vector);
    }
    assert(mask_payload(mask_payload(p, key), key) =~= p);
}

/// A frame that a client masked with a 4-byte key decodes, by the cyclic
/// XOR rule, to the payload that the client started from.
pub proof fn lemma_decode_masked(fin: bool, op: OpCode, key: Seq<u8>, payload: Seq<u8>)
    requires
        key.len() == 4,
        payload.len() < pow256(8),
    ensures
        decode_spec(masked_wire(fin, op, key, payload)) == Decoding::Complete(
            FrameView { fin, opcode: op, masked: true, mask_key: Some(key), payload },
            masked_wire(fin, op, key, payload).len(),
        ),
{
    let b = masked_wire(fin, op, key, payload);
    let lf = length_field(payload.len());
    let rest = key + mask_payload(payload, key);
    lemma_first_byte(fin, op);
    lemma_length_field(first_byte(fin, op), payload.len(), rest);
    assert(b =~= seq![first_byte(fin, op), (lf[0] + 128) as u8] + lf.drop_first() + rest);
    let off: int = 1 + lf.len() as int;
    assert(b.subrange(off, off + 4) =~= key);
    assert(b.subrange(off + 4, off + 4 + payload.len()) =~= mask_payload(payload, key));
    lemma_unmask(payload, key);
}

} // verus!
