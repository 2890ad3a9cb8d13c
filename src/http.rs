//! An incremental reader of the HTTP upgrade request: the request line, then
//! `Name: value` lines, up to the blank line that ends the header block.
use vstd::prelude::*;

verus! {

/// One header line, split at its first colon.
#[derive(Clone, Debug)]
pub struct Header {
    pub name: Vec<u8>,
    pub value: Vec<u8>,
}

impl View for Header {
    type V = (Seq<u8>, Seq<u8>);

    open spec fn view(&self) -> (Seq<u8>, Seq<u8>) {
        (self.name@, self.value@)
    }
}

/// The headers as a sequence of (name, value) pairs, in arrival order.
pub open spec fn headers_view(hs: Seq<Header>) -> Seq<(Seq<u8>, Seq<u8>)> {
    hs.map_values(|h: Header| h@)
}

/// The value of the last header named `name`: a later line of the same name
/// overrides an earlier one.
pub open spec fn header_lookup(hs: Seq<(Seq<u8>, Seq<u8>)>, name: Seq<u8>) -> Option<Seq<u8>>
    decreases hs.len(),
{
    if hs.len() == 0 {
        None
    } else if hs.last().0 == name {
        Some(hs.last().1)
    } else {
        header_lookup(hs.drop_last(), name)
    }
}

/// The state of the reader as a mathematical value.
pub struct ParserView {
    /// The bytes of the line being read.
    pub line: Seq<u8>,
    pub request_line_seen: bool,
    pub headers: Seq<(Seq<u8>, Seq<u8>)>,
    /// The blank line that ends the header block has been read.
    pub complete: bool,
}

pub open spec fn is_ws(b: u8) -> bool {
    b == 32 || b == 9
}

/// `s` without its leading spaces and tabs.
pub open spec fn trim_start(s: Seq<u8>) -> Seq<u8>
    decreases s.len(),
{
    if s.len() > 0 && is_ws(s[0]) {
        trim_start(s.drop_first())
    } else {
        s
    }
}

/// `s` without its trailing spaces and tabs.
pub open spec fn trim_end(s: Seq<u8>) -> Seq<u8>
    decreases s.len(),
{
    if s.len() > 0 && is_ws(s.last()) {
        trim_end(s.drop_last())
    } else {
        s
    }
}

/// `i` is the index of the first colon of `l`.
pub open spec fn is_first_colon(l: Seq<u8>, i: int) -> bool {
    0 <= i < l.len() && l[i] == 58 && forall|j: int| 0 <= j < i ==> l[j] != 58
}

/// A header line: the name before the first colon, the value after it
/// without surrounding whitespace. A line without a colon is no header.
pub open spec fn parse_header_line(l: Seq<u8>) -> Option<(Seq<u8>, Seq<u8>)> {
    if exists|i: int| is_first_colon(l, i) {
        let i = choose|i: int| is_first_colon(l, i);
        Some((l.subrange(0, i), trim_end(trim_start(l.subrange(i + 1, l.len() as int)))))
    } else {
        None
    }
}

/// The reader before any byte.
pub open spec fn initial_parser() -> ParserView {
    ParserView { line: seq![], request_line_seen: false, headers: seq![], complete: false }
}

/// The reader after one more byte. A line ends at CR LF; the first is the
/// request line, an empty one ends the block, bytes after that are not read.
pub open spec fn step(st: ParserView, b: u8) -> ParserView {
    if st.complete {
        st
    } else if b == 10 && st.line.len() > 0 && st.line.last() == 13 {
        let l = st.line.drop_last();
        if !st.request_line_seen {
            ParserView { line: seq![], request_line_seen: true, headers: st.headers, complete: false }
        } else if l.len() == 0 {
            ParserView { line: seq![], request_line_seen: true, headers: st.headers, complete: true }
        } else {
            ParserView {
                line: seq![],
                request_line_seen: true,
                headers: match parse_header_line(l) {
                    Some(h) => st.headers.push(h),
                    None => st.headers,
                },
                complete: false,
            }
        }
    } else {
        ParserView {
            line: st.line.push(b),
            request_line_seen: st.request_line_seen,
            headers: st.headers,
            complete: false,
        }
    }
}

/// The reader after a sequence of bytes.
pub open spec fn run(st: ParserView, s: Seq<u8>) -> ParserView
    decreases s.len(),
{
    if s.len() == 0 {
        st
    } else {
        step(run(st, s.drop_last()), s.last())
    }
}

/// The bytes of several reads, one after the other.
pub open spec fn concat_reads(reads: Seq<Seq<u8>>) -> Seq<u8>
    decreases reads.len(),
{
    if reads.len() == 0 {
        seq![]
    } else {
        concat_reads(reads.drop_last()) + reads.last()
    }
}

/// The reader after several reads, each fed in turn.
pub open spec fn run_reads(st: ParserView, reads: Seq<Seq<u8>>) -> ParserView
    decreases reads.len(),
{
    if reads.len() == 0 {
        st
    } else {
        run(run_reads(st, reads.drop_last()), reads.last())
    }
}

/// A complete reader stays as it is.
pub proof fn lemma_run_complete(st: ParserView, s: Seq<u8>)
    requires
        st.complete,
    ensures
        run(st, s) == st,
    decreases s.len(),
{
    if s.len() > 0 {
        lemma_run_complete(st, s.drop_last());
    }
}

/// Feeding `a` and then `b` is feeding `a + b`.
pub proof fn lemma_run_append(st: ParserView, a: Seq<u8>, b: Seq<u8>)
    ensures
        run(st, a + b) == run(run(st, a), b),
    decreases b.len(),
{
    if b.len() == 0 {
        assert(a + b =~= a);
    } else {
        lemma_run_append(st, a, b.drop_last());
        assert((a + b).drop_last() =~= a + b.drop_last());
    }
}

/// However the bytes of a request are split across reads, the reader ends in
/// the state, header list included, that one read of all of them gives.
pub proof fn lemma_split_reads(st: ParserView, reads: Seq<Seq<u8>>)
    ensures
        run_reads(st, reads) == run(st, concat_reads(reads)),
    decreases reads.len(),
{
    if reads.len() > 0 {
        lemma_split_reads(st, reads.drop_last());
        lemma_run_append(st, concat_reads(reads.drop_last()), reads.last());
    }
}

/// Copies `l[lo..hi]`.
fn copy_range(l: &Vec<u8>, lo: usize, hi: usize) -> (r: Vec<u8>)
    requires
        lo <= hi <= l@.len(),
    ensures
        r@ == l@.subrange(lo as int, hi as int),
{
    let mut out: Vec<u8> = Vec::new();
    let mut i: usize = lo;
    while i < hi
        invariant
            lo <= i <= hi <= l@.len(),
            out@ =~= l@.subrange(lo as int, i as int),
        decreases hi - i,
    {
        out.push(l[i]);
        i += 1;
    }
    out
}

/// The bounds of `l[lo..hi]` without surrounding whitespace.
fn trim_range(l: &Vec<u8>, lo: usize, hi: usize) -> (r: (usize, usize))
    requires
        lo <= hi <= l@.len(),
    ensures
        lo <= r.0 <= r.1 <= hi,
        l@.subrange(r.0 as int, r.1 as int) == trim_end(trim_start(l@.subrange(lo as int, hi as int))),
{
    let mut a: usize = lo;
    while a < hi && (l[a] == 32 || l[a] == 9)
        invariant
            lo <= a <= hi <= l@.len(),
            trim_start(l@.subrange(lo as int, hi as int)) == trim_start(l@.subrange(a as int, hi as int)),
        decreases hi - a,
    {
        assert(l@.subrange(a as int, hi as int).drop_first() =~= l@.subrange(a + 1, hi as int));
        a += 1;
    }
    let mut b: usize = hi;
    while b > a && (l[b - 1] == 32 || l[b - 1] == 9)
        invariant
            lo <= a <= b <= hi <= l@.len(),
            trim_end(trim_start(l@.subrange(lo as int, hi as int))) == trim_end(l@.subrange(a as int, b as int)),
        decreases b - a,
    {
        assert(l@.subrange(a as int, b as int).drop_last() =~= l@.subrange(a as int, b - 1));
        b -= 1;
    }
    (a, b)
}

/// Splits a header line, as `parse_header_line` does.
fn parse_header(l: &Vec<u8>, len: usize) -> (r: Option<Header>)
    requires
        len <= l@.len(),
    ensures
        match r {
            Some(h) => parse_header_line(l@.subrange(0, len as int)) == Some(h@),
            None => parse_header_line(l@.subrange(0, len as int)) is None,
        },
{
    let ghost s = l@.subrange(0, len as int);
    let mut i: usize = 0;
    while i < len && l[i] != 58
        invariant
            0 <= i <= len <= l@.len(),
            s == l@.subrange(0, len as int),
            forall|j: int| 0 <= j < i ==> s[j] != 58,
        decreases len - i,
    {
        i += 1;
    }
    if i == len {
        assert forall|k: int| !is_first_colon(s, k) by {
            if 0 <= k < s.len() {
                assert(s[k] != 58);
            }
        }
        return None;
    }
    assert(is_first_colon(s, i as int));
    proof {
        let c = choose|k: int| is_first_colon(s, k);
        if c < i {
            assert(s[c] != 58);
        } else if c > i {
            assert(s[i as int] != 58);
        }
        assert(s.subrange(i + 1, s.len() as int) =~= l@.subrange(i + 1, len as int));
        assert(s.subrange(0, i as int) =~= l@.subrange(0, i as int));
    }
    let (a, b) = trim_range(l, i + 1, len);
    let name = copy_range(l, 0, i);
    let value = copy_range(l, a, b);
    Some(Header { name, value })
}

/// Byte-for-byte equality.
pub fn bytes_eq(a: &[u8], b: &[u8]) -> (r: bool)
    ensures
        r == (a@ == b@),
{
    let n = a.len();
    if n != b.len() {
        return false;
    }
    let mut i: usize = 0;
    while i < n
        invariant
            0 <= i <= n,
            n == a@.len(),
            n == b@.len(),
            forall|j: int| 0 <= j < i ==> a@[j] == b@[j],
        decreases n - i,
    {
        if a[i] != b[i] {
            return false;
        }
        i += 1;
    }
    assert(a@ =~= b@);
    true
}

/// The value of the last header named `name`.
pub fn find_header(headers: &Vec<Header>, name: &[u8]) -> (r: Option<Vec<u8>>)
    ensures
        match r {
            Some(v) => header_lookup(headers_view(headers@), name@) == Some(v@),
            None => header_lookup(headers_view(headers@), name@) is None,
        },
{
    let ghost hs = headers_view(headers@);
    let mut i: usize = headers.len();
    assert(hs.subrange(0, i as int) =~= hs);
    while i > 0
        invariant
            i <= headers@.len(),
            hs == headers_view(headers@),
            header_lookup(hs, name@) == header_lookup(hs.subrange(0, i as int), name@),
        decreases i,
    {
        let h = &headers[i - 1];
        let ghost t = hs.subrange(0, i as int);
        assert(t.last() == h@);
        assert(t.drop_last() =~= hs.subrange(0, i - 1));
        if bytes_eq(h.name.as_slice(), name) {
            return Some(h.value.clone());
        }
        i -= 1;
    }
    None
}

/// The reader of the upgrade request.
#[derive(Clone, Debug)]
pub struct HttpParser {
    pub line: Vec<u8>,
    pub request_line_seen: bool,
    pub headers: Vec<Header>,
    pub complete: bool,
}

impl View for HttpParser {
    type V = ParserView;

    open spec fn view(&self) -> ParserView {
        ParserView {
            line: self.line@,
            request_line_seen: self.request_line_seen,
            headers: headers_view(self.headers@),
            complete: self.complete,
        }
    }
}

impl HttpParser {
    pub fn new() -> (r: HttpParser)
        ensures
            r@ == initial_parser(),
    {
        let r = HttpParser { line: Vec::new(), request_line_seen: false, headers: Vec::new(), complete: false };
        assert(r@.headers =~= seq![]);
        r
    }

    /// Reads one byte.
    fn step(&mut self, b: u8)
        ensures
            final(self)@ == step(old(self)@, b),
    {
        if self.complete {
            return;
        }
        let n = self.line.len();
        if b == 10 && n > 0 && self.line[n - 1] == 13 {
            assert(old(self)@.line.drop_last() =~= self.line@.subrange(0, n - 1));
            if !self.request_line_seen {
                self.request_line_seen = true;
            } else if n == 1 {
                self.complete = true;
            } else {
                match parse_header(&self.line, n - 1) {
                    Some(h) => {
                        self.headers.push(h);
                        assert(headers_view(self.headers@) =~= headers_view(old(self).headers@).push(h@));
                    },
                    None => {},
                }
            }
            self.line = Vec::new();
            assert(self@.line =~= seq![]);
        } else {
            self.line.push(b);
        }
    }

    /// Reads bytes of `data` up to the end of the header block, and says how
    /// many it read: all of them while the block is not complete.
    pub fn feed(&mut self, data: &[u8]) -> (consumed: usize)
        ensures
            consumed <= data@.len(),
            final(self)@ == run(old(self)@, data@.subrange(0, consumed as int)),
            final(self)@ == run(old(self)@, data@),
            !final(self)@.complete ==> consumed == data@.len(),
            old(self)@.complete ==> consumed == 0,
            !old(self)@.complete && final(self)@.complete ==> consumed > 0 && !run(
                old(self)@,
                data@.subrange(0, consumed - 1),
            ).complete,
    {
        let n = data.len();
        let mut i: usize = 0;
        while i < n && !self.complete
            invariant
                0 <= i <= n,
                n == data@.len(),
                self@ == run(old(self)@, data@.subrange(0, i as int)),
                old(self)@.complete ==> i == 0,
                !old(self)@.complete && self@.complete ==> i > 0 && !run(
                    old(self)@,
                    data@.subrange(0, i - 1),
                ).complete,
            decreases n - i,
        {
            self.step(data[i]);
            assert(data@.subrange(0, i + 1).drop_last() =~= data@.subrange(0, i as int));
            i += 1;
        }
        proof {
            lemma_run_append(old(self)@, data@.subrange(0, i as int), data@.subrange(i as int, n as int));
            assert(data@.subrange(0, i as int) + data@.subrange(i as int, n as int) =~= data@);
            if i < n {
                lemma_run_complete(self@, data@.subrange(i as int, n as int));
            } else {
                assert(data@.subrange(i as int, n as int) =~= seq![]);
            }
        }
        i
    }
}

} // verus!
