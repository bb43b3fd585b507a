use crate::error::NetconfClientError;
use crate::scan::{find_from, trimmed_end};
use memmem::{Searcher, TwoWaySearcher};
use vstd::prelude::*;
use vstd::string::StringSliceAdditionalSpecFns;
use vstd::utf8::{decode_utf8, valid_utf8};

verus! {

/// Outcome of scanning a chunk header.
#[derive(Debug, Clone, Copy, PartialEq, Eq)]
pub enum HeaderScan {
    /// More bytes are needed to decide.
    Incomplete,
    /// The header breaks the grammar at a byte: what was expected there, and what came.
    Malformed { expected: char, actual: char },
    /// A complete header giving the chunk size (0 ends the message); `end` is
    /// the index just past its final line feed.
    Complete { size: u32, end: usize },
}

pub open spec fn is_digit(b: u8) -> bool {
    48 <= b <= 57
}

/// Scans the digits of a chunk header from index `i`, with `acc` the value
/// of the digits read so far. A `#` is passed over; a line feed ends the header.
pub open spec fn header_digits(s: Seq<u8>, i: int, acc: int) -> HeaderScan
    decreases s.len() - i,
{
    if i < 0 || i >= s.len() {
        HeaderScan::Incomplete
    } else if s[i] == 35u8 {
        header_digits(s, i + 1, acc)
    } else if s[i] == 10u8 {
        HeaderScan::Complete { size: acc as u32, end: (i + 1) as usize }
    } else if !is_digit(s[i]) {
        HeaderScan::Malformed { expected: '0', actual: s[i] as char }
    } else if acc * 10 + (s[i] - 48) > u32::MAX {
        HeaderScan::Malformed { expected: '\n', actual: s[i] as char }
    } else {
        header_digits(s, i + 1, acc * 10 + (s[i] - 48))
    }
}

/// The chunk header that starts at index `pos` of `s`: a line feed, `#`,
/// then decimal digits (or `#`) up to a line feed.
pub open spec fn header_at(s: Seq<u8>, pos: int) -> HeaderScan {
    if pos >= s.len() {
        HeaderScan::Incomplete
    } else if s[pos] != 10u8 {
        HeaderScan::Malformed { expected: '\n', actual: s[pos] as char }
    } else if pos + 1 >= s.len() {
        HeaderScan::Incomplete
    } else if s[pos + 1] != 35u8 {
        HeaderScan::Malformed { expected: '#', actual: s[pos + 1] as char }
    } else {
        header_digits(s, pos + 2, 0)
    }
}

/// Scans the chunk header at `pos` of `buf`.
pub fn read_header(buf: &[u8], pos: usize) -> (r: HeaderScan)
    ensures
        r == header_at(buf@, pos as int),
{
    if pos >= buf.len() {
        return HeaderScan::Incomplete;
    }
    if buf[pos] != 10u8 {
        return HeaderScan::Malformed { expected: '\n', actual: buf[pos] as char };
    }
    if pos + 1 >= buf.len() {
        return HeaderScan::Incomplete;
    }
    if buf[pos + 1] != 35u8 {
        return HeaderScan::Malformed { expected: '#', actual: buf[pos + 1] as char };
    }
    let mut i: usize = pos + 2;
    let mut acc: u32 = 0;
    while i < buf.len()
        invariant
            pos + 2 <= i <= buf.len(),
            header_at(buf@, pos as int) == header_digits(buf@, i as int, acc as int),
        decreases buf.len() - i,
    {
        let c = buf[i];
        if c == 35u8 {
            i = i + 1;
        } else if c == 10u8 {
            return HeaderScan::Complete { size: acc, end: i + 1 };
        } else if c < 48u8 || c > 57u8 {
            return HeaderScan::Malformed { expected: '0', actual: c as char };
        } else {
            let d: u32 = (c - 48u8) as u32;
            if acc > (u32::MAX - d) / 10 {
                return HeaderScan::Malformed { expected: '\n', actual: c as char };
            }
            acc = acc * 10 + d;
            i = i + 1;
        }
    }
    HeaderScan::Incomplete
}


/// Outcome of scanning a chunked (base 1.1) message.
pub enum ChunkedScan {
    Incomplete,
    Malformed { expected: char, actual: char },
    /// The message is complete: its payload, and the index just past its end-of-chunks marker.
    Done { payload: Seq<u8>, end: int },
}

/// Scans chunks from the header at `pos`, with `acc` the payload gathered so far.
pub open spec fn chunks_from(s: Seq<u8>, pos: int, acc: Seq<u8>) -> ChunkedScan
    decreases s.len() - pos,
{
    match header_at(s, pos) {
        HeaderScan::Incomplete => ChunkedScan::Incomplete,
        HeaderScan::Malformed { expected, actual } => ChunkedScan::Malformed { expected, actual },
        HeaderScan::Complete { size, end } => {
            if size == 0 {
                ChunkedScan::Done { payload: acc, end: end as int }
            } else if end + size > s.len() || end <= pos {
                ChunkedScan::Incomplete
            } else {
                chunks_from(s, end + size, acc + s.subrange(end as int, end + size))
            }
        },
    }
}

/// The first message of a chunked byte stream.
pub open spec fn chunked_scan(s: Seq<u8>) -> ChunkedScan {
    chunks_from(s, 0, Seq::empty())
}

/// Outcome of reading a chunked message from a buffer.
#[derive(Debug)]
pub enum ChunkedRead {
    Incomplete,
    Malformed { expected: char, actual: char },
    Done { payload: Vec<u8>, end: usize },
}

pub open spec fn chunked_read_matches(r: ChunkedRead, scan: ChunkedScan) -> bool {
    match (r, scan) {
        (ChunkedRead::Incomplete, ChunkedScan::Incomplete) => true,
        (
            ChunkedRead::Malformed { expected: e1, actual: a1 },
            ChunkedScan::Malformed { expected: e2, actual: a2 },
        ) => e1 == e2 && a1 == a2,
        (ChunkedRead::Done { payload, end: e1 }, ChunkedScan::Done { payload: p2, end: e2 }) => {
            payload@ == p2 && e1 as int == e2
        },
        _ => false,
    }
}

proof fn lemma_header_digits_bounds(s: Seq<u8>, i: int, acc: int)
    requires
        0 <= i,
        s.len() <= usize::MAX,
    ensures
        header_digits(s, i, acc) matches HeaderScan::Complete { end, .. } ==> i < end <= s.len(),
    decreases s.len() - i,
{
    if i < s.len() && (s[i] == 35u8 || (s[i] != 10u8 && is_digit(s[i]) && acc * 10 + (s[i]
        - 48) <= u32::MAX)) {
        if s[i] == 35u8 {
            lemma_header_digits_bounds(s, i + 1, acc);
        } else {
            lemma_header_digits_bounds(s, i + 1, acc * 10 + (s[i] - 48));
        }
    }
}

/// A complete header lies inside the buffer and past its start.
pub proof fn lemma_header_bounds(s: Seq<u8>, pos: int)
    requires
        0 <= pos,
        s.len() <= usize::MAX,
    ensures
        header_at(s, pos) matches HeaderScan::Complete { end, .. } ==> pos + 3 <= end <= s.len(),
{
    if pos + 1 < s.len() && s[pos] == 10u8 && s[pos + 1] == 35u8 {
        lemma_header_digits_bounds(s, pos + 2, 0);
    }
}

/// Reads the first chunked message of `buf`.
pub fn read_chunked(buf: &[u8]) -> (r: ChunkedRead)
    ensures
        chunked_read_matches(r, chunked_scan(buf@)),
{
    let mut pos: usize = 0;
    let mut acc: Vec<u8> = Vec::new();
    while pos < buf.len()
        invariant
            pos <= buf.len(),
            chunked_scan(buf@) == chunks_from(buf@, pos as int, acc@),
        decreases buf.len() - pos,
    {
        let h = read_header(buf, pos);
        proof {
            lemma_header_bounds(buf@, pos as int);
        }
        match h {
            HeaderScan::Incomplete => {
                return ChunkedRead::Incomplete;
            },
            HeaderScan::Malformed { expected, actual } => {
                return ChunkedRead::Malformed { expected, actual };
            },
            HeaderScan::Complete { size, end } => {
                if size == 0 {
                    return ChunkedRead::Done { payload: acc, end };
                }
                if size as usize > buf.len() - end {
                    return ChunkedRead::Incomplete;
                }
                let next: usize = end + size as usize;
                let ghost old_acc = acc@;
                let mut k: usize = end;
                while k < next
                    invariant
                        end <= k <= next <= buf.len(),
                        acc@ == old_acc + buf@.subrange(end as int, k as int),
                    decreases next - k,
                {
                    acc.push(buf[k]);
                    proof {
                        assert(buf@.subrange(end as int, k + 1) == buf@.subrange(end as int, k as int).push(buf@[k as int]));
                    }
                    k = k + 1;
                }
                pos = next;
            },
        }
    }
    proof {
        assert(header_at(buf@, pos as int) == HeaderScan::Incomplete);
    }
    ChunkedRead::Incomplete
}


/// The base 1.0 end-of-message marker `]]>]]>`.
pub open spec fn eom_marker() -> Seq<u8> {
    seq![93u8, 93u8, 62u8, 93u8, 93u8, 62u8]
}

/// The base 1.1 end-of-chunks marker `\n##\n`.
pub open spec fn end_of_chunks() -> Seq<u8> {
    seq![10u8, 35u8, 35u8, 10u8]
}

/// Decimal digits of `n`, most significant first, without leading zeros.
pub open spec fn decimal(n: nat) -> Seq<u8>
    decreases n,
{
    if n < 10 {
        seq![(48 + n) as u8]
    } else {
        decimal(n / 10).push((48 + n % 10) as u8)
    }
}

/// The base 1.0 framing of a payload.
pub open spec fn eom_frame(m: Seq<u8>) -> Seq<u8> {
    m + eom_marker()
}

/// The largest chunk a header can announce.
pub const MAX_CHUNK: usize = 4294967295;

/// One chunk: its header with the byte length, then the bytes.
pub open spec fn chunk(m: Seq<u8>) -> Seq<u8> {
    seq![10u8, 35u8] + decimal(m.len()) + seq![10u8] + m
}

/// A payload as chunks of `MAX_CHUNK` bytes, the last one shorter; a
/// payload that fits one chunk (the empty one included) is one chunk.
pub open spec fn chunks(m: Seq<u8>) -> Seq<u8>
    decreases m.len(),
{
    if m.len() <= u32::MAX {
        chunk(m)
    } else {
        chunk(m.subrange(0, u32::MAX as int)) + chunks(m.subrange(u32::MAX as int, m.len() as int))
    }
}

/// The base 1.1 framing of a payload: its chunks, then the end-of-chunks marker.
pub open spec fn chunked_frame(m: Seq<u8>) -> Seq<u8> {
    chunks(m) + end_of_chunks()
}

/// The base 1.1 framing of a payload as chunks of one byte each.
pub open spec fn byte_chunks(m: Seq<u8>) -> Seq<u8>
    decreases m.len(),
{
    if m.len() == 0 {
        end_of_chunks()
    } else {
        seq![10u8, 35u8, 49u8, 10u8, m[0]] + byte_chunks(m.drop_first())
    }
}

/// What a read of a received message returns: the bytes decoded as UTF-8
/// with invalid sequences replaced, then trimmed of trailing whitespace.
pub open spec fn message_text(payload: Seq<u8>) -> Seq<char> {
    trimmed_end(lossy_text(payload))
}

/// The text `String::from_utf8_lossy` makes of a byte sequence.
pub uninterp spec fn lossy_text(b: Seq<u8>) -> Seq<char>;


/// Relies on `String::from_utf8_lossy`: the text of `b` with each invalid
/// UTF-8 sequence replaced, and valid UTF-8 decoded as it is.
#[verifier::external_body]
fn utf8_lossy(b: &[u8]) -> (r: String)
    ensures
        r@ == lossy_text(b@),
        valid_utf8(b@) ==> r@ == decode_utf8(b@),
{
    String::from_utf8_lossy(b).into_owned()
}

/// Relies on `str::trim_end`: `s` without trailing whitespace.
#[verifier::external_body]
fn trim_end(s: &str) -> (r: String)
    ensures
        r@ == trimmed_end(s@),
{
    s.trim_end().to_string()
}

/// Relies on memmem's `TwoWaySearcher::search_in`: the index of the first
/// occurrence of `needle` in `haystack`.
#[verifier::external_body]
fn first_occurrence(needle: &[u8], haystack: &[u8]) -> (r: Option<usize>)
    requires
        needle@.len() > 0,
    ensures
        r matches Some(k) ==> find_from(haystack@, needle@, 0) == Some(k as int),
        r is None ==> find_from(haystack@, needle@, 0) is None,
{
    TwoWaySearcher::new(needle).search_in(haystack)
}

/// The text of a received message payload.
pub fn decode_message_text(payload: &[u8]) -> (r: String)
    ensures
        r@ == message_text(payload@),
        valid_utf8(payload@) ==> r@ == trimmed_end(decode_utf8(payload@)),
{
    let text = utf8_lossy(payload);
    trim_end(text.as_str())
}

fn push_decimal(out: &mut Vec<u8>, n: usize)
    ensures
        final(out)@ == old(out)@ + decimal(n as nat),
    decreases n,
{
    if n >= 10 {
        push_decimal(out, n / 10);
    }
    out.push(48u8 + (n % 10) as u8);
}

fn push_bytes(out: &mut Vec<u8>, b: &[u8])
    ensures
        final(out)@ == old(out)@ + b@,
{
    let ghost start = out@;
    let mut i: usize = 0;
    while i < b.len()
        invariant
            i <= b.len(),
            out@ == start + b@.subrange(0, i as int),
        decreases b.len() - i,
    {
        out.push(b[i]);
        proof {
            assert(b@.subrange(0, i + 1) == b@.subrange(0, i as int).push(b@[i as int]));
        }
        i = i + 1;
    }
    proof {
        assert(b@.subrange(0, b@.len() as int) == b@);
    }
}

/// What reading one message from received bytes yields.
pub enum ReadOutcome {
    /// More bytes are needed.
    Pending,
    /// A chunk header breaks the framing.
    Malformed { expected: char, actual: char },
    /// A whole message: its bytes, its text, and the bytes left after it.
    Message { payload: Seq<u8>, text: Seq<char>, rest: Seq<u8> },
}

/// Reading one message from `buf`: in base 1.1 framing the concatenated
/// payload of its chunks, in base 1.0 what precedes the first end-of-message
/// marker.
pub open spec fn read_outcome(buf: Seq<u8>, upgraded: bool) -> ReadOutcome {
    if upgraded {
        match chunked_scan(buf) {
            ChunkedScan::Incomplete => ReadOutcome::Pending,
            ChunkedScan::Malformed { expected, actual } => ReadOutcome::Malformed { expected, actual },
            ChunkedScan::Done { payload, end } => ReadOutcome::Message {
                payload,
                text: message_text(payload),
                rest: buf.subrange(end, buf.len() as int),
            },
        }
    } else {
        match find_from(buf, eom_marker(), 0) {
            None => ReadOutcome::Pending,
            Some(pos) => ReadOutcome::Message {
                payload: buf.subrange(0, pos),
                text: message_text(buf.subrange(0, pos)),
                rest: buf.subrange(pos + 6, buf.len() as int),
            },
        }
    }
}

/// Delimits NETCONF messages on a byte stream, in base 1.0 framing until
/// `upgrade` switches it to base 1.1. It does no I/O itself: the
/// asynchronous transport hands it the bytes it reads and writes the bytes
/// it encodes. Received bytes are kept until a whole message is there.
pub struct AsyncFramer {
    read_buffer: Vec<u8>,
    upgraded: bool,
}

impl AsyncFramer {
    /// Received bytes not yet consumed by a read.
    pub closed spec fn buffer(&self) -> Seq<u8> {
        self.read_buffer@
    }

    /// Whether base 1.1 framing is in effect.
    pub closed spec fn is_upgraded(&self) -> bool {
        self.upgraded
    }

    /// A framer in base 1.0 framing with nothing received.
    pub fn new() -> (r: AsyncFramer)
        ensures
            r.buffer() == Seq::<u8>::empty(),
            !r.is_upgraded(),
    {
        AsyncFramer { read_buffer: Vec::new(), upgraded: false }
    }

    /// Whether base 1.1 framing is in effect.
    pub fn upgraded(&self) -> (r: bool)
        ensures
            r == self.is_upgraded(),
    {
        self.upgraded
    }

    /// Switches to base 1.1 framing; switching twice changes nothing.
    pub fn upgrade(&mut self)
        ensures
            final(self).is_upgraded(),
            final(self).buffer() == old(self).buffer(),
    {
        self.upgraded = true;
    }

    /// Hands the framer bytes received from the stream.
    pub fn receive(&mut self, data: &[u8])
        ensures
            final(self).buffer() == old(self).buffer() + data@,
            final(self).is_upgraded() == old(self).is_upgraded(),
    {
        push_bytes(&mut self.read_buffer, data);
    }

    /// The bytes to write for one outbound message.
    pub fn encode(&self, msg: &str) -> (r: Vec<u8>)
        ensures
            r@ == (if self.is_upgraded() {
                chunked_frame(msg.spec_bytes())
            } else {
                eom_frame(msg.spec_bytes())
            }),
    {
        let bytes = msg.as_bytes();
        let mut out: Vec<u8> = Vec::new();
        if self.upgraded {
            let n = bytes.len();
            let mut start: usize = 0;
            proof {
                assert(bytes@.subrange(0, n as int) =~= bytes@);
                assert(out@ + chunks(bytes@) =~= chunks(bytes@));
            }
            while n - start > MAX_CHUNK
                invariant
                    n == bytes@.len(),
                    start <= n,
                    out@ + chunks(bytes@.subrange(start as int, n as int)) == chunks(bytes@),
                decreases n - start,
            {
                let ghost rest = bytes@.subrange(start as int, n as int);
                let ghost before = out@;
                out.push(10u8);
                out.push(35u8);
                push_decimal(&mut out, MAX_CHUNK);
                out.push(10u8);
                push_bytes(&mut out, &bytes[start..start + MAX_CHUNK]);
                proof {
                    assert(rest.subrange(0, u32::MAX as int) =~= bytes@.subrange(
                        start as int,
                        start + MAX_CHUNK,
                    ));
                    assert(rest.subrange(u32::MAX as int, rest.len() as int) =~= bytes@.subrange(
                        start + MAX_CHUNK,
                        n as int,
                    ));
                    assert(out@ =~= before + chunk(rest.subrange(0, u32::MAX as int)));
                    assert(out@ + chunks(bytes@.subrange(start + MAX_CHUNK, n as int)) =~= before
                        + chunks(rest));
                }
                start = start + MAX_CHUNK;
            }
            let ghost before = out@;
            out.push(10u8);
            out.push(35u8);
            push_decimal(&mut out, n - start);
            out.push(10u8);
            push_bytes(&mut out, &bytes[start..n]);
            proof {
                assert(out@ =~= before + chunks(bytes@.subrange(start as int, n as int)));
            }
            out.push(10u8);
            out.push(35u8);
            out.push(35u8);
            out.push(10u8);
            proof {
                assert(out@ =~= chunked_frame(msg.spec_bytes()));
            }
        } else {
            push_bytes(&mut out, bytes);
            out.push(93u8);
            out.push(93u8);
            out.push(62u8);
            out.push(93u8);
            out.push(93u8);
            out.push(62u8);
            proof {
                assert(out@ =~= eom_frame(msg.spec_bytes()));
            }
        }
        out
    }

    fn consume(&mut self, n: usize)
        requires
            n <= old(self).buffer().len(),
        ensures
            final(self).buffer() == old(self).buffer().subrange(n as int, old(self).buffer().len() as int),
            final(self).is_upgraded() == old(self).is_upgraded(),
    {
        let mut rest: Vec<u8> = Vec::new();
        push_bytes(&mut rest, &self.read_buffer.as_slice()[n..self.read_buffer.len()]);
        self.read_buffer = rest;
    }

    /// Takes the next whole message out of the received bytes, if there is one.
    ///
    /// In base 1.0 framing the message is what precedes the first end-of-message
    /// marker; in base 1.1 it is the concatenated payload of its chunks. Either
    /// way the message and its delimiters are consumed, and its text is returned.
    /// `Ok(None)` means more bytes are needed; nothing is consumed then.
    pub fn read_message(&mut self) -> (r: Result<Option<String>, NetconfClientError>)
        ensures
            final(self).is_upgraded() == old(self).is_upgraded(),
            match read_outcome(old(self).buffer(), old(self).is_upgraded()) {
                ReadOutcome::Pending => r == Ok::<Option<String>, NetconfClientError>(None)
                    && final(self).buffer() == old(self).buffer(),
                ReadOutcome::Malformed { expected, actual } => r == Err::<
                    Option<String>,
                    NetconfClientError,
                >(NetconfClientError::MalformedChunk { expected, actual })
                    && final(self).buffer() == old(self).buffer(),
                ReadOutcome::Message { payload, text, rest } => r matches Ok(Some(t)) && t@ == text
                    && (valid_utf8(payload) ==> t@ == trimmed_end(decode_utf8(payload)))
                    && final(self).buffer() == rest,
            },
    {
        if self.upgraded {
            match read_chunked(self.read_buffer.as_slice()) {
                ChunkedRead::Incomplete => Ok(None),
                ChunkedRead::Malformed { expected, actual } => {
                    Err(NetconfClientError::MalformedChunk { expected, actual })
                },
                ChunkedRead::Done { payload, end } => {
                    let text = decode_message_text(payload.as_slice());
                    let len = self.read_buffer.len();
                    proof {
                        lemma_chunked_end(self.read_buffer@);
                    }
                    self.consume(end);
                    Ok(Some(text))
                },
            }
        } else {
            let marker: [u8; 6] = [93u8, 93u8, 62u8, 93u8, 93u8, 62u8];
            proof {
                assert(marker@ =~= eom_marker());
            }
            match first_occurrence(marker.as_slice(), self.read_buffer.as_slice()) {
                None => Ok(None),
                Some(pos) => {
                    let len = self.read_buffer.len();
                    proof {
                        crate::scan::lemma_find_from(self.read_buffer@, eom_marker(), 0);
                        assert(eom_marker().len() == 6);
                        assert(pos + 6 <= self.read_buffer@.len());
                    }
                    let text = decode_message_text(&self.read_buffer.as_slice()[0..pos]);
                    self.consume(pos + 6);
                    Ok(Some(text))
                },
            }
        }
    }
}

proof fn lemma_chunks_end(s: Seq<u8>, pos: int, acc: Seq<u8>)
    requires
        0 <= pos,
        s.len() <= usize::MAX,
    ensures
        chunks_from(s, pos, acc) matches ChunkedScan::Done { end, .. } ==> end <= s.len(),
    decreases s.len() - pos,
{
    lemma_header_bounds(s, pos);
    if let HeaderScan::Complete { size, end } = header_at(s, pos) {
        if size != 0 && end + size <= s.len() && end > pos {
            lemma_chunks_end(s, end + size, acc + s.subrange(end as int, end + size));
        }
    }
}

proof fn lemma_chunked_end(s: Seq<u8>)
    requires
        s.len() <= usize::MAX,
    ensures
        chunked_scan(s) matches ChunkedScan::Done { end, .. } ==> end <= s.len(),
{
    lemma_chunks_end(s, 0, Seq::empty());
}

proof fn lemma_decimal_digits(n: nat)
    ensures
        decimal(n).len() >= 1,
        forall|k: int| 0 <= k < decimal(n).len() ==> is_digit(#[trigger] decimal(n)[k]),
    decreases n,
{
    if n >= 10 {
        lemma_decimal_digits(n / 10);
    }
}

/// Reading the decimal digits of `n` from index `i` accumulates `n`.
proof fn lemma_read_decimal(s: Seq<u8>, i: int, n: nat)
    requires
        n <= u32::MAX,
        0 <= i,
        i + decimal(n).len() <= s.len(),
        s.subrange(i, i + decimal(n).len()) == decimal(n),
    ensures
        header_digits(s, i, 0) == header_digits(s, i + decimal(n).len(), n as int),
    decreases n,
{
    let w = decimal(n);
    if n < 10 {
        assert(s[i] == w[0]);
        assert(s[i] == (48 + n) as u8);
    } else {
        let d = decimal(n / 10);
        let k = i + d.len();
        assert(w == d.push((48 + n % 10) as u8));
        assert(s.subrange(i, k) =~= s.subrange(i, i + w.len()).subrange(0, d.len() as int));
        assert(w.subrange(0, d.len() as int) =~= d);
        lemma_read_decimal(s, i, n / 10);
        assert(s[k] == w[d.len() as int]);
        assert(s[k] == (48 + n % 10) as u8);
        assert((n / 10) * 10 + n % 10 == n) by (nonlinear_arith);
        assert(header_digits(s, k, (n / 10) as int) == header_digits(s, k + 1, n as int));
    }
}

/// The end of the first message when a payload encoded in base 1.1 framing
/// is read back: an empty payload's chunk of size 0 ends it at once, leaving
/// the end-of-chunks marker on the stream.
pub open spec fn round_trip_end(m: Seq<u8>) -> int {
    if m.len() == 0 {
        4
    } else {
        chunked_frame(m).len() as int
    }
}

/// Encoding a payload in base 1.1 framing and reading the stream back gives
/// the payload, whatever follows it on the stream; the end-of-chunks marker
/// right after the chunk ends the message.
pub proof fn lemma_chunked_round_trip(m: Seq<u8>, rest: Seq<u8>)
    requires
        m.len() <= u32::MAX,
        chunked_frame(m).len() + rest.len() <= usize::MAX,
    ensures
        chunked_scan(chunked_frame(m) + rest) == (ChunkedScan::Done {
            payload: m,
            end: round_trip_end(m),
        }),
{
    assert(chunks(m) == chunk(m));
    if m.len() == 0 {
        let s = chunked_frame(m) + rest;
        assert(decimal(0) == seq![48u8]);
        assert(s[0] == 10u8);
        assert(s[1] == 35u8);
        assert(s[2] == 48u8);
        assert(s[3] == 10u8);
        assert(header_digits(s, 3, 0) == HeaderScan::Complete { size: 0, end: 4 });
        assert(header_digits(s, 2, 0) == HeaderScan::Complete { size: 0, end: 4 });
        assert(m =~= Seq::<u8>::empty());
    } else {
        lemma_chunked_round_trip_nonempty(m, rest);
    }
}

proof fn lemma_chunked_round_trip_nonempty(m: Seq<u8>, rest: Seq<u8>)
    requires
        0 < m.len() <= u32::MAX,
        chunked_frame(m).len() + rest.len() <= usize::MAX,
        chunks(m) == chunk(m),
    ensures
        chunked_scan(chunked_frame(m) + rest) == (ChunkedScan::Done {
            payload: m,
            end: chunked_frame(m).len() as int,
        }),
{
    let d = decimal(m.len());
    let s = chunked_frame(m) + rest;
    let h: int = 3 + d.len() as int;
    lemma_decimal_digits(m.len());
    assert(s[0] == 10u8);
    assert(s[1] == 35u8);
    assert(s.subrange(2, 2 + d.len() as int) == d);
    lemma_read_decimal(s, 2, m.len());
    assert(s[2 + d.len() as int] == 10u8);
    assert(header_at(s, 0) == HeaderScan::Complete { size: m.len() as u32, end: h as usize });
    {
        let p: int = h + m.len();
        assert(s.subrange(h, p) == m);
        assert(s[p] == 10u8);
        assert(s[p + 1] == 35u8);
        assert(s[p + 2] == 35u8);
        assert(s[p + 3] == 10u8);
        assert(header_digits(s, p + 3, 0) == HeaderScan::Complete { size: 0, end: (p + 4) as usize });
        assert(header_at(s, p) == HeaderScan::Complete { size: 0, end: (p + 4) as usize });
        assert(Seq::<u8>::empty() + m == m);
        assert(chunks_from(s, p, m) == ChunkedScan::Done { payload: m, end: p + 4 });
    }
}

proof fn lemma_byte_chunks_from(m: Seq<u8>, rest: Seq<u8>, pre: Seq<u8>, acc: Seq<u8>)
    requires
        pre.len() + byte_chunks(m).len() + rest.len() <= usize::MAX,
    ensures
        chunks_from(pre + byte_chunks(m) + rest, pre.len() as int, acc) == (ChunkedScan::Done {
            payload: acc + m,
            end: pre.len() + byte_chunks(m).len() as int,
        }),
    decreases m.len(),
{
    let s = pre + byte_chunks(m) + rest;
    let p = pre.len() as int;
    if m.len() == 0 {
        assert(s[p] == 10u8);
        assert(s[p + 1] == 35u8);
        assert(s[p + 2] == 35u8);
        assert(s[p + 3] == 10u8);
        assert(header_digits(s, p + 3, 0) == HeaderScan::Complete { size: 0, end: (p + 4) as usize });
        assert(header_at(s, p) == HeaderScan::Complete { size: 0, end: (p + 4) as usize });
        assert(acc + m == acc);
    } else {
        let head = seq![10u8, 35u8, 49u8, 10u8, m[0]];
        assert(byte_chunks(m) == head + byte_chunks(m.drop_first()));
        assert(s[p] == 10u8);
        assert(s[p + 1] == 35u8);
        assert(s[p + 2] == 49u8);
        assert(s[p + 3] == 10u8);
        assert(s[p + 4] == m[0]);
        assert(header_digits(s, p + 3, 1) == HeaderScan::Complete { size: 1, end: (p + 4) as usize });
        assert(header_at(s, p) == HeaderScan::Complete { size: 1, end: (p + 4) as usize });
        let pre2 = pre + head;
        assert(s == pre2 + byte_chunks(m.drop_first()) + rest);
        assert(s.subrange(p + 4, p + 5) == seq![m[0]]);
        lemma_byte_chunks_from(m.drop_first(), rest, pre2, acc + seq![m[0]]);
        assert(acc + seq![m[0]] + m.drop_first() == acc + m);
    }
}

/// A payload sent as chunks of one byte each reads back whole.
pub proof fn lemma_byte_chunks_round_trip(m: Seq<u8>, rest: Seq<u8>)
    requires
        byte_chunks(m).len() + rest.len() <= usize::MAX,
    ensures
        chunked_scan(byte_chunks(m) + rest) == (ChunkedScan::Done {
            payload: m,
            end: byte_chunks(m).len() as int,
        }),
{
    lemma_byte_chunks_from(m, rest, Seq::empty(), Seq::empty());
    assert(Seq::<u8>::empty() + byte_chunks(m) + rest == byte_chunks(m) + rest);
    assert(Seq::<u8>::empty() + m == m);
}

/// A base 1.0 message reads back up to its end-of-message marker, however
/// the stream was cut into reads, provided no marker starts inside it.
pub proof fn lemma_eom_round_trip(m: Seq<u8>, rest: Seq<u8>)
    requires
        forall|j: int| 0 <= j < m.len() ==> !crate::scan::occurs_at(eom_frame(m), eom_marker(), j),
    ensures
        find_from(eom_frame(m) + rest, eom_marker(), 0) == Some(m.len() as int),
{
    let s = eom_frame(m) + rest;
    assert forall|j: int| 0 <= j < m.len() implies !crate::scan::occurs_at(s, eom_marker(), j) by {
        if crate::scan::occurs_at(s, eom_marker(), j) {
            assert(s.subrange(j, j + 6) == eom_frame(m).subrange(j, j + 6));
            assert(crate::scan::occurs_at(eom_frame(m), eom_marker(), j));
        }
    }
    assert(s.subrange(m.len() as int, m.len() + 6int) == eom_marker());
    crate::scan::lemma_find_from_first(s, eom_marker(), 0, m.len() as int);
}

/// What an upgraded framer encodes, a framer in the same mode reads back:
/// the message's text; only an empty message leaves its end-of-chunks
/// marker behind.
pub proof fn lemma_framer_round_trip_chunked(m: Seq<u8>)
    requires
        m.len() <= u32::MAX,
        chunked_frame(m).len() <= usize::MAX,
    ensures
        read_outcome(chunked_frame(m), true) == (ReadOutcome::Message {
            payload: m,
            text: message_text(m),
            rest: if m.len() == 0 {
                end_of_chunks()
            } else {
                Seq::empty()
            },
        }),
{
    lemma_chunked_round_trip(m, Seq::empty());
    assert(chunked_frame(m) + Seq::<u8>::empty() =~= chunked_frame(m));
    if m.len() == 0 {
        assert(chunks(m) == chunk(m));
        assert(chunked_frame(m).subrange(4, chunked_frame(m).len() as int) =~= end_of_chunks());
    } else {
        assert(chunked_frame(m).subrange(
            chunked_frame(m).len() as int,
            chunked_frame(m).len() as int,
        ) =~= Seq::<u8>::empty());
    }
}

/// What a base 1.0 framer encodes it reads back, provided no end-of-message
/// marker starts inside the message.
pub proof fn lemma_framer_round_trip_eom(m: Seq<u8>)
    requires
        forall|j: int| 0 <= j < m.len() ==> !crate::scan::occurs_at(eom_frame(m), eom_marker(), j),
    ensures
        read_outcome(eom_frame(m), false) == (ReadOutcome::Message {
            payload: m,
            text: message_text(m),
            rest: Seq::empty(),
        }),
{
    lemma_eom_round_trip(m, Seq::empty());
    assert(eom_frame(m) + Seq::<u8>::empty() =~= eom_frame(m));
    assert(eom_frame(m).subrange(0, m.len() as int) =~= m);
    assert(eom_frame(m).subrange(m.len() + 6int, eom_frame(m).len() as int) =~= Seq::<u8>::empty());
}

} // verus!
