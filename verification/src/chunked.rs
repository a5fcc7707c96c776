//! Taking a chunked HTTP/1.1 body apart as its bytes arrive.

use vstd::prelude::*;
use vstd::string::*;
use vstd::utf8::*;
use crate::framing::{crlf_at, find_crlf, lemma_next_crlf, lemma_next_crlf_extend, next_crlf};
use crate::http_error::{HttpError, HttpErrorView};
use crate::text::{before, chars_of, position, trim, trimmed};
use crate::utf8::utf8_text;

verus! {

/// The value of a hexadecimal digit.
pub open spec fn hex_digit(c: char) -> Option<nat> {
    if '0' <= c <= '9' {
        Some((c as u32 - '0' as u32) as nat)
    } else if 'a' <= c <= 'f' {
        Some((c as u32 - 'a' as u32 + 10) as nat)
    } else if 'A' <= c <= 'F' {
        Some((c as u32 - 'A' as u32 + 10) as nat)
    } else {
        None
    }
}

/// The number that a run of hexadecimal digits stands for; zero for an empty
/// run.
pub open spec fn hex_value(digits: Seq<char>) -> Option<nat>
    decreases digits.len(),
{
    if digits.len() == 0 {
        Some(0)
    } else {
        match (hex_value(digits.drop_last()), hex_digit(digits.last())) {
            (Some(high), Some(low)) => Some(16 * high + low),
            _ => None,
        }
    }
}

/// The size that a chunk-size token gives: an optional `+` and at least one
/// hexadecimal digit, for a number that a `usize` can hold.
pub open spec fn chunk_size(token: Seq<char>) -> Option<usize> {
    let digits = if token.len() > 0 && token[0] == '+' {
        token.skip(1)
    } else {
        token
    };
    if digits.len() == 0 {
        None
    } else {
        match hex_value(digits) {
            Some(n) if n <= usize::MAX => Some(n as usize),
            _ => None,
        }
    }
}

/// The size token of a chunk-size line: what stands before the first `;`,
/// without white space around it.
pub open spec fn size_token(line: Seq<char>) -> Seq<char> {
    trimmed(before(line, ';'))
}

/// What the bytes of a chunked body amount to so far.
pub enum ChunkScan {
    /// More bytes are needed.
    Incomplete,
    /// No further bytes can make this a body that is let through.
    Bad(HttpErrorView),
    /// The body is complete and its framing ends at `end`.
    Complete { body: Seq<u8>, end: int },
}

/// The trailer lines from `pos` on, which end with an empty line.
pub open spec fn scan_trailers(raw: Seq<u8>, pos: int, body: Seq<u8>) -> ChunkScan
    decreases raw.len() - pos,
{
    match next_crlf(raw, pos) {
        None => ChunkScan::Incomplete,
        Some(end) => if end <= pos {
            ChunkScan::Complete { body, end: pos + 2 }
        } else {
            proof {
                lemma_next_crlf(raw, pos);
            }
            scan_trailers(raw, end + 2, body)
        },
    }
}

/// The chunks from `pos` on, where `body` is what earlier chunks held and at
/// most `max` body bytes are let through.
pub open spec fn scan_chunks(raw: Seq<u8>, pos: int, body: Seq<u8>, max: usize) -> ChunkScan
    decreases raw.len() - pos,
{
    match next_crlf(raw, pos) {
        None => ChunkScan::Incomplete,
        Some(line_end) => {
            let line = raw.subrange(pos, line_end);
            let token = size_token(decode_utf8(line));
            if !valid_utf8(line) {
                ChunkScan::Bad(HttpErrorView::ChunkLineNotUtf8)
            } else {
                match chunk_size(token) {
                    None => ChunkScan::Bad(HttpErrorView::InvalidChunkSize { token }),
                    Some(size) => {
                        let start = line_end + 2;
                        if body.len() + size > max && max < usize::MAX {
                            ChunkScan::Bad(HttpErrorView::BodyExceedsLimit { max_body_bytes: max })
                        } else if size == 0 {
                            scan_trailers(raw, start, body)
                        } else if start + size + 2 > usize::MAX {
                            ChunkScan::Bad(HttpErrorView::ChunkSizeOverflow)
                        } else if raw.len() < start + size + 2 {
                            ChunkScan::Incomplete
                        } else if !crlf_at(raw, start + size) {
                            ChunkScan::Bad(HttpErrorView::ChunkNotTerminated)
                        } else {
                            proof {
                                lemma_next_crlf(raw, pos);
                            }
                            scan_chunks(
                                raw,
                                start + size + 2,
                                body + raw.subrange(start, start + size),
                                max,
                            )
                        }
                    },
                }
            }
        },
    }
}

/// What `raw` amounts to as a chunked body with at most `max` body bytes.
pub open spec fn scan(raw: Seq<u8>, max: usize) -> ChunkScan {
    scan_chunks(raw, 0, Seq::empty(), max)
}

/// The value of a hexadecimal digit.
fn hex_digit_value(c: char) -> (r: Option<usize>)
    ensures
        match r {
            Some(d) => hex_digit(c) == Some(d as nat) && d < 16,
            None => hex_digit(c) is None,
        },
{
    if '0' <= c && c <= '9' {
        Some((c as u32 - '0' as u32) as usize)
    } else if 'a' <= c && c <= 'f' {
        Some((c as u32 - 'a' as u32 + 10) as usize)
    } else if 'A' <= c && c <= 'F' {
        Some((c as u32 - 'A' as u32 + 10) as usize)
    } else {
        None
    }
}

proof fn lemma_hex_value_grows(digits: Seq<char>, n: int)
    requires
        0 <= n <= digits.len(),
    ensures
        hex_value(digits.take(n)) is None ==> hex_value(digits) is None,
        hex_value(digits) matches Some(v) ==> v >= hex_value(digits.take(n))->0,
    decreases digits.len(),
{
    if n == digits.len() {
        assert(digits.take(n) == digits);
    } else {
        lemma_hex_value_grows(digits.drop_last(), n);
        assert(digits.drop_last().take(n) == digits.take(n));
    }
}

/// The size that a chunk-size token gives.
pub fn parse_chunk_size(text: &str) -> (r: Option<usize>)
    ensures
        r == chunk_size(text@),
{
    let token = chars_of(text);
    let from: usize = if token.len() > 0 && token[0] == '+' {
        1
    } else {
        0
    };
    let ghost digits = token@.skip(from as int);
    assert(token@.skip(0) == token@);
    if from == token.len() {
        return None;
    }
    let mut value: usize = 0;
    let mut i: usize = from;
    assert(digits.take(0) == Seq::<char>::empty());
    while i < token.len()
        invariant
            from <= i <= token@.len(),
            from < token@.len(),
            token@ == text@,
            digits == token@.skip(from as int),
            hex_value(digits.take(i - from)) == Some(value as nat),
            chunk_size(token@) == (match hex_value(digits) {
                Some(n) if n <= usize::MAX => Some(n as usize),
                _ => None,
            }),
        decreases token@.len() - i,
    {
        let ghost next = digits.take(i - from + 1);
        assert(next.drop_last() == digits.take(i - from));
        assert(next.last() == token@[i as int]);
        proof {
            lemma_hex_value_grows(digits, i - from + 1);
        }
        match hex_digit_value(token[i]) {
            None => {
                return None;
            },
            Some(d) => {
                if value > (usize::MAX - d) / 16 {
                    assert(16 * value + d > usize::MAX);
                    return None;
                }
                value = 16 * value + d;
            },
        }
        i = i + 1;
    }
    assert(digits.take(i - from) == digits);
    Some(value)
}

/// The scan from where a reader stands.
spec fn scan_from(
    raw: Seq<u8>,
    in_trailers: bool,
    pos: int,
    body: Seq<u8>,
    max: usize,
) -> ChunkScan {
    if in_trailers {
        scan_trailers(raw, pos, body)
    } else {
        scan_chunks(raw, pos, body, max)
    }
}

/// Whether a reader that stands at `pos` with `body` in hand has lost nothing,
/// whatever bytes follow.
spec fn on_track(raw: Seq<u8>, in_trailers: bool, pos: int, body: Seq<u8>, max: usize) -> bool {
    forall|more: Seq<u8>|
        scan(#[trigger] (raw + more), max) == scan_from(raw + more, in_trailers, pos, body, max)
}

proof fn lemma_on_track_now(raw: Seq<u8>, in_trailers: bool, pos: int, body: Seq<u8>, max: usize)
    requires
        on_track(raw, in_trailers, pos, body, max),
    ensures
        scan(raw, max) == scan_from(raw, in_trailers, pos, body, max),
{
    assert(raw + Seq::<u8>::empty() == raw);
}

/// A chunked body in the making.
#[derive(Debug)]
pub struct ChunkedBody {
    raw: Vec<u8>,
    decoded: Vec<u8>,
    pos: usize,
    in_trailers: bool,
    max_body_bytes: usize,
}

/// How far the bytes received so far lead.
#[derive(Debug)]
pub enum ChunkProgress {
    NeedMore,
    Failed(HttpError),
    Complete,
}

impl ChunkedBody {
    /// The framed bytes received so far.
    pub closed spec fn received(&self) -> Seq<u8> {
        self.raw@
    }

    /// The most body bytes let through.
    pub closed spec fn limit(&self) -> usize {
        self.max_body_bytes
    }

    /// Where the framing read so far ends.
    pub closed spec fn consumed(&self) -> int {
        self.pos as int
    }

    /// The body bytes decoded so far.
    pub closed spec fn body(&self) -> Seq<u8> {
        self.decoded@
    }

    /// Whether the reader stands where the received bytes put it.
    pub closed spec fn wf(&self) -> bool {
        &&& self.pos <= self.raw@.len()
        &&& on_track(
            self.raw@,
            self.in_trailers,
            self.pos as int,
            self.decoded@,
            self.max_body_bytes,
        )
    }

    /// A body of which `received` has come so far.
    pub fn new(received: Vec<u8>, max_body_bytes: usize) -> (r: Self)
        ensures
            r.wf(),
            r.received() == received@,
            r.limit() == max_body_bytes,
    {
        let r = ChunkedBody {
            raw: received,
            decoded: Vec::new(),
            pos: 0,
            in_trailers: false,
            max_body_bytes,
        };
        assert(r.decoded@ == Seq::<u8>::empty());
        r
    }

    /// Adds bytes that have just come.
    pub fn receive(&mut self, data: &[u8])
        requires
            old(self).wf(),
        ensures
            final(self).wf(),
            final(self).received() == old(self).received() + data@,
            final(self).limit() == old(self).limit(),
    {
        let ghost raw = self.raw@;
        self.raw.extend_from_slice(data);
        proof {
            assert(self.raw@ == raw + data@);
            assert forall|more: Seq<u8>| scan(#[trigger] (self.raw@ + more), self.max_body_bytes)
                == scan_from(
                self.raw@ + more,
                self.in_trailers,
                self.pos as int,
                self.decoded@,
                self.max_body_bytes,
            ) by {
                assert(self.raw@ + more == raw + (data@ + more));
            }
        }
    }

    /// The most body bytes let through.
    pub fn max_body_bytes(&self) -> (r: usize)
        ensures
            r == self.limit(),
    {
        self.max_body_bytes
    }

    /// How many framed bytes have come so far.
    pub fn received_len(&self) -> (r: usize)
        ensures
            r == self.received().len(),
    {
        self.raw.len()
    }

    /// The framed bytes read through, and the decoded body.
    pub fn into_parts(self) -> (r: (Vec<u8>, Vec<u8>))
        requires
            self.consumed() <= self.received().len(),
        ensures
            r.0@ == self.received().take(self.consumed()),
            r.1@ == self.body(),
    {
        let mut raw = self.raw;
        raw.truncate(self.pos);
        (raw, self.decoded)
    }

    /// Passes over the trailer line that ends at `line_end`.
    fn pass_trailer(&mut self, line_end: usize) -> (r: bool)
        requires
            old(self).wf(),
            old(self).in_trailers,
            next_crlf(old(self).raw@, old(self).pos as int) == Some(line_end as int),
            line_end + 2 <= old(self).raw@.len(),
        ensures
            final(self).raw == old(self).raw,
            final(self).decoded == old(self).decoded,
            final(self).in_trailers,
            final(self).max_body_bytes == old(self).max_body_bytes,
            final(self).pos == line_end + 2,
            r ==> scan(old(self).raw@, old(self).max_body_bytes) == (ChunkScan::Complete {
                body: old(self).decoded@,
                end: line_end + 2,
            }),
            !r ==> final(self).wf(),
    {
        let ghost raw = self.raw@;
        let ghost start = self.pos as int;
        let ghost body = self.decoded@;
        proof {
            lemma_next_crlf(raw, start);
            lemma_on_track_now(raw, true, start, body, self.max_body_bytes);
        }
        assert(line_end + 2 <= self.raw.len());
        let last: bool = line_end == self.pos;
        self.pos = line_end + 2;
        proof {
            if !last {
                assert forall|more: Seq<u8>| scan(#[trigger] (raw + more), self.max_body_bytes)
                    == scan_from(raw + more, true, line_end + 2, body, self.max_body_bytes) by {
                    lemma_next_crlf_extend(raw, more, start);
                    assert(scan(raw + more, self.max_body_bytes) == scan_trailers(
                        raw + more,
                        start,
                        body,
                    ));
                }
            }
        }
        last
    }

    /// Takes in the chunk whose size line ends at `line_end`; returns why the
    /// reader has to stop, if it has to.
    fn take_chunk(&mut self, line_end: usize) -> (r: Option<ChunkProgress>)
        requires
            old(self).wf(),
            !old(self).in_trailers,
            next_crlf(old(self).raw@, old(self).pos as int) == Some(line_end as int),
            line_end + 2 <= old(self).raw@.len(),
        ensures
            final(self).raw == old(self).raw,
            final(self).max_body_bytes == old(self).max_body_bytes,
            final(self).wf(),
            match r {
                None => final(self).pos > old(self).pos,
                Some(ChunkProgress::NeedMore) => scan(old(self).raw@, old(self).max_body_bytes)
                    is Incomplete,
                Some(ChunkProgress::Failed(e)) => scan(old(self).raw@, old(self).max_body_bytes)
                    == ChunkScan::Bad(e@),
                Some(ChunkProgress::Complete) => false,
            },
    {
        let ghost raw = self.raw@;
        let ghost from = self.pos as int;
        let ghost body = self.decoded@;
        let max: usize = self.max_body_bytes;
        proof {
            lemma_next_crlf(raw, from);
            lemma_on_track_now(raw, false, from, body, max);
        }
        let line = vstd::slice::slice_subrange(self.raw.as_slice(), self.pos, line_end);
        assert(line@ == raw.subrange(from, line_end as int));
        let text = match utf8_text(line) {
            None => {
                return Some(ChunkProgress::Failed(HttpError::ChunkLineNotUtf8));
            },
            Some(text) => text,
        };
        let token = size_token_of(text);
        let size = match parse_chunk_size(token) {
            None => {
                return Some(
                    ChunkProgress::Failed(HttpError::InvalidChunkSize { token: token.to_string() }),
                );
            },
            Some(size) => size,
        };
        assert(line_end + 2 <= self.raw.len());
        let start: usize = line_end + 2;
        if self.decoded.len().saturating_add(size) > max {
            return Some(ChunkProgress::Failed(HttpError::BodyExceedsLimit { max_body_bytes: max }));
        }
        if size == 0 {
            self.in_trailers = true;
            self.pos = start;
            proof {
                assert forall|more: Seq<u8>| scan(#[trigger] (raw + more), max) == scan_from(
                    raw + more,
                    true,
                    start as int,
                    body,
                    max,
                ) by {
                    lemma_next_crlf_extend(raw, more, from);
                    assert((raw + more).subrange(from, line_end as int) == line@);
                    assert(scan(raw + more, max) == scan_chunks(raw + more, from, body, max));
                }
            }
            return None;
        }
        if start > usize::MAX - size || start + size > usize::MAX - 2 {
            return Some(ChunkProgress::Failed(HttpError::ChunkSizeOverflow));
        }
        let end: usize = start + size;
        if self.raw.len() < end + 2 {
            return Some(ChunkProgress::NeedMore);
        }
        if self.raw[end] != 13 || self.raw[end + 1] != 10 {
            return Some(ChunkProgress::Failed(HttpError::ChunkNotTerminated));
        }
        let chunk = vstd::slice::slice_subrange(self.raw.as_slice(), start, end);
        self.decoded.extend_from_slice(chunk);
        self.pos = end + 2;
        proof {
            assert(self.decoded@ == body + raw.subrange(start as int, end as int));
            assert forall|more: Seq<u8>| scan(#[trigger] (raw + more), max) == scan_from(
                raw + more,
                false,
                end + 2,
                self.decoded@,
                max,
            ) by {
                lemma_next_crlf_extend(raw, more, from);
                assert((raw + more).subrange(from, line_end as int) == line@);
                assert((raw + more).subrange(start as int, end as int) == raw.subrange(
                    start as int,
                    end as int,
                ));
                assert(crlf_at(raw, end as int));
                assert(crlf_at(raw + more, end as int));
                assert(scan(raw + more, max) == scan_chunks(raw + more, from, body, max));
            }
        }
        None
    }

    /// Reads on through the bytes received so far.
    pub fn advance(&mut self) -> (r: ChunkProgress)
        requires
            old(self).wf(),
        ensures
            final(self).received() == old(self).received(),
            final(self).limit() == old(self).limit(),
            match r {
                ChunkProgress::NeedMore => final(self).wf() && scan(
                    old(self).received(),
                    old(self).limit(),
                ) is Incomplete,
                ChunkProgress::Failed(e) => scan(old(self).received(), old(self).limit())
                    == ChunkScan::Bad(e@),
                ChunkProgress::Complete => scan(old(self).received(), old(self).limit())
                    == (ChunkScan::Complete {
                    body: final(self).body(),
                    end: final(self).consumed(),
                }) && final(self).consumed() <= old(self).received().len(),
            },
    {
        loop
            invariant
                self.wf(),
                self.raw == old(self).raw,
                self.max_body_bytes == old(self).max_body_bytes,
            decreases self.raw@.len() - self.pos,
        {
            proof {
                lemma_on_track_now(
                    self.raw@,
                    self.in_trailers,
                    self.pos as int,
                    self.decoded@,
                    self.max_body_bytes,
                );
                lemma_next_crlf(self.raw@, self.pos as int);
            }
            match find_crlf(self.raw.as_slice(), self.pos) {
                None => {
                    return ChunkProgress::NeedMore;
                },
                Some(line_end) => {
                    if self.in_trailers {
                        if self.pass_trailer(line_end) {
                            return ChunkProgress::Complete;
                        }
                    } else if let Some(stop) = self.take_chunk(line_end) {
                        return stop;
                    }
                },
            }
        }
    }
}

/// The size token of a chunk-size line.
fn size_token_of<'a>(line: &'a str) -> (r: &'a str)
    ensures
        r@ == size_token(line@),
{
    let chars = chars_of(line);
    let end = position(&chars, ';');
    let head = line.substring_char(0, end);
    assert(head@ == before(line@, ';'));
    trim(head)
}

} // verus!
