//! Reading an HTTP/1.1 request body for inspection. The caller owns the
//! connection: each function here takes what was read and says what to do next.

use vstd::prelude::*;
use vstd::string::*;
use vstd::utf8::*;
use crate::bytes::{byte_position, copied};
use crate::chunked::{scan, ChunkProgress, ChunkScan, ChunkedBody};
use crate::framing::{
    crlf, crlf_at, find_crlf, find_header_end, header_end, lemma_next_crlf, next_crlf,
};
use crate::http_error::{HttpError, HttpErrorView};
use crate::l7::{BodyLength, L7Request};
use crate::text::{
    chars_of, decimal, decimal_text, eq_ignore_ascii_case, first_index,
    same_ignoring_ascii_case, trim_chars, trimmed,
};
use crate::utf8::utf8_text;

verus! {

/// The header part of a request's bytes.
pub open spec fn head(raw: Seq<u8>) -> Seq<u8> {
    raw.take(header_end(raw))
}

/// The body bytes that came with the header.
pub open spec fn overflow(raw: Seq<u8>) -> Seq<u8> {
    raw.skip(header_end(raw))
}

/// The lines of `s`, which line ends separate.
pub open spec fn lines(s: Seq<u8>) -> Seq<Seq<u8>>
    decreases s.len(),
{
    match next_crlf(s, 0) {
        None => seq![s],
        Some(i) => {
            proof {
                lemma_next_crlf(s, 0);
            }
            seq![s.take(i)] + lines(s.skip(i + 2))
        },
    }
}

/// Whether a header line says how the body is framed: its name, without white
/// space around it and in any case, is one of three.
pub open spec fn framing_header(line: Seq<u8>) -> bool {
    let colon = first_index(line, 58u8);
    let name = trimmed(decode_utf8(line.take(colon)));
    &&& colon < line.len()
    &&& valid_utf8(line.take(colon))
    &&& {
        ||| same_ignoring_ascii_case(name, "transfer-encoding"@)
        ||| same_ignoring_ascii_case(name, "content-length"@)
        ||| same_ignoring_ascii_case(name, "trailer"@)
    }
}

/// Whether line `k` of a header stays: the request line and every line that
/// does not say how the body is framed.
pub open spec fn line_stays(all: Seq<Seq<u8>>, k: int) -> bool {
    k == 0 || !framing_header(all[k])
}

/// The lines that stay among the first `n`, each with its line end.
pub open spec fn kept_lines(all: Seq<Seq<u8>>, n: int) -> Seq<u8>
    decreases n,
{
    if n <= 0 {
        Seq::empty()
    } else if line_stays(all, n - 1) {
        kept_lines(all, n - 1) + all[n - 1] + crlf()
    } else {
        kept_lines(all, n - 1)
    }
}

/// The `Content-Length` line for `n` body bytes and the blank line after it.
pub open spec fn length_line(n: nat) -> Seq<u8> {
    encode_utf8("Content-Length: "@ + decimal(n) + "\r\n\r\n"@)
}

/// Whether `s` ends in a blank line.
pub open spec fn ends_in_blank_line(s: Seq<u8>) -> bool {
    crlf_at(s, s.len() - 4) && crlf_at(s, s.len() - 2)
}

/// The bytes of a request with header `header` once its body is framed by
/// `Content-Length`: header lines about framing go, the new length comes last.
pub open spec fn with_content_length(header: Seq<u8>, body: Seq<u8>) -> Result<
    Seq<u8>,
    HttpErrorView,
> {
    if !valid_utf8(header) {
        Err(HttpErrorView::HeaderNotUtf8)
    } else if !ends_in_blank_line(header) {
        Err(HttpErrorView::HeaderNotTerminated)
    } else {
        let all = lines(header.take(header.len() - 4));
        Ok(kept_lines(all, all.len() as int) + length_line(body.len()) + body)
    }
}

/// How many framed bytes may be held before more are asked for.
pub open spec fn framing_limit(max: usize) -> int {
    if 2 * max > usize::MAX {
        usize::MAX as int
    } else {
        2 * max
    }
}

/// What to do next about a request body.
#[derive(Debug)]
pub enum BodyRead {
    /// The body is there.
    Done(Vec<u8>),
    /// Exactly this many more body bytes have to be read; then
    /// [`finish_content_length_body`] takes them.
    NeedExact(usize),
    /// Some more bytes have to be read; then [`resume_chunked_body`] takes them.
    NeedMore(ChunkedBody),
    /// The request is not let through.
    Failed(HttpError),
}

/// Whether framing left `after` as `before` was.
pub open spec fn untouched(before: L7Request, after: L7Request) -> bool {
    &&& after.same_target(before)
    &&& after.raw_header@ == before.raw_header@
    &&& after.body_length == before.body_length
}

/// What becomes of a request with a chunked body of which `received` has come,
/// and what is to be done next.
pub open spec fn chunked_step(
    before: L7Request,
    received: Seq<u8>,
    max: usize,
    after: L7Request,
    r: BodyRead,
) -> bool {
    match scan(received, max) {
        ChunkScan::Incomplete => {
            &&& untouched(before, after)
            &&& if received.len() > framing_limit(max) {
                r matches BodyRead::Failed(e) && e@ == HttpErrorView::FramingExceedsLimit
            } else {
                r matches BodyRead::NeedMore(state) && state.wf() && state.received() == received
                    && state.limit() == max
            }
        },
        ChunkScan::Bad(error) => {
            &&& untouched(before, after)
            &&& r matches BodyRead::Failed(e)
            &&& e@ == error
        },
        ChunkScan::Complete { body, end } => {
            &&& after.same_target(before)
            &&& match with_content_length(head(before.raw_header@), body) {
                Ok(raw) => {
                    &&& r matches BodyRead::Done(b)
                    &&& b@ == body
                    &&& after.raw_header@ == raw
                    &&& after.body_length == BodyLength::ContentLength(body.len() as u64)
                },
                Err(error) => {
                    &&& r matches BodyRead::Failed(e)
                    &&& e@ == error
                    &&& after.raw_header@ == head(before.raw_header@) + received.take(end)
                    &&& after.body_length == before.body_length
                },
            }
        },
    }
}

/// Whether a header line says how the body is framed.
fn is_framing_header(line: &[u8]) -> (r: bool)
    ensures
        r == framing_header(line@),
{
    let colon = byte_position(line, 58);
    if colon == line.len() {
        return false;
    }
    let name_bytes = &line[0..colon];
    assert(name_bytes@ == line@.take(colon as int));
    match utf8_text(name_bytes) {
        None => false,
        Some(name) => {
            let name = trim_chars(&chars_of(name));
            eq_ignore_ascii_case(&name, "transfer-encoding") || eq_ignore_ascii_case(
                &name,
                "content-length",
            ) || eq_ignore_ascii_case(&name, "trailer")
        },
    }
}

/// The lines of `s`.
fn split_lines(s: &[u8]) -> (r: Vec<Vec<u8>>)
    ensures
        r@.len() == lines(s@).len(),
        forall|k: int| 0 <= k < r@.len() ==> (#[trigger] r@[k])@ == lines(s@)[k],
{
    let mut r: Vec<Vec<u8>> = Vec::new();
    let mut pos: usize = 0;
    assert(s@.skip(0) == s@);
    loop
        invariant
            pos <= s@.len(),
            lines(s@).len() == r@.len() + lines(s@.skip(pos as int)).len(),
            forall|k: int| 0 <= k < r@.len() ==> (#[trigger] r@[k])@ == lines(s@)[k],
            forall|k: int|
                0 <= k < lines(s@.skip(pos as int)).len() ==> lines(s@)[r@.len() + k]
                    == #[trigger] lines(s@.skip(pos as int))[k],
        decreases s@.len() - pos,
    {
        let ghost rest = s@.skip(pos as int);
        let ghost tail = lines(rest);
        let rest_bytes = &s[pos..s.len()];
        assert(rest_bytes@ == rest);
        match find_crlf(rest_bytes, 0) {
            None => {
                assert(tail == seq![rest]);
                assert(lines(s@)[r@.len() as int + 0] == tail[0]);
                r.push(copied(rest_bytes));
                return r;
            },
            Some(i) => {
                let line_bytes = &rest_bytes[0..i];
                assert(line_bytes@ == rest.take(i as int));
                let ghost next = rest.skip(i + 2);
                proof {
                    assert(s@.skip(pos + i + 2) == next);
                    assert(tail == seq![rest.take(i as int)] + lines(next));
                    assert(lines(s@)[r@.len() as int + 0] == tail[0]);
                    assert forall|k: int| 0 <= k < lines(next).len() implies lines(s@)[r@.len() + 1
                        + k] == #[trigger] lines(next)[k] by {
                        assert(tail[1 + k] == lines(next)[k]);
                        assert(lines(s@)[r@.len() + (1 + k)] == tail[1 + k]);
                    }
                }
                r.push(copied(line_bytes));
                pos = pos + i + 2;
            },
        }
    }
}

/// Reframes a request whose body was chunked: header lines about framing are
/// dropped, a `Content-Length` is put last, and the decoded body follows.
pub fn normalize_chunked_request_to_content_length(
    request: &mut L7Request,
    header_end: usize,
    body: &[u8],
) -> (r: Result<(), HttpError>)
    requires
        header_end <= old(request).raw_header@.len(),
    ensures
        final(request).same_target(*old(request)),
        match with_content_length(old(request).raw_header@.take(header_end as int), body@) {
            Ok(raw) => r is Ok && final(request).raw_header@ == raw && final(request).body_length
                == BodyLength::ContentLength(body@.len() as u64),
            Err(error) => r matches Err(e) && e@ == error && untouched(
                *old(request),
                *final(request),
            ),
        },
{
    let header = &request.raw_header.as_slice()[0..header_end];
    let ghost whole = request.raw_header@.take(header_end as int);
    assert(header@ == whole);
    if utf8_text(header).is_none() {
        return Err(HttpError::HeaderNotUtf8);
    }
    let n: usize = header.len();
    if n < 4 || header[n - 4] != 13 || header[n - 3] != 10 || header[n - 2] != 13 || header[n - 1]
        != 10 {
        return Err(HttpError::HeaderNotTerminated);
    }
    let text = &header[0..n - 4];
    assert(text@ == whole.take(n - 4));
    let all = split_lines(text);
    let ghost spec_lines = lines(text@);
    let mut normalized: Vec<u8> = Vec::new();
    let mut k: usize = 0;
    assert(normalized@ == kept_lines(spec_lines, 0));
    while k < all.len()
        invariant
            k <= all@.len(),
            all@.len() == spec_lines.len(),
            forall|j: int| 0 <= j < all@.len() ==> (#[trigger] all@[j])@ == spec_lines[j],
            normalized@ == kept_lines(spec_lines, k as int),
        decreases all@.len() - k,
    {
        assert(all@[k as int]@ == spec_lines[k as int]);
        if k == 0 || !is_framing_header(all[k].as_slice()) {
            normalized.extend_from_slice(all[k].as_slice());
            normalized.push(13);
            normalized.push(10);
            assert(normalized@ == kept_lines(spec_lines, k as int) + spec_lines[k as int] + crlf());
        }
        k = k + 1;
    }
    let mut line = "Content-Length: ".to_string();
    line.append(decimal_text(body.len()).as_str());
    line.append("\r\n\r\n");
    normalized.extend_from_slice(line.as_str().as_bytes());
    normalized.extend_from_slice(body);
    assert(normalized@ == kept_lines(spec_lines, spec_lines.len() as int) + length_line(
        body@.len(),
    ) + body@);
    request.raw_header = normalized;
    request.body_length = BodyLength::ContentLength(body.len() as u64);
    Ok(())
}

/// Reads on through a chunked body and settles the request where it is complete.
fn read_chunked_body_for_inspection(request: &mut L7Request, state: ChunkedBody) -> (r: BodyRead)
    requires
        state.wf(),
    ensures
        chunked_step(*old(request), state.received(), state.limit(), *final(request), r),
{
    let mut state = state;
    match state.advance() {
        ChunkProgress::NeedMore => {
            let max: usize = state.max_body_bytes();
            let most: usize = if max > usize::MAX / 2 {
                usize::MAX
            } else {
                2 * max
            };
            if state.received_len() > most {
                BodyRead::Failed(HttpError::FramingExceedsLimit)
            } else {
                BodyRead::NeedMore(state)
            }
        },
        ChunkProgress::Failed(e) => BodyRead::Failed(e),
        ChunkProgress::Complete => {
            let end = find_header_end(request.raw_header.as_slice());
            let ghost raw = request.raw_header@;
            let (framed, body) = state.into_parts();
            request.raw_header.truncate(end);
            request.raw_header.extend_from_slice(framed.as_slice());
            assert(request.raw_header@ == head(raw) + framed@);
            assert(request.raw_header@.take(end as int) == head(raw));
            match normalize_chunked_request_to_content_length(request, end, body.as_slice()) {
                Ok(()) => BodyRead::Done(body),
                Err(e) => BodyRead::Failed(e),
            }
        },
    }
}

/// Starts reading the body of `request`, of which at most `max_body_bytes` are
/// let through. `request` is changed only once its body is complete: it then
/// holds the header and the whole body.
pub fn read_body_for_inspection(request: &mut L7Request, max_body_bytes: usize) -> (r: BodyRead)
    ensures
        match old(request).body_length {
            BodyLength::Absent => r matches BodyRead::Done(body) && body@.len() == 0 && untouched(
                *old(request),
                *final(request),
            ),
            BodyLength::ContentLength(len) => {
                let got = overflow(old(request).raw_header@);
                &&& untouched(*old(request), *final(request))
                &&& if len > usize::MAX {
                    r matches BodyRead::Failed(e) && e@ == HttpErrorView::LengthExceedsPlatform
                } else if len > max_body_bytes {
                    r matches BodyRead::Failed(e) && e@ == (HttpErrorView::BodyExceedsLimit {
                        max_body_bytes,
                    })
                } else if got.len() > len {
                    r matches BodyRead::Failed(e) && e@ == HttpErrorView::MoreThanContentLength
                } else if got.len() < len {
                    r matches BodyRead::NeedExact(n) && n == len - got.len()
                } else {
                    r matches BodyRead::Done(body) && body@ == got
                }
            },
            BodyLength::Chunked => chunked_step(
                *old(request),
                overflow(old(request).raw_header@),
                max_body_bytes,
                *final(request),
                r,
            ),
        },
{
    let end = find_header_end(request.raw_header.as_slice());
    let got = copied(&request.raw_header.as_slice()[end..request.raw_header.len()]);
    assert(got@ == overflow(request.raw_header@));
    match request.body_length {
        BodyLength::Absent => BodyRead::Done(Vec::new()),
        BodyLength::ContentLength(len) => {
            if len > usize::MAX as u64 {
                return BodyRead::Failed(HttpError::LengthExceedsPlatform);
            }
            let len: usize = len as usize;
            if len > max_body_bytes {
                return BodyRead::Failed(HttpError::BodyExceedsLimit { max_body_bytes });
            }
            if got.len() > len {
                return BodyRead::Failed(HttpError::MoreThanContentLength);
            }
            if got.len() < len {
                return BodyRead::NeedExact(len - got.len());
            }
            BodyRead::Done(got)
        },
        BodyLength::Chunked => read_chunked_body_for_inspection(
            request,
            ChunkedBody::new(got, max_body_bytes),
        ),
    }
}

/// Completes a body with a `Content-Length` by the bytes that were still
/// missing.
pub fn finish_content_length_body(request: &mut L7Request, rest: &[u8]) -> (r: Vec<u8>)
    ensures
        r@ == overflow(old(request).raw_header@) + rest@,
        final(request).raw_header@ == head(old(request).raw_header@) + r@,
        final(request).same_target(*old(request)),
        final(request).body_length == old(request).body_length,
{
    let end = find_header_end(request.raw_header.as_slice());
    let ghost raw = request.raw_header@;
    let mut body = copied(&request.raw_header.as_slice()[end..request.raw_header.len()]);
    assert(body@ == overflow(raw));
    body.extend_from_slice(rest);
    assert(body@ == overflow(raw) + rest@);
    request.raw_header.truncate(end);
    request.raw_header.extend_from_slice(body.as_slice());
    assert(request.raw_header@ == head(raw) + body@);
    body
}

/// Goes on with a chunked body after a read that gave `data`. A read that gave
/// nothing means that the connection was closed.
pub fn resume_chunked_body(request: &mut L7Request, state: ChunkedBody, data: &[u8]) -> (r:
    BodyRead)
    requires
        state.wf(),
    ensures
        data@.len() == 0 ==> (r matches BodyRead::Failed(e) && e@
            == HttpErrorView::EndedBeforeTerminator && untouched(*old(request), *final(request))),
        data@.len() > 0 ==> chunked_step(
            *old(request),
            state.received() + data@,
            state.limit(),
            *final(request),
            r,
        ),
{
    if data.len() == 0 {
        return BodyRead::Failed(HttpError::EndedBeforeTerminator);
    }
    let mut state = state;
    state.receive(data);
    read_chunked_body_for_inspection(request, state)
}

} // verus!
