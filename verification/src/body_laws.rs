//! What reading the body of a request comes to: which bytes it is made of, when more
//! are asked for, and when it is refused.

use vstd::prelude::*;
use vstd::string::*;
use vstd::utf8::*;
use crate::chunked::{scan, ChunkProgress, ChunkScan, ChunkedBody};
use crate::chunked_laws::{
    chunk_data, framed_body, lemma_chunked_body_reads_back, proper_chunks, size_line,
    trailer_lines, Chunk,
};
use crate::framing::blank_line_end;
use crate::http::{
    ends_in_blank_line, finish_content_length_body, head, overflow, read_body_for_inspection,
    resume_chunked_body, BodyRead,
};
use crate::http_error::{quoted, HttpError, HttpErrorView};
use crate::http_laws::{
    blank_line_at, header_of, lemma_body_found_behind_header, lemma_header_found,
    lemma_header_of_lines, sized_request, text_lines,
};
use crate::l7::{BodyLength, L7Request};
use crate::text::{before, decimal, same_ignoring_ascii_case, trimmed};

verus! {

/// Whether two requests are the same but for how their bytes are held.
pub open spec fn unchanged(before: L7Request, after: L7Request) -> bool {
    &&& after.action == before.action
    &&& after.target == before.target
    &&& after.query_params == before.query_params
    &&& after.raw_header@ == before.raw_header@
    &&& after.body_length == before.body_length
}

/// Whether the bytes of a request are `header`, which ends in its only blank line, and
/// `got` behind it; where there is no blank line, the header is all there is.
pub open spec fn made_of(raw: Seq<u8>, header: Seq<u8>, got: Seq<u8>) -> bool {
    &&& raw == header + got
    &&& forall|i: int| i < header.len() - 4 ==> !#[trigger] blank_line_at(header, i)
    &&& blank_line_at(header, header.len() - 4) || got.len() == 0
}

proof fn lemma_made_of(raw: Seq<u8>, header: Seq<u8>, got: Seq<u8>)
    requires
        made_of(raw, header, got),
    ensures
        head(raw) == header,
        overflow(raw) == got,
        blank_line_at(header, header.len() - 4) ==> ends_in_blank_line(header),
{
    if blank_line_at(header, header.len() - 4) {
        lemma_header_found(raw, header, got);
    } else {
        assert(raw =~= header);
        lemma_no_blank_line(raw, 0);
        assert(raw.take(raw.len() as int) =~= header);
        assert(raw.skip(raw.len() as int) =~= got);
    }
}

proof fn lemma_no_blank_line(raw: Seq<u8>, start: int)
    requires
        0 <= start,
        forall|i: int| i < raw.len() - 4 ==> !#[trigger] blank_line_at(raw, i),
        !blank_line_at(raw, raw.len() - 4),
    ensures
        blank_line_end(raw, start) == raw.len(),
    decreases raw.len() - start,
{
    if start + 4 <= raw.len() {
        assert(!blank_line_at(raw, start));
        lemma_no_blank_line(raw, start + 1);
    }
}

/// A request without a body has an empty one, and is left as it is.
pub proof fn lemma_absent_body_is_empty(request: &mut L7Request, max: usize, r: BodyRead)
    requires
        call_ensures(read_body_for_inspection, (request, max), r),
        old(request).body_length == BodyLength::Absent,
    ensures
        r matches BodyRead::Done(body) && body@.len() == 0,
        unchanged(*old(request), *final(request)),
{
}

/// Of a body of an announced length the bytes behind the header are all or a part: it
/// is done where they are as many as announced, the missing ones are asked for where
/// they are fewer, and it is refused where they are more, or where the length is above
/// the limit. The request is left as it is.
pub proof fn lemma_announced_length(
    request: &mut L7Request,
    max: usize,
    r: BodyRead,
    header: Seq<u8>,
    got: Seq<u8>,
    len: u64,
)
    requires
        call_ensures(read_body_for_inspection, (request, max), r),
        old(request).body_length == BodyLength::ContentLength(len),
        made_of(old(request).raw_header@, header, got),
    ensures
        unchanged(*old(request), *final(request)),
        r is Done <==> got.len() == len <= max,
        r matches BodyRead::Done(body) ==> body@ == got,
        r is NeedExact <==> got.len() < len <= max,
        r matches BodyRead::NeedExact(n) ==> got.len() + n == len,
        r is Failed <==> len > max || got.len() > len,
        r matches BodyRead::Failed(e) ==> match e {
            HttpError::LengthExceedsPlatform => len > usize::MAX,
            HttpError::BodyExceedsLimit { max_body_bytes } => max_body_bytes == max && max < len
                <= usize::MAX,
            HttpError::MoreThanContentLength => len <= max && got.len() > len,
            _ => false,
        },
        !(r is NeedMore),
{
    lemma_made_of(old(request).raw_header@, header, got);
}

/// A body that comes in two reads is the same as one that came at once: with the bytes
/// that were asked for it is complete, and the request then holds it whole.
pub proof fn lemma_announced_body_in_two_reads(
    first: &mut L7Request,
    max: usize,
    missing: usize,
    second: &mut L7Request,
    rest: &[u8],
    body: Vec<u8>,
    again: &mut L7Request,
    whole: BodyRead,
    header: Seq<u8>,
    got: Seq<u8>,
)
    requires
        call_ensures(read_body_for_inspection, (first, max), BodyRead::NeedExact(missing)),
        made_of(old(first).raw_header@, header, got),
        blank_line_at(header, header.len() - 4),
        unchanged(*old(first), *old(second)),
        call_ensures(finish_content_length_body, (second, rest), body),
        rest@.len() == missing,
        unchanged(*final(second), *old(again)),
        call_ensures(read_body_for_inspection, (again, max), whole),
    ensures
        body@ == got + rest@,
        final(second).raw_header@ == header + got + rest@,
        old(first).body_length == BodyLength::ContentLength(body@.len() as u64),
        final(second).body_length == old(first).body_length,
        whole matches BodyRead::Done(b) && b@ == body@,
{
    let raw = old(first).raw_header@;
    lemma_made_of(raw, header, got);
    assert(header + (got + rest@) =~= header + got + rest@);
    lemma_body_found_behind_header(raw, got + rest@);
}

/// Whether a header of the given lines is followed by a chunked body that is within the
/// limit, and by further bytes.
pub open spec fn chunked_request(
    raw: Seq<u8>,
    list: Seq<Seq<u8>>,
    chunks: Seq<Chunk>,
    last: Seq<u8>,
    trailers: Seq<Seq<u8>>,
    more: Seq<u8>,
    max: usize,
) -> bool {
    &&& raw == header_of(list) + (framed_body(chunks, last, trailers) + more)
    &&& text_lines(list)
    &&& forall|k: int| 1 <= k < list.len() ==> (#[trigger] list[k]).len() > 0
    &&& framed_body(chunks, last, trailers).len() <= usize::MAX
    &&& chunk_data(chunks).len() <= max
    &&& proper_chunks(chunks)
    &&& size_line(last, 0)
    &&& trailer_lines(trailers)
}

/// A chunked body that came with its header is read as the bytes of its chunks, and the
/// request is then framed by `Content-Length`: it holds its lines but for those about
/// framing, the length, and the body, without the bytes behind the framing.
pub proof fn lemma_chunked_request_is_reframed(
    request: &mut L7Request,
    max: usize,
    r: BodyRead,
    list: Seq<Seq<u8>>,
    chunks: Seq<Chunk>,
    last: Seq<u8>,
    trailers: Seq<Seq<u8>>,
    more: Seq<u8>,
)
    requires
        call_ensures(read_body_for_inspection, (request, max), r),
        old(request).body_length == BodyLength::Chunked,
        chunked_request(old(request).raw_header@, list, chunks, last, trailers, more, max),
    ensures
        r matches BodyRead::Done(body) && body@ == chunk_data(chunks),
        final(request).raw_header@ == sized_request(
            seq![list[0]] + list.skip(1).filter(
                |line: Seq<u8>|
                    {
                        let name = trimmed(decode_utf8(before(line, 58u8)));
                        !line.contains(58u8) || {
                            &&& !same_ignoring_ascii_case(name, "transfer-encoding"@)
                            &&& !same_ignoring_ascii_case(name, "content-length"@)
                            &&& !same_ignoring_ascii_case(name, "trailer"@)
                        }
                    },
            ),
            chunk_data(chunks),
        ),
        final(request).body_length == BodyLength::ContentLength(chunk_data(chunks).len() as u64),
        final(request).action == old(request).action,
        final(request).target == old(request).target,
        final(request).query_params == old(request).query_params,
{
    let raw = old(request).raw_header@;
    let framed = framed_body(chunks, last, trailers) + more;
    lemma_header_of_lines(list, framed, chunk_data(chunks));
    lemma_chunked_body_reads_back(chunks, last, trailers, more, max);
}

/// While a chunked body is incomplete the request is left as it is, and more bytes are
/// asked for as long as no more than twice the limit have come; then it is refused.
/// What came is kept, and nothing else.
pub proof fn lemma_twice_the_limit(request: &mut L7Request, state: ChunkedBody, data: &[u8], r:
    BodyRead)
    requires
        call_ensures(resume_chunked_body, (request, state, data), r),
        data@.len() > 0,
        state.received().len() + data@.len() <= usize::MAX,
    ensures
        scan(state.received() + data@, state.limit()) is Incomplete ==> {
            &&& unchanged(*old(request), *final(request))
            &&& if state.received().len() + data@.len() <= 2 * state.limit() {
                r matches BodyRead::NeedMore(next) && next.received() == state.received() + data@
                    && next.limit() == state.limit()
            } else {
                r matches BodyRead::Failed(e) && e is FramingExceedsLimit
            }
        },
        r is NeedMore ==> scan(state.received() + data@, state.limit()) is Incomplete,
        !(r is NeedExact),
{
}

/// Bytes that cannot become a body that is let through are refused for the reason that the
/// first fault in them gives, and the request is left as it is; so is one whose complete
/// body stands behind a header that is no UTF-8, but for the bytes it holds.
pub proof fn lemma_refused_bodies(
    request: &mut L7Request,
    max: usize,
    r: BodyRead,
    header: Seq<u8>,
    got: Seq<u8>,
)
    requires
        call_ensures(read_body_for_inspection, (request, max), r),
        old(request).body_length == BodyLength::Chunked,
        made_of(old(request).raw_header@, header, got),
    ensures
        scan(got, max) matches ChunkScan::Bad(fault) ==> {
            &&& r matches BodyRead::Failed(e)
            &&& e@ == fault
            &&& unchanged(*old(request), *final(request))
        },
        scan(got, max) is Complete && blank_line_at(header, header.len() - 4) ==> {
            &&& r is Done <==> valid_utf8(header)
            &&& !valid_utf8(header) ==> match r {
                BodyRead::Failed(e) => {
                    &&& e is HeaderNotUtf8
                    &&& final(request).raw_header@ == header + got.take(scan(got, max)->end)
                    &&& final(request).body_length == BodyLength::Chunked
                },
                _ => false,
            }
        },
        r is Done ==> scan(got, max) is Complete,
{
    lemma_made_of(old(request).raw_header@, header, got);
}

/// The same of a body that is gone on with, where the header may also lack its blank line.
pub proof fn lemma_resumed_bodies(
    request: &mut L7Request,
    state: ChunkedBody,
    data: &[u8],
    r: BodyRead,
    header: Seq<u8>,
    got: Seq<u8>,
)
    requires
        call_ensures(resume_chunked_body, (request, state, data), r),
        data@.len() > 0,
        made_of(old(request).raw_header@, header, got),
    ensures
        ({
            let received = state.received() + data@;
            let terminated = blank_line_at(header, header.len() - 4);
            match scan(received, state.limit()) {
                ChunkScan::Incomplete => r is NeedMore || r is Failed,
                ChunkScan::Bad(fault) => {
                    &&& r matches BodyRead::Failed(e)
                    &&& e@ == fault
                    &&& unchanged(*old(request), *final(request))
                },
                ChunkScan::Complete { body, end } => {
                    &&& r is Done <==> valid_utf8(header) && terminated
                    &&& r matches BodyRead::Done(b) ==> b@ == body
                    &&& r is Done || r is Failed
                    &&& r matches BodyRead::Failed(e) ==> {
                        &&& e is HeaderNotUtf8 || e is HeaderNotTerminated
                        &&& e is HeaderNotUtf8 <==> !valid_utf8(header)
                        &&& final(request).raw_header@ == header + received.take(end)
                        &&& final(request).body_length == old(request).body_length
                    }
                },
            }
        }),
        final(request).action == old(request).action,
        final(request).target == old(request).target,
        final(request).query_params == old(request).query_params,
{
    lemma_made_of(old(request).raw_header@, header, got);
    if !blank_line_at(header, header.len() - 4) {
        assert(!ends_in_blank_line(header));
    }
}

/// A read that gives nothing while more is awaited ends the matter: the body is refused
/// and the request left as it is.
pub proof fn lemma_closed_connection(request: &mut L7Request, state: ChunkedBody, data: &[u8], r:
    BodyRead)
    requires
        call_ensures(resume_chunked_body, (request, state, data), r),
        data@.len() == 0,
    ensures
        r matches BodyRead::Failed(e) && e is EndedBeforeTerminator,
        unchanged(*old(request), *final(request)),
{
}

/// Whether two results of a read say the same.
pub open spec fn same_result(a: BodyRead, b: BodyRead) -> bool {
    match (a, b) {
        (BodyRead::Done(x), BodyRead::Done(y)) => x@ == y@,
        (BodyRead::NeedExact(x), BodyRead::NeedExact(y)) => x == y,
        (BodyRead::NeedMore(x), BodyRead::NeedMore(y)) => x.received() == y.received()
            && x.limit() == y.limit(),
        (BodyRead::Failed(x), BodyRead::Failed(y)) => x@ == y@,
        _ => false,
    }
}

/// It does not matter in which pieces a chunked body comes: going on with further bytes
/// after a read gives what reading them together with the earlier ones gives, unless a
/// complete body stands behind a header that cannot be reframed, where the request is
/// left with what was read.
pub proof fn lemma_pieces_do_not_matter(
    first: &mut L7Request,
    state: ChunkedBody,
    second: &mut L7Request,
    data: &[u8],
    in_pieces: BodyRead,
    whole: &mut L7Request,
    max: usize,
    at_once: BodyRead,
    header: Seq<u8>,
    got: Seq<u8>,
)
    requires
        call_ensures(read_body_for_inspection, (first, max), BodyRead::NeedMore(state)),
        old(first).body_length == BodyLength::Chunked,
        made_of(old(first).raw_header@, header, got),
        blank_line_at(header, header.len() - 4),
        unchanged(*old(first), *old(second)),
        data@.len() > 0,
        call_ensures(resume_chunked_body, (second, state, data), in_pieces),
        old(whole).raw_header@ == old(first).raw_header@ + data@,
        old(whole).body_length == BodyLength::Chunked,
        old(whole).action == old(first).action,
        old(whole).target == old(first).target,
        old(whole).query_params == old(first).query_params,
        call_ensures(read_body_for_inspection, (whole, max), at_once),
    ensures
        same_result(in_pieces, at_once),
        in_pieces is Done ==> unchanged(*final(second), *final(whole)),
{
    let raw = old(first).raw_header@;
    lemma_made_of(raw, header, got);
    assert(old(whole).raw_header@ =~= header + (got + data@));
    lemma_made_of(old(whole).raw_header@, header, got + data@);
}

/// A reader of a chunked body that was given bytes in two pieces stands where one stands
/// that was given them at once.
pub proof fn lemma_reader_takes_pieces(
    first: Vec<u8>,
    max: usize,
    made: ChunkedBody,
    fed: &mut ChunkedBody,
    data: &[u8],
    run: &mut ChunkedBody,
    r: ChunkProgress,
)
    requires
        call_ensures(ChunkedBody::new, (first, max), made),
        *old(fed) == made,
        call_ensures(ChunkedBody::receive, (fed, data), ()),
        *old(run) == *final(fed),
        call_ensures(ChunkedBody::advance, (run,), r),
    ensures
        final(run).received() == first@ + data@,
        final(run).limit() == max,
        match scan(first@ + data@, max) {
            ChunkScan::Incomplete => r is NeedMore,
            ChunkScan::Bad(fault) => r matches ChunkProgress::Failed(e) && e@ == fault,
            ChunkScan::Complete { body, end } => r is Complete && final(run).body() == body
                && final(run).consumed() == end,
        },
{
}

/// A reason stands for itself, with the limit or the token that it names.
pub proof fn lemma_reasons(error: HttpError)
    ensures
        match error {
            HttpError::LengthExceedsPlatform => error@ is LengthExceedsPlatform,
            HttpError::BodyExceedsLimit { max_body_bytes } => error@
                == (HttpErrorView::BodyExceedsLimit { max_body_bytes }),
            HttpError::MoreThanContentLength => error@ is MoreThanContentLength,
            HttpError::HeaderNotUtf8 => error@ is HeaderNotUtf8,
            HttpError::HeaderNotTerminated => error@ is HeaderNotTerminated,
            HttpError::ChunkLineNotUtf8 => error@ is ChunkLineNotUtf8,
            HttpError::InvalidChunkSize { token } => error@ == (HttpErrorView::InvalidChunkSize {
                token: token@,
            }),
            HttpError::ChunkSizeOverflow => error@ is ChunkSizeOverflow,
            HttpError::ChunkNotTerminated => error@ is ChunkNotTerminated,
            HttpError::FramingExceedsLimit => error@ is FramingExceedsLimit,
            HttpError::EndedBeforeTerminator => error@ is EndedBeforeTerminator,
        },
{
}

/// The message for each reason why a body is refused.
pub proof fn lemma_refusal_messages(error: HttpError, r: String)
    requires
        call_ensures(HttpError::message, (&error,), r),
    ensures
        match error {
            HttpError::LengthExceedsPlatform => r@
                == "HTTP request body length exceeds platform limit"@,
            HttpError::BodyExceedsLimit { max_body_bytes } => r@ == "HTTP request body exceeds "@
                + decimal(max_body_bytes as nat) + " byte inspection limit"@,
            HttpError::MoreThanContentLength => r@
                == "HTTP request contains more body bytes than Content-Length"@,
            HttpError::HeaderNotUtf8 => r@ == "HTTP headers contain invalid UTF-8"@,
            HttpError::HeaderNotTerminated => r@ == "HTTP headers missing terminator"@,
            HttpError::ChunkLineNotUtf8 => r@ == "Invalid UTF-8 in HTTP chunk-size line"@,
            HttpError::InvalidChunkSize { token } => r@ == "Invalid HTTP chunk size token: "@
                + quoted(token@),
            HttpError::ChunkSizeOverflow => r@ == "HTTP chunk size overflow"@,
            HttpError::ChunkNotTerminated => r@ == "HTTP chunk payload missing terminating CRLF"@,
            HttpError::FramingExceedsLimit => r@
                == "HTTP chunked request body exceeds inspection framing limit"@,
            HttpError::EndedBeforeTerminator => r@ == "HTTP chunked body ended before terminator"@,
        },
{
}

} // verus!
