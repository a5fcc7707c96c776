//! Which header texts accept server-sent events.

use vstd::prelude::*;
use vstd::string::*;
use vstd::utf8::*;
use crate::accept::{
    accepts_sse, header_accepts_sse, line_accepts_sse, lists_event_stream, names_event_stream,
    request_accepts_sse,
};
use crate::http::head;
use crate::jsonrpc::{
    jsonrpc_receive_stream_request, parse_jsonrpc_http_request, JsonRpcHttpStep,
};
use crate::l7::{BodyLength, L7Request};
use crate::text::{ first_index, lemma_first_index, same_ignoring_ascii_case, split, trimmed};
use crate::text_laws::{
    free_of, lemma_before, lemma_piece_is_split, lemma_split_pieces, lemma_trimmed_bounds,
};
use crate::utf8::lossy_text;

verus! {

/// Whether `text` stands somewhere in `s`, in any ASCII case.
pub open spec fn somewhere_in(s: Seq<char>, text: Seq<char>) -> bool {
    exists|p: int| #![trigger s.subrange(p, p + text.len())]
        0 <= p && p + text.len() <= s.len() && same_ignoring_ascii_case(
            s.subrange(p, p + text.len()),
            text,
        )
}

/// The parts of a header text round an element of a line: `top` is what stands before
/// the line, `name` its name, `left` and `right` the other elements, `media` and
/// `params` the element, and `rest` what stands behind the line.
pub struct ElementOfLine {
    pub top: Seq<char>,
    pub name: Seq<char>,
    pub left: Seq<char>,
    pub media: Seq<char>,
    pub params: Seq<char>,
    pub right: Seq<char>,
    pub rest: Seq<char>,
}

impl ElementOfLine {
    /// The line.
    pub open spec fn line(self) -> Seq<char> {
        self.name + seq![':'] + self.left + self.media + self.params + self.right
    }

    /// The header text.
    pub open spec fn header(self) -> Seq<char> {
        self.top + self.line() + self.rest
    }

    /// Whether the parts are told apart where they have to be: line feeds stand round
    /// the line, which is not the first, a colon behind the name, commas round the
    /// element, and a semicolon before its parameters.
    pub open spec fn apart(self) -> bool {
        &&& self.top.len() > 0 && self.top.last() == '\n'
        &&& free_of(self.line(), '\n')
        &&& self.rest.len() == 0 || self.rest[0] == '\n'
        &&& free_of(self.name, ':')
        &&& self.left.len() == 0 || self.left.last() == ','
        &&& self.right.len() == 0 || self.right[0] == ','
        &&& free_of(self.media + self.params, ',')
        &&& free_of(self.media, ';')
        &&& self.params.len() == 0 || self.params[0] == ';'
    }
}

/// Whether a header text holds an `Accept` line behind its first line that has the
/// element in it, and that element is the media type of server-sent events.
spec fn accept_element(header: Seq<char>, e: ElementOfLine) -> bool {
    &&& e.header() == header
    &&& e.apart()
    &&& same_ignoring_ascii_case(trimmed(e.name), "accept"@)
    &&& same_ignoring_ascii_case(trimmed(e.media), "text/event-stream"@)
}

proof fn lemma_element_found(header: Seq<char>) -> (e: ElementOfLine)
    requires
        accepts_sse(header),
    ensures
        accept_element(header, e),
{
    let all = split(header, '\n');
    let k = choose|k: int| 1 <= k < all.len() && line_accepts_sse(#[trigger] all[k]);
    let line = all[k];
    let (top, rest) = lemma_split_pieces(header, '\n', k);
    let colon = first_index(line, ':');
    lemma_first_index(line, ':');
    let name = line.take(colon);
    let value = line.skip(colon + 1);
    let elements = split(value, ',');
    let j = choose|j: int| 0 <= j < elements.len() && names_event_stream(#[trigger] elements[j]);
    let element = elements[j];
    let (left, right) = lemma_split_pieces(value, ',', j);
    let cut = first_index(element, ';');
    lemma_first_index(element, ';');
    let media = element.take(cut);
    let params = element.skip(cut);
    let e = ElementOfLine { top, name, left, media, params, right, rest };
    assert(media + params =~= element);
    assert(e.line() =~= name + seq![':'] + value) by {
        assert(value =~= left + media + params + right);
    }
    assert(e.line() =~= line);
    assert(e.header() =~= header);
    e
}

proof fn lemma_element_accepts(header: Seq<char>, e: ElementOfLine)
    requires
        accept_element(header, e),
    ensures
        accepts_sse(header),
{
    let line = e.line();
    let element = e.media + e.params;
    let value = e.left + element + e.right;
    let k = lemma_piece_is_split(header, '\n', e.top, line, e.rest);
    let tail = seq![':'] + value;
    assert(line =~= e.name + tail);
    lemma_before(line, ':', e.name, tail);
    assert(line.take(e.name.len() as int) =~= e.name);
    assert(line.skip(e.name.len() as int + 1) =~= value);
    let j = lemma_piece_is_split(value, ',', e.left, element, e.right);
    lemma_before(element, ';', e.media, e.params);
    assert(names_event_stream(split(value, ',')[j]));
    assert(lists_event_stream(value));
    assert(line_accepts_sse(split(header, '\n')[k]));
}

/// A header accepts server-sent events exactly if one of its lines but the first is
/// an `Accept` line, in any case and with white space round the name, with an element
/// that is `text/event-stream` apart from its parameters, case and white space.
pub proof fn lemma_stream_headers(header: &str, r: bool)
    requires
        call_ensures(header_accepts_sse, (header,), r),
    ensures
        r <==> exists|e: ElementOfLine| {
            &&& #[trigger] e.header() == header@
            &&& e.apart()
            &&& same_ignoring_ascii_case(trimmed(e.name), "accept"@)
            &&& same_ignoring_ascii_case(trimmed(e.media), "text/event-stream"@)
        },
{
    if r {
        let e = lemma_element_found(header@);
        assert(e.header() == header@);
    }
    if exists|e: ElementOfLine| {
        &&& #[trigger] e.header() == header@
        &&& e.apart()
        &&& same_ignoring_ascii_case(trimmed(e.name), "accept"@)
        &&& same_ignoring_ascii_case(trimmed(e.media), "text/event-stream"@)
    } {
        let e = choose|e: ElementOfLine| {
            &&& #[trigger] e.header() == header@
            &&& e.apart()
            &&& same_ignoring_ascii_case(trimmed(e.name), "accept"@)
            &&& same_ignoring_ascii_case(trimmed(e.media), "text/event-stream"@)
        };
        lemma_element_accepts(header@, e);
    }
}

proof fn lemma_text_shows(header: Seq<char>)
    requires
        accepts_sse(header),
    ensures
        somewhere_in(header, "text/event-stream"@),
        somewhere_in(header, "accept"@),
{
    let e = lemma_element_found(header);
    let (i, j) = lemma_trimmed_bounds(e.media);
    let p = e.top.len() + e.name.len() + 1 + e.left.len() + i;
    assert(header.subrange(p, p + "text/event-stream"@.len()) =~= e.media.subrange(i, j));
    let (a, b) = lemma_trimmed_bounds(e.name);
    let q = e.top.len() + a;
    assert(header.subrange(q, q + "accept"@.len()) =~= e.name.subrange(a, b));
}

/// A header in which the media type does not stand, or no `accept`, is not taken for
/// that of a stream request, whatever else it accepts.
pub proof fn lemma_no_stream_without_media_type(header: &str, r: bool)
    requires
        call_ensures(header_accepts_sse, (header,), r),
        !somewhere_in(header@, "text/event-stream"@) || !somewhere_in(header@, "accept"@),
    ensures
        !r,
{
    if r {
        lemma_text_shows(header@);
    }
}

/// The header of a request, and not what stands behind it, says what it accepts.
pub proof fn lemma_accepting_requests(request: &L7Request, header: &str, r: bool, s: bool)
    requires
        call_ensures(request_accepts_sse, (request,), r),
        call_ensures(header_accepts_sse, (header,), s),
        header@ == lossy_text(head(request.raw_header@)) || valid_utf8(head(request.raw_header@))
            && header@ == decode_utf8(head(request.raw_header@)),
    ensures
        r == s,
{
}

/// A request asks for a stream exactly if it is a `GET` in any case, has no body or an
/// empty one, and its header, read as UTF-8, holds such a line.
pub proof fn lemma_stream_requests(request: &L7Request, r: bool)
    requires
        call_ensures(jsonrpc_receive_stream_request, (request,), r),
    ensures
        r <==> {
            &&& same_ignoring_ascii_case(request.action@, "GET"@)
            &&& request.body_length == BodyLength::Absent || request.body_length
                == BodyLength::ContentLength(0)
            &&& exists|e: ElementOfLine| {
                &&& #[trigger] e.header() == lossy_text(head(request.raw_header@))
                &&& e.apart()
                &&& same_ignoring_ascii_case(trimmed(e.name), "accept"@)
                &&& same_ignoring_ascii_case(trimmed(e.media), "text/event-stream"@)
            }
        },
        r ==> somewhere_in(lossy_text(head(request.raw_header@)), "text/event-stream"@),
        valid_utf8(head(request.raw_header@)) && r ==> somewhere_in(
            decode_utf8(head(request.raw_header@)),
            "text/event-stream"@,
        ),
{
    let header = lossy_text(head(request.raw_header@));
    if accepts_sse(header) {
        let e = lemma_element_found(header);
        assert(e.header() == header);
        lemma_text_shows(header);
    }
    if exists|e: ElementOfLine| #[trigger] e.header() == header && accept_element(header, e) {
        let e = choose|e: ElementOfLine| #[trigger]
            e.header() == header && accept_element(header, e);
        lemma_element_accepts(header, e);
    }
    if valid_utf8(head(request.raw_header@)) && r {
        lemma_text_shows(decode_utf8(head(request.raw_header@)));
    }
}

/// A request that asks for a stream is let through as it is, and nothing else is said
/// of it; of any other the body is read.
pub proof fn lemma_stream_requests_pass(request: L7Request, asks: bool, r: JsonRpcHttpStep)
    requires
        call_ensures(jsonrpc_receive_stream_request, (&request,), asks),
        call_ensures(parse_jsonrpc_http_request, (request,), r),
    ensures
        !asks ==> r == JsonRpcHttpStep::ReadBody(request),
        asks ==> {
            &&& r matches JsonRpcHttpStep::Done(done)
            &&& done.request == request
            &&& done.info.receive_stream
            &&& done.info.calls@.len() == 0
            &&& !done.info.is_batch
            &&& !done.info.has_response
            &&& done.info.error is None
        },
{
    if asks {
        assert(r->Done_0.info@.calls.len() == r->Done_0.info.calls@.len());
    }
}

} // verus!
