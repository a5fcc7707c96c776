//! Which requests ask for a stream of server-sent events.

use vstd::prelude::*;
use vstd::string::*;
use vstd::utf8::*;
use crate::framing::find_header_end;
use crate::http::head;
use crate::l7::L7Request;
use crate::text::{
    before, chars_of, copy_range, eq_ignore_ascii_case, first_index, position,
    same_ignoring_ascii_case, split, split_chars, trim_chars, trimmed,
};
use crate::utf8::{lossy_text, read_lossy};

verus! {

/// Whether one element of an `Accept` value, apart from its parameters, is the
/// media type of server-sent events.
pub open spec fn names_event_stream(element: Seq<char>) -> bool {
    same_ignoring_ascii_case(trimmed(before(element, ';')), "text/event-stream"@)
}

/// Whether an `Accept` value lists the media type of server-sent events.
pub open spec fn lists_event_stream(value: Seq<char>) -> bool {
    let elements = split(value, ',');
    exists|k: int| 0 <= k < elements.len() && names_event_stream(#[trigger] elements[k])
}

/// Whether a header line is an `Accept` line that lists server-sent events. A
/// carriage return at its end is white space and does not count.
pub open spec fn line_accepts_sse(line: Seq<char>) -> bool {
    let colon = first_index(line, ':');
    &&& colon < line.len()
    &&& same_ignoring_ascii_case(trimmed(line.take(colon)), "accept"@)
    &&& lists_event_stream(line.skip(colon + 1))
}

/// Whether a header, in any line but the request line, accepts server-sent
/// events.
pub open spec fn accepts_sse(header: Seq<char>) -> bool {
    let all = split(header, '\n');
    exists|k: int| 1 <= k < all.len() && line_accepts_sse(#[trigger] all[k])
}

/// Whether an `Accept` value lists the media type of server-sent events.
fn value_lists_event_stream(value: &Vec<char>) -> (r: bool)
    ensures
        r == lists_event_stream(value@),
{
    let elements = split_chars(value, ',');
    let mut k: usize = 0;
    while k < elements.len()
        invariant
            k <= elements@.len(),
            elements@.len() == split(value@, ',').len(),
            forall|j: int|
                0 <= j < elements@.len() ==> (#[trigger] elements@[j])@ == split(value@, ',')[j],
            forall|j: int| 0 <= j < k ==> !names_event_stream(#[trigger] split(value@, ',')[j]),
        decreases elements@.len() - k,
    {
        let element = &elements[k];
        assert(element@ == split(value@, ',')[k as int]);
        let end = position(element, ';');
        let media_type = trim_chars(&copy_range(element, 0, end));
        assert(element@.subrange(0, end as int) == before(element@, ';'));
        if eq_ignore_ascii_case(&media_type, "text/event-stream") {
            return true;
        }
        k = k + 1;
    }
    false
}

/// Whether a header line is an `Accept` line that lists server-sent events.
fn is_sse_accept_line(line: &Vec<char>) -> (r: bool)
    ensures
        r == line_accepts_sse(line@),
{
    let colon = position(line, ':');
    if colon == line.len() {
        return false;
    }
    let name = trim_chars(&copy_range(line, 0, colon));
    assert(line@.subrange(0, colon as int) == line@.take(colon as int));
    assert(line@.subrange(colon + 1, line@.len() as int) == line@.skip(colon + 1));
    eq_ignore_ascii_case(&name, "accept") && value_lists_event_stream(
        &copy_range(line, colon + 1, line.len()),
    )
}

/// Whether a header accepts server-sent events.
pub fn header_accepts_sse(header: &str) -> (r: bool)
    ensures
        r == accepts_sse(header@),
{
    let lines = split_chars(&chars_of(header), '\n');
    let mut k: usize = 1;
    while k < lines.len()
        invariant
            1 <= k,
            lines@.len() == split(header@, '\n').len(),
            forall|j: int|
                0 <= j < lines@.len() ==> (#[trigger] lines@[j])@ == split(header@, '\n')[j],
            forall|j: int|
                1 <= j < k && j < lines@.len() ==> !line_accepts_sse(
                    #[trigger] split(header@, '\n')[j],
                ),
        decreases lines@.len() - k,
    {
        assert(lines@[k as int]@ == split(header@, '\n')[k as int]);
        if is_sse_accept_line(&lines[k]) {
            return true;
        }
        k = k + 1;
    }
    false
}

/// Whether the header of a request accepts server-sent events.
pub fn request_accepts_sse(request: &L7Request) -> (r: bool)
    ensures
        r == accepts_sse(lossy_text(head(request.raw_header@))),
        valid_utf8(head(request.raw_header@)) ==> r == accepts_sse(
            decode_utf8(head(request.raw_header@)),
        ),
{
    let end = find_header_end(request.raw_header.as_slice());
    let header = &request.raw_header.as_slice()[0..end];
    assert(header@ == head(request.raw_header@));
    header_accepts_sse(read_lossy(header).as_str())
}

} // verus!
