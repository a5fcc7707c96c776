//! Line ends in HTTP/1.1 bytes, and where a header ends.

use vstd::prelude::*;

verus! {

/// Whether a carriage return and a line feed stand at `i`.
pub open spec fn crlf_at(s: Seq<u8>, i: int) -> bool {
    0 <= i && i + 2 <= s.len() && s[i] == 13 && s[i + 1] == 10
}

/// The bytes of a line end.
pub open spec fn crlf() -> Seq<u8> {
    seq![13u8, 10u8]
}

/// Whether no line end stands in `line`.
pub open spec fn one_line(line: Seq<u8>) -> bool {
    forall|i: int| !#[trigger] crlf_at(line, i)
}

/// The first line end at or after `start`.
pub open spec fn next_crlf(s: Seq<u8>, start: int) -> Option<int>
    decreases s.len() - start,
{
    if start < 0 || start + 2 > s.len() {
        None
    } else if crlf_at(s, start) {
        Some(start)
    } else {
        next_crlf(s, start + 1)
    }
}

/// Where the first blank line at or after `start` ends; the length of `s` where
/// there is none.
pub open spec fn blank_line_end(s: Seq<u8>, start: int) -> int
    decreases s.len() - start,
{
    if start < 0 || start + 4 > s.len() {
        s.len() as int
    } else if crlf_at(s, start) && crlf_at(s, start + 2) {
        start + 4
    } else {
        blank_line_end(s, start + 1)
    }
}

/// Where the header of a request ends.
pub open spec fn header_end(raw: Seq<u8>) -> int {
    blank_line_end(raw, 0)
}

pub proof fn lemma_next_crlf(s: Seq<u8>, start: int)
    requires
        0 <= start,
    ensures
        match next_crlf(s, start) {
            Some(i) => start <= i && crlf_at(s, i) && forall|j: int|
                start <= j < i ==> !crlf_at(s, j),
            None => forall|j: int| start <= j ==> !crlf_at(s, j),
        },
    decreases s.len() - start,
{
    if start + 2 > s.len() {
    } else if crlf_at(s, start) {
    } else {
        lemma_next_crlf(s, start + 1);
    }
}

pub proof fn lemma_next_crlf_is(s: Seq<u8>, start: int, i: int)
    requires
        0 <= start <= i,
        crlf_at(s, i),
        forall|j: int| start <= j < i ==> !crlf_at(s, j),
    ensures
        next_crlf(s, start) == Some(i),
    decreases i - start,
{
    if start < i {
        lemma_next_crlf_is(s, start + 1, i);
    }
}

pub proof fn lemma_next_crlf_extend(raw: Seq<u8>, more: Seq<u8>, pos: int)
    requires
        0 <= pos,
        next_crlf(raw, pos) is Some,
    ensures
        next_crlf(raw + more, pos) == next_crlf(raw, pos),
{
    lemma_next_crlf(raw, pos);
    let end = next_crlf(raw, pos)->0;
    assert forall|j: int| pos <= j < end implies !crlf_at(raw + more, j) by {
        assert(!crlf_at(raw, j));
    }
    lemma_next_crlf_is(raw + more, pos, end);
}

pub proof fn lemma_blank_line_end(s: Seq<u8>, start: int)
    requires
        0 <= start <= s.len(),
    ensures
        start <= blank_line_end(s, start) <= s.len(),
        forall|j: int|
            start <= j && j + 4 < blank_line_end(s, start) && crlf_at(s, j)
                ==> !#[trigger] crlf_at(s, j + 2),
    decreases s.len() - start,
{
    if start + 4 > s.len() {
    } else if crlf_at(s, start) && crlf_at(s, start + 2) {
    } else {
        lemma_blank_line_end(s, start + 1);
    }
}

/// The first line end in `buf` at or after `start`.
pub fn find_crlf(buf: &[u8], start: usize) -> (r: Option<usize>)
    ensures
        match r {
            Some(i) => next_crlf(buf@, start as int) == Some(i as int) && i + 2 <= buf@.len(),
            None => next_crlf(buf@, start as int) is None,
        },
{
    let mut i: usize = start;
    while i < buf.len() && buf.len() - i >= 2
        invariant
            start <= i,
            start <= buf@.len() ==> i <= buf@.len(),
            next_crlf(buf@, start as int) == next_crlf(buf@, i as int),
        decreases buf@.len() - i,
    {
        if buf[i] == 13 && buf[i + 1] == 10 {
            return Some(i);
        }
        i = i + 1;
    }
    None
}

/// Where the header in `raw` ends.
pub fn find_header_end(raw: &[u8]) -> (r: usize)
    ensures
        r == header_end(raw@),
        r <= raw@.len(),
{
    let mut i: usize = 0;
    while raw.len() - i >= 4
        invariant
            i <= raw@.len(),
            header_end(raw@) == blank_line_end(raw@, i as int),
        decreases raw@.len() - i,
    {
        if raw[i] == 13 && raw[i + 1] == 10 && raw[i + 2] == 13 && raw[i + 3] == 10 {
            return i + 4;
        }
        i = i + 1;
    }
    raw.len()
}

} // verus!
