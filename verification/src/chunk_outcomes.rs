//! What any bytes amount to as a chunked body: complete, refused, or incomplete.

use vstd::prelude::*;
use vstd::string::*;
use vstd::utf8::*;
use crate::chunked::{
    chunk_size, hex_digit, hex_value, parse_chunk_size, scan, scan_chunks, scan_trailers,
    size_token, ChunkScan,
};
use crate::chunked_laws::{
    chunk_data, framed_body, framed_chunks, framed_trailers, lemma_complete_body_keeps_limit,
    lemma_line_found, proper_chunks, size_line, trailer_lines, Chunk,
};
use crate::framing::{crlf, crlf_at, lemma_next_crlf, next_crlf, one_line};
use crate::http_error::HttpErrorView;
use crate::text::{first_index, lemma_first_index, white_space};
use crate::text_laws::{free_of, lemma_before, lemma_trimmed_bounds, lemma_trimmed_is_the_middle};

verus! {

/// The value of a hexadecimal digit by its code, and less than zero where a character is
/// none.
pub open spec fn hex_code(c: char) -> int {
    if 48 <= c as u32 <= 57 {
        c as u32 - 48
    } else if 97 <= c as u32 <= 102 {
        c as u32 - 87
    } else if 65 <= c as u32 <= 70 {
        c as u32 - 55
    } else {
        -1
    }
}

/// The number that hexadecimal digits stand for.
pub open spec fn hex_number(digits: Seq<char>) -> int
    decreases digits.len(),
{
    if digits.len() == 0 {
        0
    } else {
        16 * hex_number(digits.drop_last()) + hex_code(digits.last())
    }
}

/// Whether all characters are hexadecimal digits, in either case.
pub open spec fn hex_digits(digits: Seq<char>) -> bool {
    forall|i: int| 0 <= i < digits.len() ==> hex_code(#[trigger] digits[i]) >= 0
}

proof fn lemma_hex_code(c: char)
    ensures
        hex_code(c) >= 0 <==> hex_digit(c) is Some,
        hex_digit(c) matches Some(d) ==> d == hex_code(c),
{
}

proof fn lemma_hex_number(digits: Seq<char>)
    ensures
        hex_digits(digits) <==> hex_value(digits) is Some,
        hex_value(digits) matches Some(n) ==> n == hex_number(digits),
    decreases digits.len(),
{
    if digits.len() > 0 {
        let rest = digits.drop_last();
        lemma_hex_number(rest);
        lemma_hex_code(digits.last());
        if hex_digits(digits) {
            assert forall|i: int| 0 <= i < rest.len() implies hex_code(#[trigger] rest[i]) >= 0 by {
                assert(hex_code(digits[i]) >= 0);
            }
            assert(hex_code(digits[digits.len() - 1]) >= 0);
        }
        if hex_value(digits) is Some {
            assert forall|i: int| 0 <= i < digits.len() implies hex_code(#[trigger] digits[i])
                >= 0 by {
                if i < rest.len() {
                    assert(hex_code(rest[i]) >= 0);
                }
            }
        }
    }
}

/// A chunk size is read from hexadecimal digits in either case, at least one, with or
/// without a `+` before them, for a number that a `usize` can hold, and from nothing
/// else.
pub proof fn lemma_chunk_sizes(text: &str, r: Option<usize>, digits: Seq<char>)
    requires
        call_ensures(parse_chunk_size, (text,), r),
        text@ == digits && (digits.len() > 0 ==> digits[0] != '+') || text@ == seq!['+'] + digits,
    ensures
        r is Some <==> digits.len() > 0 && hex_digits(digits) && hex_number(digits) <= usize::MAX,
        r matches Some(n) ==> n == hex_number(digits),
{
    if text@ == seq!['+'] + digits {
        assert(text@.skip(1) =~= digits);
    }
    lemma_hex_number(digits);
}

/// The size token of a line is what stands before the first `;` without the white space
/// around it.
pub proof fn lemma_size_token(
    line: Seq<char>,
    left: Seq<char>,
    token: Seq<char>,
    right: Seq<char>,
    extension: Seq<char>,
)
    requires
        line == left + token + right + extension,
        forall|i: int| 0 <= i < left.len() ==> white_space(#[trigger] left[i]),
        forall|i: int| 0 <= i < right.len() ==> white_space(#[trigger] right[i]),
        token.len() > 0 ==> !white_space(token[0]) && !white_space(token.last()),
        free_of(token, ';'),
        extension.len() == 0 || extension[0] == ';',
    ensures
        size_token(line) == token,
{
    let sized = left + token + right;
    assert(free_of(sized, ';')) by {
        assert forall|i: int| 0 <= i < sized.len() implies #[trigger] sized[i] != ';' by {
            if i < left.len() {
                assert(white_space(left[i]));
            } else if i < left.len() + token.len() {
                assert(token[i - left.len()] != ';');
            } else {
                assert(white_space(right[i - left.len() - token.len()]));
            }
        }
    }
    lemma_before(line, ';', sized, extension);
    let a = left.len() as int;
    let b = a + token.len();
    if token.len() > 0 {
        assert(sized[a] == token[0] && sized[b - 1] == token.last());
        assert forall|k: int| 0 <= k < a implies white_space(#[trigger] sized[k]) by {
            assert(white_space(left[k]));
        }
        assert forall|k: int| b <= k < sized.len() implies white_space(#[trigger] sized[k]) by {
            assert(white_space(right[k - b]));
        }
    } else {
        assert forall|k: int| 0 <= k < sized.len() implies white_space(#[trigger] sized[k]) by {
            if k < a {
                assert(white_space(left[k]));
            } else {
                assert(white_space(right[k - b]));
            }
        }
    }
    lemma_trimmed_is_the_middle(sized, a, b);
    assert(sized.subrange(a, b) =~= token);
}

/// Every line has such parts.
pub proof fn lemma_size_token_parts(line: Seq<char>) -> (r: (
    Seq<char>,
    Seq<char>,
    Seq<char>,
    Seq<char>,
))
    ensures
        line == r.0 + r.1 + r.2 + r.3,
        forall|i: int| 0 <= i < r.0.len() ==> white_space(#[trigger] r.0[i]),
        forall|i: int| 0 <= i < r.2.len() ==> white_space(#[trigger] r.2[i]),
        r.1.len() > 0 ==> !white_space(r.1[0]) && !white_space(r.1.last()),
        free_of(r.1, ';'),
        r.3.len() == 0 || r.3[0] == ';',
        size_token(line) == r.1,
{
    lemma_first_index(line, ';');
    let cut = first_index(line, ';');
    let sized = line.take(cut);
    let (i, j) = lemma_trimmed_bounds(sized);
    let n = sized.len() as int;
    let left = sized.subrange(0, i);
    let token = sized.subrange(i, j);
    let right = sized.subrange(j, n);
    let extension = line.skip(cut);
    assert(line =~= left + token + right + extension);
    assert forall|k: int| 0 <= k < left.len() implies white_space(#[trigger] left[k]) by {
        assert(white_space(sized[k]));
    }
    assert forall|k: int| 0 <= k < right.len() implies white_space(#[trigger] right[k]) by {
        assert(white_space(sized[j + k]));
    }
    (left, token, right, extension)
}

/// Chunks at `pos` are passed over one by one.
proof fn lemma_chunks_passed(raw: Seq<u8>, pos: int, body: Seq<u8>, chunks: Seq<Chunk>, max: usize)
    requires
        0 <= pos,
        pos + framed_chunks(chunks).len() <= raw.len() <= usize::MAX,
        raw.subrange(pos, pos + framed_chunks(chunks).len()) == framed_chunks(chunks),
        body.len() + chunk_data(chunks).len() <= max,
        proper_chunks(chunks),
    ensures
        scan_chunks(raw, pos, body, max) == scan_chunks(
            raw,
            pos + framed_chunks(chunks).len(),
            body + chunk_data(chunks),
            max,
        ),
    decreases chunks.len(),
{
    if chunks.len() == 0 {
        assert(body + chunk_data(chunks) =~= body);
    } else {
        let line = chunks[0].line;
        let data = chunks[0].data;
        let others = chunks.drop_first();
        let tail = framed_chunks(others);
        let all = framed_chunks(chunks);
        let part = raw.subrange(pos, pos + all.len());
        assert(size_line(line, data.len()) && data.len() > 0);
        let end = pos + line.len();
        let start = end + 2;
        let stop = start + data.len();
        assert(all =~= line + crlf() + data + crlf() + tail);
        assert(raw.subrange(pos, end) =~= line) by {
            assert forall|j: int| 0 <= j < line.len() implies raw.subrange(pos, end)[j]
                == line[j] by {
                assert(part[j] == raw[pos + j]);
            }
        }
        assert(part[line.len() as int] == raw[end] && part[line.len() as int + 1] == raw[end + 1]);
        lemma_line_found(raw, pos, line);
        assert(raw.subrange(start, stop) =~= data) by {
            assert forall|j: int| 0 <= j < data.len() implies raw.subrange(start, stop)[j]
                == data[j] by {
                assert(part[line.len() + 2 + j] == raw[start + j]);
            }
        }
        let n = line.len() as int + 2 + data.len();
        assert(part[n] == raw[stop] && part[n + 1] == raw[stop + 1]);
        assert(crlf_at(raw, stop));
        assert(raw.subrange(stop + 2, stop + 2 + tail.len()) =~= tail) by {
            assert forall|j: int| 0 <= j < tail.len() implies raw.subrange(
                stop + 2,
                stop + 2 + tail.len(),
            )[j] == tail[j] by {
                assert(part[n + 2 + j] == raw[stop + 2 + j]);
            }
        }
        assert(body + chunk_data(chunks) =~= (body + data) + chunk_data(others));
        assert(proper_chunks(others)) by {
            assert forall|i: int| 0 <= i < others.len() implies size_line(
                (#[trigger] others[i]).line,
                others[i].data.len(),
            ) && others[i].data.len() > 0 by {
                assert(size_line(chunks[i + 1].line, chunks[i + 1].data.len()));
            }
        }
        lemma_chunks_passed(raw, stop + 2, body + data, others, max);
    }
}

/// What a line behind proper chunks makes of a body. It is refused where it is no UTF-8 or
/// holds no size, where its chunk would go over the limit or beyond what can be addressed,
/// and where no line end follows the chunk; while bytes of the chunk are missing, more are
/// needed.
pub proof fn lemma_chunk_outcomes(chunks: Seq<Chunk>, line: Seq<u8>, rest: Seq<u8>, max: usize)
    requires
        proper_chunks(chunks),
        chunk_data(chunks).len() <= max,
        one_line(line),
        (framed_chunks(chunks) + line + crlf() + rest).len() <= usize::MAX,
    ensures
        ({
            let r = scan(framed_chunks(chunks) + line + crlf() + rest, max);
            let start = framed_chunks(chunks).len() + line.len() + 2;
            let token = size_token(decode_utf8(line));
            if !valid_utf8(line) {
                r == ChunkScan::Bad(HttpErrorView::ChunkLineNotUtf8)
            } else {
                match chunk_size(token) {
                    None => r == ChunkScan::Bad(HttpErrorView::InvalidChunkSize { token }),
                    Some(size) => {
                        &&& max < usize::MAX && chunk_data(chunks).len() + size > max ==> r
                            == ChunkScan::Bad(
                            HttpErrorView::BodyExceedsLimit { max_body_bytes: max },
                        )
                        &&& chunk_data(chunks).len() + size <= max && size > 0 ==> {
                            if start + size + 2 > usize::MAX {
                                r == ChunkScan::Bad(HttpErrorView::ChunkSizeOverflow)
                            } else if rest.len() < size + 2 {
                                r is Incomplete
                            } else {
                                !(rest[size as int] == 13 && rest[size + 1] == 10) ==> r
                                    == ChunkScan::Bad(HttpErrorView::ChunkNotTerminated)
                            }
                        }
                    },
                }
            }
        }),
{
    let passed = framed_chunks(chunks);
    let raw = passed + line + crlf() + rest;
    let pos = passed.len() as int;
    let end = pos + line.len();
    assert(raw.subrange(0, pos) =~= passed);
    lemma_chunks_passed(raw, 0, Seq::empty(), chunks, max);
    assert(Seq::<u8>::empty() + chunk_data(chunks) =~= chunk_data(chunks));
    assert(raw.subrange(pos, end) =~= line);
    assert(crlf_at(raw, end));
    lemma_line_found(raw, pos, line);
    if let Some(size) = chunk_size(size_token(decode_utf8(line))) {
        let start = end + 2;
        if rest.len() >= size + 2 {
            assert(raw[start + size] == rest[size as int]);
            assert(raw[start + size + 1] == rest[size + 1]);
        }
    }
}

proof fn lemma_no_line_end(raw: Seq<u8>, pos: int, rest: Seq<u8>)
    requires
        0 <= pos <= raw.len(),
        raw.skip(pos) == rest,
        one_line(rest),
    ensures
        next_crlf(raw, pos) is None,
{
    lemma_next_crlf(raw, pos);
    if let Some(i) = next_crlf(raw, pos) {
        assert(rest[i - pos] == raw[i] && rest[i - pos + 1] == raw[i + 1]);
        assert(crlf_at(rest, i - pos));
    }
}

/// While the line behind proper chunks has no end, more bytes are needed.
pub proof fn lemma_open_size_line(chunks: Seq<Chunk>, rest: Seq<u8>, max: usize)
    requires
        proper_chunks(chunks),
        chunk_data(chunks).len() <= max,
        one_line(rest),
        (framed_chunks(chunks) + rest).len() <= usize::MAX,
    ensures
        scan(framed_chunks(chunks) + rest, max) is Incomplete,
{
    let passed = framed_chunks(chunks);
    let raw = passed + rest;
    let pos = passed.len() as int;
    assert(raw.subrange(0, pos) =~= passed);
    lemma_chunks_passed(raw, 0, Seq::empty(), chunks, max);
    assert(raw.skip(pos) =~= rest);
    lemma_no_line_end(raw, pos, rest);
}

proof fn lemma_trailers_complete(raw: Seq<u8>, pos: int, body: Seq<u8>) -> (trailers: Seq<Seq<u8>>)
    requires
        0 <= pos,
        scan_trailers(raw, pos, body) is Complete,
    ensures
        ({
            let end = scan_trailers(raw, pos, body)->end;
            &&& scan_trailers(raw, pos, body)->body == body
            &&& trailer_lines(trailers)
            &&& end == pos + framed_trailers(trailers).len() <= raw.len()
            &&& raw.subrange(pos, end) == framed_trailers(trailers)
        }),
    decreases raw.len() - pos,
{
    lemma_next_crlf(raw, pos);
    let stop = next_crlf(raw, pos)->0;
    if stop <= pos {
        assert(raw.subrange(pos, pos + 2) =~= crlf());
        Seq::empty()
    } else {
        let line = raw.subrange(pos, stop);
        let rest = lemma_trailers_complete(raw, stop + 2, body);
        let trailers = seq![line] + rest;
        assert(trailers.drop_first() =~= rest);
        assert(one_line(line)) by {
            assert forall|i: int| !#[trigger] crlf_at(line, i) by {
                if crlf_at(line, i) {
                    assert(crlf_at(raw, pos + i));
                }
            }
        }
        assert(trailer_lines(trailers)) by {
            assert forall|i: int| 0 <= i < trailers.len() implies one_line(#[trigger] trailers[i])
                && trailers[i].len() > 0 by {
                if i > 0 {
                    assert(trailers[i] == rest[i - 1]);
                    assert(one_line(rest[i - 1]));
                }
            }
        }
        let end = scan_trailers(raw, pos, body)->end;
        assert(framed_trailers(trailers) == line + crlf() + framed_trailers(rest));
        assert(raw.subrange(pos, end) =~= framed_trailers(trailers)) by {
            let tail = raw.subrange(stop + 2, end);
            assert forall|i: int| 0 <= i < end - pos implies raw.subrange(pos, end)[i]
                == framed_trailers(trailers)[i] by {
                if i >= stop + 2 - pos {
                    assert(tail[i - (stop + 2 - pos)] == raw[pos + i]);
                }
            }
        }
        trailers
    }
}

proof fn lemma_chunks_complete(raw: Seq<u8>, pos: int, body: Seq<u8>, max: usize) -> (r: (
    Seq<Chunk>,
    Seq<u8>,
    Seq<Seq<u8>>,
))
    requires
        0 <= pos,
        raw.len() <= usize::MAX,
        scan_chunks(raw, pos, body, max) is Complete,
    ensures
        ({
            let end = scan_chunks(raw, pos, body, max)->end;
            &&& scan_chunks(raw, pos, body, max)->body == body + chunk_data(r.0)
            &&& proper_chunks(r.0)
            &&& size_line(r.1, 0)
            &&& trailer_lines(r.2)
            &&& end == pos + framed_body(r.0, r.1, r.2).len() <= raw.len()
            &&& raw.subrange(pos, end) == framed_body(r.0, r.1, r.2)
        }),
    decreases raw.len() - pos,
{
    lemma_next_crlf(raw, pos);
    let stop = next_crlf(raw, pos)->0;
    let line = raw.subrange(pos, stop);
    let start = stop + 2;
    let end = scan_chunks(raw, pos, body, max)->end;
    let size = chunk_size(size_token(decode_utf8(line)))->0;
    assert(one_line(line)) by {
        assert forall|i: int| !#[trigger] crlf_at(line, i) by {
            if crlf_at(line, i) {
                assert(crlf_at(raw, pos + i));
            }
        }
    }
    assert(size_line(line, size as nat));
    if size == 0 {
        let trailers = lemma_trailers_complete(raw, start, body);
        let none = Seq::<Chunk>::empty();
        assert(body + chunk_data(none) =~= body);
        let tail = raw.subrange(start, end);
        assert(framed_body(none, line, trailers) =~= line + crlf() + framed_trailers(trailers));
        assert(raw.subrange(pos, end) =~= framed_body(none, line, trailers)) by {
            assert forall|i: int| 0 <= i < end - pos implies raw.subrange(pos, end)[i]
                == framed_body(none, line, trailers)[i] by {
                if i >= start - pos {
                    assert(tail[i - (start - pos)] == raw[pos + i]);
                }
            }
        }
        (none, line, trailers)
    } else {
        let data = raw.subrange(start, start + size);
        let next = start + size + 2;
        let (others, last, trailers) = lemma_chunks_complete(raw, next, body + data, max);
        let chunk = Chunk { line, data };
        let chunks = seq![chunk] + others;
        assert(chunks.drop_first() =~= others);
        assert(proper_chunks(chunks)) by {
            assert forall|i: int| 0 <= i < chunks.len() implies size_line(
                (#[trigger] chunks[i]).line,
                chunks[i].data.len(),
            ) && chunks[i].data.len() > 0 by {
                if i > 0 {
                    assert(chunks[i] == others[i - 1]);
                    assert(size_line(others[i - 1].line, others[i - 1].data.len()));
                }
            }
        }
        assert(body + data + chunk_data(others) =~= body + chunk_data(chunks));
        let tail = raw.subrange(next, end);
        let whole = framed_body(chunks, last, trailers);
        assert(whole =~= line + crlf() + data + crlf() + framed_body(others, last, trailers));
        assert(raw.subrange(pos, end) =~= whole) by {
            assert forall|i: int| 0 <= i < end - pos implies raw.subrange(pos, end)[i]
                == whole[i] by {
                if i >= next - pos {
                    assert(tail[i - (next - pos)] == raw[pos + i]);
                }
            }
        }
        (chunks, last, trailers)
    }
}

/// Bytes are taken for a complete body only where they start with chunks of the sizes that
/// their lines say, a size line for zero bytes, trailers and an empty line: the body is
/// what the chunks hold, within the limit, and its framing ends there.
pub proof fn lemma_complete_body_is_framed(raw: Seq<u8>, max: usize) -> (r: (
    Seq<Chunk>,
    Seq<u8>,
    Seq<Seq<u8>>,
))
    requires
        raw.len() <= usize::MAX,
        scan(raw, max) is Complete,
    ensures
        proper_chunks(r.0),
        size_line(r.1, 0),
        trailer_lines(r.2),
        framed_body(r.0, r.1, r.2).len() <= raw.len(),
        raw.take(framed_body(r.0, r.1, r.2).len() as int) == framed_body(r.0, r.1, r.2),
        chunk_data(r.0).len() <= max,
        scan(raw, max) == (ChunkScan::Complete {
            body: chunk_data(r.0),
            end: framed_body(r.0, r.1, r.2).len() as int,
        }),
{
    lemma_complete_body_keeps_limit(raw, max);
    let r = lemma_chunks_complete(raw, 0, Seq::empty(), max);
    assert(Seq::<u8>::empty() + chunk_data(r.0) =~= chunk_data(r.0));
    let end = framed_body(r.0, r.1, r.2).len() as int;
    assert(raw.take(end) =~= raw.subrange(0, end));
    r
}

} // verus!
