//! What holds of chunked bodies: later bytes change nothing, the limit is kept,
//! and a body that is chunked comes back as it was.

use vstd::prelude::*;
use vstd::utf8::*;
use crate::chunked::{
    chunk_size, hex_value, scan, scan_chunks, scan_trailers, size_token, ChunkScan,
};
use crate::framing::{
    crlf, crlf_at, lemma_next_crlf, lemma_next_crlf_extend, lemma_next_crlf_is, next_crlf, one_line,
};
use crate::text::{before, digit, lemma_first_index_is, trimmed_end, trimmed_start};

verus! {

proof fn lemma_trailers_final(raw: Seq<u8>, more: Seq<u8>, pos: int, body: Seq<u8>)
    requires
        0 <= pos,
        !(scan_trailers(raw, pos, body) is Incomplete),
    ensures
        scan_trailers(raw + more, pos, body) == scan_trailers(raw, pos, body),
    decreases raw.len() - pos,
{
    lemma_next_crlf_extend(raw, more, pos);
    lemma_next_crlf(raw, pos);
    let end = next_crlf(raw, pos)->0;
    if end > pos {
        lemma_trailers_final(raw, more, end + 2, body);
    }
}

proof fn lemma_chunks_final(raw: Seq<u8>, more: Seq<u8>, pos: int, body: Seq<u8>, max: usize)
    requires
        0 <= pos,
        !(scan_chunks(raw, pos, body, max) is Incomplete),
    ensures
        scan_chunks(raw + more, pos, body, max) == scan_chunks(raw, pos, body, max),
    decreases raw.len() - pos,
{
    lemma_next_crlf_extend(raw, more, pos);
    lemma_next_crlf(raw, pos);
    let line_end = next_crlf(raw, pos)->0;
    let line = raw.subrange(pos, line_end);
    assert((raw + more).subrange(pos, line_end) =~= line);
    if valid_utf8(line) {
        if let Some(size) = chunk_size(size_token(decode_utf8(line))) {
            let start = line_end + 2;
            if body.len() + size > max && max < usize::MAX {
            } else if size == 0 {
                lemma_trailers_final(raw, more, start, body);
            } else if start + size + 2 > usize::MAX {
            } else {
                assert(crlf_at(raw + more, start + size) == crlf_at(raw, start + size));
                if crlf_at(raw, start + size) {
                    assert((raw + more).subrange(start, start + size) =~= raw.subrange(
                        start,
                        start + size,
                    ));
                    lemma_chunks_final(
                        raw,
                        more,
                        start + size + 2,
                        body + raw.subrange(start, start + size),
                        max,
                    );
                }
            }
        }
    }
}

/// Bytes that come after a complete body, or after what cannot become one, change
/// nothing.
pub proof fn lemma_later_bytes_change_nothing(raw: Seq<u8>, more: Seq<u8>, max: usize)
    requires
        !(scan(raw, max) is Incomplete),
    ensures
        scan(raw + more, max) == scan(raw, max),
{
    lemma_chunks_final(raw, more, 0, Seq::empty(), max);
}

proof fn lemma_trailers_bounds(raw: Seq<u8>, pos: int, body: Seq<u8>)
    requires
        0 <= pos,
    ensures
        scan_trailers(raw, pos, body) matches ChunkScan::Complete { body: b, end } ==> b == body
            && pos < end <= raw.len() && crlf_at(raw, end - 2),
    decreases raw.len() - pos,
{
    lemma_next_crlf(raw, pos);
    if let Some(end) = next_crlf(raw, pos) {
        if end > pos {
            lemma_trailers_bounds(raw, end + 2, body);
        }
    }
}

proof fn lemma_chunks_bounds(raw: Seq<u8>, pos: int, body: Seq<u8>, max: usize)
    requires
        0 <= pos,
        body.len() <= pos,
        body.len() <= max,
        raw.len() <= usize::MAX,
    ensures
        scan_chunks(raw, pos, body, max) matches ChunkScan::Complete { body: b, end } ==> b.len()
            <= max && b.len() < end && pos < end <= raw.len() && crlf_at(raw, end - 2),
    decreases raw.len() - pos,
{
    lemma_next_crlf(raw, pos);
    if let Some(line_end) = next_crlf(raw, pos) {
        let line = raw.subrange(pos, line_end);
        if valid_utf8(line) {
            if let Some(size) = chunk_size(size_token(decode_utf8(line))) {
                let start = line_end + 2;
                if size == 0 {
                    lemma_trailers_bounds(raw, start, body);
                } else if raw.len() >= start + size + 2 && crlf_at(raw, start + size) && !(
                body.len() + size > max && max < usize::MAX) {
                    lemma_chunks_bounds(
                        raw,
                        start + size + 2,
                        body + raw.subrange(start, start + size),
                        max,
                    );
                }
            }
        }
    }
}

/// A body that is let through is no longer than the limit and shorter than its
/// framing, which ends in an empty line.
pub proof fn lemma_complete_body_keeps_limit(raw: Seq<u8>, max: usize)
    requires
        raw.len() <= usize::MAX,
    ensures
        scan(raw, max) matches ChunkScan::Complete { body, end } ==> body.len() <= max
            && body.len() < end <= raw.len() && crlf_at(raw, end - 2),
{
    lemma_chunks_bounds(raw, 0, Seq::empty(), max);
}

/// One chunk: its size line and its bytes.
pub struct Chunk {
    pub line: Seq<u8>,
    pub data: Seq<u8>,
}

/// Whether `line` is a size line for `n` bytes.
pub open spec fn size_line(line: Seq<u8>, n: nat) -> bool {
    &&& one_line(line)
    &&& valid_utf8(line)
    &&& chunk_size(size_token(decode_utf8(line))) matches Some(size) && size == n
}

/// Whether every chunk holds some bytes, as many as its size line says.
pub open spec fn proper_chunks(chunks: Seq<Chunk>) -> bool {
    forall|i: int|
        0 <= i < chunks.len() ==> size_line((#[trigger] chunks[i]).line, chunks[i].data.len())
            && chunks[i].data.len() > 0
}

/// Whether every trailer is a single line that is not empty.
pub open spec fn trailer_lines(trailers: Seq<Seq<u8>>) -> bool {
    forall|i: int|
        0 <= i < trailers.len() ==> one_line(#[trigger] trailers[i]) && trailers[i].len() > 0
}

/// The framing of chunks.
pub open spec fn framed_chunks(chunks: Seq<Chunk>) -> Seq<u8>
    decreases chunks.len(),
{
    if chunks.len() == 0 {
        Seq::empty()
    } else {
        chunks[0].line + crlf() + chunks[0].data + crlf() + framed_chunks(
            chunks.drop_first(),
        )
    }
}

/// The framing of trailer lines, and the empty line after them.
pub open spec fn framed_trailers(trailers: Seq<Seq<u8>>) -> Seq<u8>
    decreases trailers.len(),
{
    if trailers.len() == 0 {
        crlf()
    } else {
        trailers[0] + crlf() + framed_trailers(trailers.drop_first())
    }
}

/// The bytes of the chunks.
pub open spec fn chunk_data(chunks: Seq<Chunk>) -> Seq<u8>
    decreases chunks.len(),
{
    if chunks.len() == 0 {
        Seq::empty()
    } else {
        chunks[0].data + chunk_data(chunks.drop_first())
    }
}

/// The framing of a whole body: chunks, a size line for zero bytes, trailers.
pub open spec fn framed_body(
    chunks: Seq<Chunk>,
    last: Seq<u8>,
    trailers: Seq<Seq<u8>>,
) -> Seq<u8> {
    framed_chunks(chunks) + last + crlf() + framed_trailers(trailers)
}

/// A line that is followed by a line end ends there.
pub proof fn lemma_line_found(raw: Seq<u8>, pos: int, line: Seq<u8>)
    requires
        0 <= pos,
        pos + line.len() + 2 <= raw.len(),
        raw.subrange(pos, pos + line.len()) == line,
        crlf_at(raw, pos + line.len()),
        one_line(line),
    ensures
        next_crlf(raw, pos) == Some(pos + line.len()),
{
    let end = pos + line.len();
    assert forall|j: int| pos <= j < end implies !crlf_at(raw, j) by {
        if crlf_at(raw, j) && j + 1 < end {
            assert(line[j - pos] == raw[j] && line[j - pos + 1] == raw[j + 1]);
            assert(crlf_at(line, j - pos));
        }
    }
    lemma_next_crlf_is(raw, pos, end);
}

proof fn lemma_trailers_scanned(
    raw: Seq<u8>,
    pos: int,
    body: Seq<u8>,
    trailers: Seq<Seq<u8>>,
)
    requires
        0 <= pos,
        pos + framed_trailers(trailers).len() == raw.len(),
        raw.skip(pos) == framed_trailers(trailers),
        trailer_lines(trailers),
    ensures
        scan_trailers(raw, pos, body) == (ChunkScan::Complete { body, end: raw.len() as int }),
    decreases trailers.len(),
{
    let rest = raw.skip(pos);
    if trailers.len() == 0 {
        assert(rest[0] == raw[pos] && rest[1] == raw[pos + 1]);
        assert(crlf_at(raw, pos));
        lemma_next_crlf_is(raw, pos, pos);
    } else {
        let line = trailers[0];
        let tail = framed_trailers(trailers.drop_first());
        assert(one_line(line) && line.len() > 0);
        let end = pos + line.len();
        assert(rest == line + crlf() + tail);
        assert(raw.subrange(pos, end) =~= line) by {
            assert forall|j: int| 0 <= j < line.len() implies raw.subrange(pos, end)[j]
                == line[j] by {
                assert(rest[j] == raw[pos + j]);
            }
        }
        assert(rest[line.len() as int] == raw[end] && rest[line.len() as int + 1] == raw[end + 1]);
        lemma_line_found(raw, pos, line);
        assert(raw.skip(end + 2) =~= tail) by {
            assert forall|j: int| 0 <= j < tail.len() implies raw.skip(end + 2)[j] == tail[j] by {
                assert(rest[line.len() + 2 + j] == raw[end + 2 + j]);
            }
        }
        assert forall|i: int| 0 <= i < trailers.drop_first().len() implies one_line(
            #[trigger] trailers.drop_first()[i],
        ) && trailers.drop_first()[i].len() > 0 by {
            assert(one_line(trailers[i + 1]));
        }
        lemma_trailers_scanned(raw, end + 2, body, trailers.drop_first());
    }
}

proof fn lemma_chunks_scanned(
    raw: Seq<u8>,
    pos: int,
    body: Seq<u8>,
    chunks: Seq<Chunk>,
    last: Seq<u8>,
    trailers: Seq<Seq<u8>>,
    max: usize,
)
    requires
        0 <= pos,
        pos + framed_body(chunks, last, trailers).len() == raw.len(),
        raw.skip(pos) == framed_body(chunks, last, trailers),
        raw.len() <= usize::MAX,
        body.len() + chunk_data(chunks).len() <= max,
        proper_chunks(chunks),
        size_line(last, 0),
        trailer_lines(trailers),
    ensures
        scan_chunks(raw, pos, body, max) == (ChunkScan::Complete {
            body: body + chunk_data(chunks),
            end: raw.len() as int,
        }),
    decreases chunks.len(),
{
    let rest = raw.skip(pos);
    if chunks.len() == 0 {
        let tail = framed_trailers(trailers);
        let end = pos + last.len();
        assert(rest =~= last + crlf() + tail);
        assert(raw.subrange(pos, end) =~= last) by {
            assert forall|j: int| 0 <= j < last.len() implies raw.subrange(pos, end)[j]
                == last[j] by {
                assert(rest[j] == raw[pos + j]);
            }
        }
        assert(rest[last.len() as int] == raw[end] && rest[last.len() as int + 1] == raw[end + 1]);
        lemma_line_found(raw, pos, last);
        assert(raw.skip(end + 2) =~= tail) by {
            assert forall|j: int| 0 <= j < tail.len() implies raw.skip(end + 2)[j] == tail[j] by {
                assert(rest[last.len() + 2 + j] == raw[end + 2 + j]);
            }
        }
        lemma_trailers_scanned(raw, end + 2, body, trailers);
        assert(body + chunk_data(chunks) =~= body);
    } else {
        let line = chunks[0].line;
        let data = chunks[0].data;
        let others = chunks.drop_first();
        let tail = framed_body(others, last, trailers);
        assert(size_line(line, data.len()) && data.len() > 0);
        let end = pos + line.len();
        let start = end + 2;
        let stop = start + data.len();
        assert(rest =~= line + crlf() + data + crlf() + tail);
        assert(raw.subrange(pos, end) =~= line) by {
            assert forall|j: int| 0 <= j < line.len() implies raw.subrange(pos, end)[j]
                == line[j] by {
                assert(rest[j] == raw[pos + j]);
            }
        }
        assert(rest[line.len() as int] == raw[end] && rest[line.len() as int + 1] == raw[end + 1]);
        lemma_line_found(raw, pos, line);
        assert(raw.subrange(start, stop) =~= data) by {
            assert forall|j: int| 0 <= j < data.len() implies raw.subrange(start, stop)[j]
                == data[j] by {
                assert(rest[line.len() + 2 + j] == raw[start + j]);
            }
        }
        let n = line.len() as int + 2 + data.len();
        assert(rest[n] == raw[stop] && rest[n + 1] == raw[stop + 1]);
        assert(crlf_at(raw, stop));
        assert(raw.skip(stop + 2) =~= tail) by {
            assert forall|j: int| 0 <= j < tail.len() implies raw.skip(stop + 2)[j] == tail[j] by {
                assert(rest[n + 2 + j] == raw[stop + 2 + j]);
            }
        }
        assert(body + chunk_data(chunks) =~= (body + data) + chunk_data(others));
        assert forall|i: int| 0 <= i < others.len() implies size_line(
            (#[trigger] others[i]).line,
            others[i].data.len(),
        ) && others[i].data.len() > 0 by {
            assert(size_line(chunks[i + 1].line, chunks[i + 1].data.len()));
        }
        lemma_chunks_scanned(raw, stop + 2, body + data, others, last, trailers, max);
    }
}

/// What was chunked comes back: a body framed in chunks, with whatever size
/// lines, trailers and further bytes, is read as the bytes of its chunks, and the
/// framing is found to end where it does.
pub proof fn lemma_chunked_body_reads_back(
    chunks: Seq<Chunk>,
    last: Seq<u8>,
    trailers: Seq<Seq<u8>>,
    more: Seq<u8>,
    max: usize,
)
    requires
        framed_body(chunks, last, trailers).len() <= usize::MAX,
        chunk_data(chunks).len() <= max,
        proper_chunks(chunks),
        size_line(last, 0),
        trailer_lines(trailers),
    ensures
        scan(framed_body(chunks, last, trailers) + more, max) == (ChunkScan::Complete {
            body: chunk_data(chunks),
            end: framed_body(chunks, last, trailers).len() as int,
        }),
{
    let raw = framed_body(chunks, last, trailers);
    assert(raw.skip(0) =~= raw);
    lemma_chunks_scanned(raw, 0, Seq::empty(), chunks, last, trailers, max);
    assert(Seq::<u8>::empty() + chunk_data(chunks) =~= chunk_data(chunks));
    lemma_later_bytes_change_nothing(raw, more, max);
}

/// As long as bytes of a framed body are missing, more are asked for: no part of
/// it is refused or taken for the whole. So where in the body the pieces end that
/// it comes in does not matter.
pub proof fn lemma_part_of_chunked_body(
    chunks: Seq<Chunk>,
    last: Seq<u8>,
    trailers: Seq<Seq<u8>>,
    n: int,
    max: usize,
)
    requires
        framed_body(chunks, last, trailers).len() <= usize::MAX,
        chunk_data(chunks).len() <= max,
        proper_chunks(chunks),
        size_line(last, 0),
        trailer_lines(trailers),
        0 <= n < framed_body(chunks, last, trailers).len(),
    ensures
        scan(framed_body(chunks, last, trailers).take(n), max) is Incomplete,
{
    let raw = framed_body(chunks, last, trailers);
    let part = raw.take(n);
    let rest = raw.skip(n);
    if !(scan(part, max) is Incomplete) {
        lemma_later_bytes_change_nothing(part, rest, max);
        assert(part + rest =~= raw);
        lemma_chunked_body_reads_back(chunks, last, trailers, Seq::empty(), max);
        assert(raw + Seq::<u8>::empty() =~= raw);
        lemma_complete_body_keeps_limit(part, max);
    }
}

/// The hexadecimal digit `d`, in lower case.
pub open spec fn hex_char(d: nat) -> char {
    if d < 10 {
        digit(d)
    } else {
        ('a' as u32 + d - 10) as char
    }
}

/// `n` written in hexadecimal, without leading zeros.
pub open spec fn hex_text(n: nat) -> Seq<char>
    decreases n,
{
    if n < 16 {
        seq![hex_char(n)]
    } else {
        hex_text(n / 16).push(hex_char(n % 16))
    }
}

/// Whether a character is a digit that [`hex_text`] writes.
spec fn plain_hex(c: char) -> bool {
    '0' <= c <= '9' || 'a' <= c <= 'f'
}

proof fn lemma_hex_text(n: nat)
    ensures
        hex_value(hex_text(n)) == Some(n),
        hex_text(n).len() > 0,
        forall|i: int| 0 <= i < hex_text(n).len() ==> plain_hex(#[trigger] hex_text(n)[i]),
    decreases n,
{
    let t = hex_text(n);
    if n < 16 {
        assert(t.drop_last() =~= Seq::<char>::empty());
        reveal_with_fuel(hex_value, 2);
    } else {
        lemma_hex_text(n / 16);
        assert(t.drop_last() =~= hex_text(n / 16));
    }
}

/// A number in hexadecimal is a size line for as many bytes.
pub proof fn lemma_hex_size_line(n: nat)
    requires
        n <= usize::MAX,
    ensures
        size_line(encode_utf8(hex_text(n)), n),
{
    let t = hex_text(n);
    let line = encode_utf8(t);
    lemma_hex_text(n);
    assert(is_ascii_chars(t)) by {
        assert forall|i: int| 0 <= i < t.len() implies '\0' <= #[trigger] t[i] <= '\u{7f}' by {
            assert(plain_hex(t[i]));
        }
    }
    is_ascii_chars_encode_utf8(t);
    encode_utf8_valid_utf8(t);
    encode_utf8_decode_utf8(t);
    assert forall|i: int| !#[trigger] crlf_at(line, i) by {
        if 0 <= i && i + 2 <= line.len() {
            assert(plain_hex(t[i]));
            assert(line[i] == t[i] as u8);
        }
    }
    lemma_first_index_is(t, ';', t.len() as int);
    assert(before(t, ';') =~= t);
    assert(plain_hex(t[0]));
    assert(plain_hex(t[t.len() - 1]));
    assert(trimmed_start(t) == t);
    assert(trimmed_end(t) == t);
}

} // verus!
