//! What holds of requests once their bodies have been read: the body is found
//! again behind the header, and the header says in one way how long it is.

use vstd::prelude::*;
use vstd::string::*;
use vstd::utf8::*;
use crate::framing::{
    blank_line_end, crlf, crlf_at, find_crlf, find_header_end, header_end, lemma_blank_line_end,
    lemma_next_crlf, lemma_next_crlf_is, next_crlf, one_line,
};
use crate::http::{
    ends_in_blank_line, framing_header, head, kept_lines, length_line, line_stays, lines,
    normalize_chunked_request_to_content_length, overflow, with_content_length,
};
use crate::http_error::{HttpError, HttpErrorView};
use crate::l7::{BodyLength, L7Request};
use crate::text::{
    before, decimal, first_index, lemma_first_index, lemma_first_index_is,
    same_ignoring_ascii_case, trimmed,
};

verus! {

/// Whether no blank line stands in `s`.
spec fn no_blank_line(s: Seq<u8>) -> bool {
    forall|j: int| crlf_at(s, j) ==> !#[trigger] crlf_at(s, j + 2)
}

proof fn lemma_blank_end_is(s: Seq<u8>, start: int, end: int)
    requires
        0 <= start <= end - 4,
        end <= s.len(),
        crlf_at(s, end - 4),
        crlf_at(s, end - 2),
        forall|j: int| start <= j < end - 4 && crlf_at(s, j) ==> !#[trigger] crlf_at(s, j + 2),
    ensures
        blank_line_end(s, start) == end,
    decreases end - start,
{
    if start < end - 4 {
        assert(!(crlf_at(s, start) && crlf_at(s, start + 2)));
        lemma_blank_end_is(s, start + 1, end);
    } else {
        assert(crlf_at(s, start + 2));
    }
}

/// A body that is put behind a terminated header is what is found behind it.
pub proof fn lemma_body_found_behind_header(raw: Seq<u8>, body: Seq<u8>)
    requires
        ends_in_blank_line(head(raw)),
    ensures
        head(head(raw) + body) == head(raw),
        overflow(head(raw) + body) == body,
{
    let header = head(raw);
    let whole = header + body;
    let end = header_end(raw);
    lemma_blank_line_end(raw, 0);
    assert(header.len() == end);
    assert(crlf_at(whole, end - 4) && crlf_at(whole, end - 2));
    assert forall|j: int| 0 <= j < end - 4 && crlf_at(whole, j) implies !#[trigger] crlf_at(
        whole,
        j + 2,
    ) by {
        if crlf_at(whole, j + 2) {
            assert(crlf_at(raw, j) && crlf_at(raw, j + 2));
        }
    }
    lemma_blank_end_is(whole, 0, end);
    assert(whole.take(end) =~= header);
    assert(whole.skip(end) =~= body);
}

/// Lines, each with its line end.
pub open spec fn with_ends(list: Seq<Seq<u8>>) -> Seq<u8>
    decreases list.len(),
{
    if list.len() == 0 {
        Seq::empty()
    } else {
        with_ends(list.drop_last()) + list.last() + crlf()
    }
}

/// The header lines that stay among the first `n`.
pub open spec fn kept_list(all: Seq<Seq<u8>>, n: int) -> Seq<Seq<u8>>
    decreases n,
{
    if n <= 0 {
        Seq::empty()
    } else if line_stays(all, n - 1) {
        kept_list(all, n - 1).push(all[n - 1])
    } else {
        kept_list(all, n - 1)
    }
}

/// Whether all lines are single lines, and only the first may be empty.
spec fn proper_lines(list: Seq<Seq<u8>>) -> bool {
    &&& forall|k: int| 0 <= k < list.len() ==> one_line(#[trigger] list[k])
    &&& forall|k: int| 1 <= k < list.len() ==> (#[trigger] list[k]).len() > 0
}

proof fn lemma_kept_list(all: Seq<Seq<u8>>, n: int)
    requires
        0 <= n <= all.len(),
        proper_lines(all),
    ensures
        kept_lines(all, n) == with_ends(kept_list(all, n)),
        proper_lines(kept_list(all, n)),
        n > 0 ==> kept_list(all, n).len() > 0 && kept_list(all, n)[0] == all[0],
        forall|k: int| 1 <= k < kept_list(all, n).len() ==> !framing_header(
            #[trigger] kept_list(all, n)[k],
        ),
    decreases n,
{
    if n > 0 {
        lemma_kept_list(all, n - 1);
        if line_stays(all, n - 1) {
            assert(kept_list(all, n).drop_last() =~= kept_list(all, n - 1));
            assert(one_line(all[n - 1]));
        }
    }
}

proof fn lemma_lines(s: Seq<u8>)
    ensures
        lines(s).len() > 0,
        forall|k: int| 0 <= k < lines(s).len() ==> one_line(#[trigger] lines(s)[k]),
    decreases s.len(),
{
    lemma_next_crlf(s, 0);
    match next_crlf(s, 0) {
        None => {
            assert forall|i: int| !#[trigger] crlf_at(s, i) by {
                if i >= 0 {
                    assert(!crlf_at(s, i));
                }
            }
        },
        Some(i) => {
            let first = s.take(i);
            let rest = s.skip(i + 2);
            lemma_lines(rest);
            assert(one_line(first)) by {
                assert forall|j: int| !#[trigger] crlf_at(first, j) by {
                    if crlf_at(first, j) {
                        assert(crlf_at(s, j));
                    }
                }
            }
            assert forall|k: int| 0 <= k < lines(s).len() implies one_line(
                #[trigger] lines(s)[k],
            ) by {
                if k > 0 {
                    assert(lines(s)[k] == lines(rest)[k - 1]);
                }
            }
        },
    }
}

proof fn lemma_lines_filled(s: Seq<u8>)
    requires
        no_blank_line(s + crlf()),
    ensures
        forall|k: int| 1 <= k < lines(s).len() ==> (#[trigger] lines(s)[k]).len() > 0,
    decreases s.len(),
{
    lemma_next_crlf(s, 0);
    if let Some(i) = next_crlf(s, 0) {
        let whole = s + crlf();
        let rest = s.skip(i + 2);
        assert(no_blank_line(rest + crlf())) by {
            assert forall|j: int| crlf_at(rest + crlf(), j) implies !#[trigger] crlf_at(
                rest + crlf(),
                j + 2,
            ) by {
                if crlf_at(rest + crlf(), j + 2) {
                    assert(crlf_at(whole, i + 2 + j));
                    assert(crlf_at(whole, i + 2 + j + 2));
                }
            }
        }
        lemma_lines_filled(rest);
        lemma_lines(rest);
        lemma_next_crlf(rest, 0);
        assert(lines(rest)[0].len() > 0) by {
            assert(crlf_at(whole, i));
            assert(!crlf_at(whole, i + 2));
            match next_crlf(rest, 0) {
                None => {
                    assert(lines(rest)[0] == rest);
                },
                Some(n) => {
                    assert(lines(rest)[0] == rest.take(n));
                    if n == 0 {
                        assert(crlf_at(whole, i + 2));
                    }
                },
            }
        }
        assert forall|k: int| 1 <= k < lines(s).len() implies (#[trigger] lines(s)[k]).len()
            > 0 by {
            assert(lines(s)[k] == lines(rest)[k - 1]);
        }
    }
}

proof fn lemma_with_ends(list: Seq<Seq<u8>>)
    requires
        proper_lines(list),
    ensures
        no_blank_line(with_ends(list)),
        list.len() > 0 ==> crlf_at(with_ends(list), with_ends(list).len() - 2),
    decreases list.len(),
{
    if list.len() > 0 {
        let most = list.drop_last();
        let line = list.last();
        assert forall|k: int| 0 <= k < most.len() implies one_line(#[trigger] most[k]) by {
            assert(one_line(list[k]));
        }
        assert forall|k: int| 1 <= k < most.len() implies (#[trigger] most[k]).len() > 0 by {
            assert(list[k].len() > 0);
        }
        lemma_with_ends(most);
        let s = with_ends(most);
        let n = s.len() as int;
        let whole = with_ends(list);
        assert(one_line(list[list.len() - 1]));
        assert forall|j: int| crlf_at(whole, j) implies !#[trigger] crlf_at(whole, j + 2) by {
            if crlf_at(whole, j + 2) {
                if j + 4 <= n {
                    assert(crlf_at(s, j) && crlf_at(s, j + 2));
                } else if j >= n {
                    if j + 2 <= n + line.len() {
                        assert(crlf_at(line, j - n));
                    }
                } else if j == n - 2 {
                    assert(list[list.len() - 1].len() > 0);
                    if line.len() >= 2 {
                        assert(crlf_at(line, 0));
                    }
                } else if j == n - 1 {
                    assert(crlf_at(s, n - 2));
                } else {
                    assert(j == n - 3);
                    assert(crlf_at(s, n - 2));
                }
            }
        }
    }
}

proof fn lemma_lines_push(s: Seq<u8>, line: Seq<u8>)
    requires
        one_line(line),
    ensures
        lines(s + crlf() + line) == lines(s).push(line),
    decreases s.len(),
{
    let whole = s + crlf() + line;
    lemma_next_crlf(s, 0);
    match next_crlf(s, 0) {
        None => {
            let n = s.len() as int;
            assert(crlf_at(whole, n));
            assert forall|j: int| 0 <= j < n implies !crlf_at(whole, j) by {
                assert(!crlf_at(s, j));
            }
            lemma_next_crlf_is(whole, 0, n);
            assert(whole.take(n) =~= s);
            assert(whole.skip(n + 2) =~= line);
            lemma_lines_single(line);
            assert(lines(whole) =~= lines(s).push(line));
        },
        Some(i) => {
            let rest = s.skip(i + 2);
            assert(crlf_at(whole, i));
            assert forall|j: int| 0 <= j < i implies !crlf_at(whole, j) by {
                assert(!crlf_at(s, j));
            }
            lemma_next_crlf_is(whole, 0, i);
            assert(whole.take(i) =~= s.take(i));
            assert(whole.skip(i + 2) =~= rest + crlf() + line);
            lemma_lines_push(rest, line);
            assert(lines(whole) =~= lines(s).push(line));
        },
    }
}

proof fn lemma_lines_single(line: Seq<u8>)
    requires
        one_line(line),
    ensures
        lines(line) == seq![line],
{
    lemma_next_crlf(line, 0);
    if let Some(i) = next_crlf(line, 0) {
        assert(crlf_at(line, i));
    }
}

proof fn lemma_lines_of_list(list: Seq<Seq<u8>>)
    requires
        list.len() > 0,
        forall|k: int| 0 <= k < list.len() ==> one_line(#[trigger] list[k]),
    ensures
        with_ends(list).len() >= 2,
        lines(with_ends(list).take(with_ends(list).len() - 2)) == list,
    decreases list.len(),
{
    let most = list.drop_last();
    let line = list.last();
    let whole = with_ends(list);
    let text = whole.take(whole.len() - 2);
    assert(one_line(list[list.len() - 1]));
    if most.len() == 0 {
        assert(with_ends(most) =~= Seq::<u8>::empty());
        assert(text =~= line);
        lemma_lines_single(line);
        assert(list =~= seq![line]);
    } else {
        assert forall|k: int| 0 <= k < most.len() implies one_line(#[trigger] most[k]) by {
            assert(one_line(list[k]));
        }
        lemma_lines_of_list(most);
        let s = with_ends(most);
        let inner = s.take(s.len() - 2);
        assert(s =~= with_ends(most.drop_last()) + most.last() + crlf());
        assert(text =~= inner + crlf() + line);
        lemma_lines_push(inner, line);
        assert(list =~= most.push(line));
    }
}

/// The text of a `Content-Length` line, without its line end.
pub open spec fn length_text(n: nat) -> Seq<u8> {
    encode_utf8("Content-Length: "@ + decimal(n))
}

proof fn lemma_decimal_digits(n: nat)
    ensures
        decimal(n).len() > 0,
        forall|i: int| 0 <= i < decimal(n).len() ==> '0' <= #[trigger] decimal(n)[i] <= '9',
    decreases n,
{
    if n >= 10 {
        lemma_decimal_digits(n / 10);
    }
}

proof fn lemma_length_line(n: nat)
    ensures
        length_line(n) == length_text(n) + crlf() + crlf(),
        one_line(length_text(n)),
        length_text(n).len() > 0,
{
    let name = "Content-Length: "@;
    let text = name + decimal(n);
    let ends = "\r\n\r\n"@;
    let whole = text + ends;
    reveal_strlit("Content-Length: ");
    reveal_strlit("\r\n\r\n");
    lemma_decimal_digits(n);
    assert(whole == name + decimal(n) + ends);
    assert(is_ascii_chars(text)) by {
        assert forall|i: int| 0 <= i < text.len() implies '\0' <= #[trigger] text[i]
            <= '\u{7f}' by {
            if i >= name.len() {
                assert(text[i] == decimal(n)[i - name.len()]);
            }
        }
    }
    assert(is_ascii_chars(whole)) by {
        assert forall|i: int| 0 <= i < whole.len() implies '\0' <= #[trigger] whole[i]
            <= '\u{7f}' by {
            if i < text.len() {
                assert(whole[i] == text[i]);
            }
        }
    }
    is_ascii_chars_encode_utf8(text);
    is_ascii_chars_encode_utf8(whole);
    let bytes = encode_utf8(whole);
    assert forall|i: int| 0 <= i < bytes.len() implies #[trigger] bytes[i] == (length_text(n)
        + crlf() + crlf())[i] by {
        assert(bytes[i] == whole[i] as u8);
        if i < text.len() {
            assert(whole[i] == text[i]);
        }
    }
    assert(bytes =~= length_text(n) + crlf() + crlf());
    assert forall|i: int| !#[trigger] crlf_at(length_text(n), i) by {
        if 0 <= i && i + 2 <= text.len() {
            assert(length_text(n)[i] == text[i] as u8);
            if i >= name.len() {
                assert(text[i] == decimal(n)[i - name.len()]);
            }
        }
    }
}

/// The parts of a reframed request.
proof fn lemma_reframed_parts(raw: Seq<u8>, body: Seq<u8>)
    requires
        with_content_length(head(raw), body) is Ok,
    ensures
        ({
            let new = with_content_length(head(raw), body)->Ok_0;
            let all = lines(head(raw).take(head(raw).len() - 4));
            let kept = kept_list(all, all.len() as int);
            let list = kept.push(length_text(body.len()));
            &&& kept.len() > 0 && kept[0] == all[0]
            &&& forall|k: int| 1 <= k < kept.len() ==> !framing_header(#[trigger] kept[k])
            &&& head(new) == with_ends(list) + crlf()
            &&& overflow(new) == body
            &&& ends_in_blank_line(head(new))
            &&& lines(head(new).take(head(new).len() - 4)) == list
            &&& new == with_ends(kept) + length_line(body.len()) + body
        }),
{
    let header = head(raw);
    let n = header.len() as int;
    let text = header.take(n - 4);
    let all = lines(text);
    let new = with_content_length(header, body)->Ok_0;
    lemma_blank_line_end(raw, 0);
    assert(no_blank_line(text + crlf())) by {
        assert forall|j: int| crlf_at(text + crlf(), j) implies !#[trigger] crlf_at(
            text + crlf(),
            j + 2,
        ) by {
            if crlf_at(text + crlf(), j + 2) {
                assert(text + crlf() =~= header.take(n - 2));
                assert(crlf_at(raw, j) && crlf_at(raw, j + 2));
            }
        }
    }
    lemma_lines(text);
    lemma_lines_filled(text);
    lemma_kept_list(all, all.len() as int);
    let kept = kept_list(all, all.len() as int);
    let line = length_text(body.len());
    lemma_length_line(body.len());
    let list = kept.push(line);
    assert(list.drop_last() =~= kept);
    assert(proper_lines(list)) by {
        assert forall|k: int| 0 <= k < list.len() implies one_line(#[trigger] list[k]) by {
            if k < kept.len() {
                assert(one_line(kept[k]));
            }
        }
        assert forall|k: int| 1 <= k < list.len() implies (#[trigger] list[k]).len() > 0 by {
            if k < kept.len() {
                assert(kept[k].len() > 0);
            }
        }
    }
    lemma_with_ends(list);
    let top = with_ends(list);
    let end = top.len() as int + 2;
    assert(new =~= top + crlf() + body);
    assert(crlf_at(new, end - 4) && crlf_at(new, end - 2));
    assert forall|j: int| 0 <= j < end - 4 && crlf_at(new, j) implies !#[trigger] crlf_at(
        new,
        j + 2,
    ) by {
        if crlf_at(new, j + 2) {
            if j + 4 <= top.len() {
                assert(crlf_at(top, j) && crlf_at(top, j + 2));
            } else {
                assert(j == end - 5);
                assert(crlf_at(top, top.len() - 2));
            }
        }
    }
    lemma_blank_end_is(new, 0, end);
    assert(new.skip(end) =~= body);
    assert(head(new).take(end - 4) =~= top.take(top.len() - 2));
    lemma_lines_of_list(list);
    assert(new.take(end) =~= top + crlf());
}

/// A request that was reframed is framed by `Content-Length` alone: its body
/// stands behind a terminated header, the header has the lines it had but for
/// those about framing, and the one line about framing is the last, with the
/// length of the body.
pub proof fn lemma_reframed_request(raw: Seq<u8>, body: Seq<u8>)
    requires
        with_content_length(head(raw), body) is Ok,
    ensures
        ({
            let new = with_content_length(head(raw), body)->Ok_0;
            let old_lines = lines(head(raw).take(head(raw).len() - 4));
            let kept = kept_list(old_lines, old_lines.len() as int);
            &&& overflow(new) == body
            &&& ends_in_blank_line(head(new))
            &&& lines(head(new).take(head(new).len() - 4)) == kept.push(length_text(body.len()))
            &&& kept.len() > 0 && kept[0] == old_lines[0]
            &&& forall|k: int| 1 <= k < kept.len() ==> !framing_header(#[trigger] kept[k])
        }),
{
    lemma_reframed_parts(raw, body);
}

/// UTF-8 can be cut before and after a line end.
proof fn lemma_cut_at_line_end(s: Seq<u8>, i: int)
    requires
        valid_utf8(s),
        crlf_at(s, i),
    ensures
        valid_utf8(s.take(i)),
        valid_utf8(s.skip(i + 2)),
{
    is_char_boundary_iff_is_leading_byte(s, i);
    assert(is_leading_byte_width_1(s[i]));
    valid_utf8_split(s, i);
    assert(s.subrange(0, i) =~= s.take(i));
    let rest = s.subrange(i, s.len() as int);
    let after_return = pop_first_scalar(rest);
    assert(after_return =~= s.skip(i + 1));
    assert(after_return[0] == s[i + 1]);
    assert(pop_first_scalar(after_return) =~= s.skip(i + 2));
    reveal_with_fuel(valid_utf8, 3);
}

proof fn lemma_lines_valid(s: Seq<u8>)
    requires
        valid_utf8(s),
    ensures
        forall|k: int| 0 <= k < lines(s).len() ==> valid_utf8(#[trigger] lines(s)[k]),
    decreases s.len(),
{
    lemma_next_crlf(s, 0);
    if let Some(i) = next_crlf(s, 0) {
        let rest = s.skip(i + 2);
        lemma_cut_at_line_end(s, i);
        lemma_lines_valid(rest);
        assert forall|k: int| 0 <= k < lines(s).len() implies valid_utf8(
            #[trigger] lines(s)[k],
        ) by {
            if k > 0 {
                assert(lines(s)[k] == lines(rest)[k - 1]);
            }
        }
    }
}

proof fn lemma_kept_list_valid(all: Seq<Seq<u8>>, n: int)
    requires
        0 <= n <= all.len(),
        forall|k: int| 0 <= k < all.len() ==> valid_utf8(#[trigger] all[k]),
    ensures
        forall|k: int| 0 <= k < kept_list(all, n).len() ==> valid_utf8(
            #[trigger] kept_list(all, n)[k],
        ),
    decreases n,
{
    if n > 0 {
        lemma_kept_list_valid(all, n - 1);
        let most = kept_list(all, n - 1);
        assert forall|k: int| 0 <= k < kept_list(all, n).len() implies valid_utf8(
            #[trigger] kept_list(all, n)[k],
        ) by {
            if k < most.len() {
                assert(valid_utf8(most[k]));
            } else {
                assert(valid_utf8(all[n - 1]));
            }
        }
    }
}

proof fn lemma_crlf_valid()
    ensures
        valid_utf8(crlf()),
{
    reveal_strlit("\r\n");
    is_ascii_chars_encode_utf8("\r\n"@);
    encode_utf8_valid_utf8("\r\n"@);
    assert(encode_utf8("\r\n"@) =~= crlf());
}

proof fn lemma_with_ends_valid(list: Seq<Seq<u8>>)
    requires
        forall|k: int| 0 <= k < list.len() ==> valid_utf8(#[trigger] list[k]),
    ensures
        valid_utf8(with_ends(list)),
    decreases list.len(),
{
    if list.len() > 0 {
        let most = list.drop_last();
        assert forall|k: int| 0 <= k < most.len() implies valid_utf8(#[trigger] most[k]) by {
            assert(valid_utf8(list[k]));
        }
        lemma_with_ends_valid(most);
        assert(valid_utf8(list[list.len() - 1]));
        lemma_crlf_valid();
        valid_utf8_concat(with_ends(most), list.last());
        valid_utf8_concat(with_ends(most) + list.last(), crlf());
    }
}

/// The `Content-Length` line says how a body is framed.
proof fn lemma_length_text_frames(n: nat)
    ensures
        framing_header(length_text(n)),
{
    let label = "Content-Length"@;
    let text = "Content-Length: "@ + decimal(n);
    let line = length_text(n);
    reveal_strlit("Content-Length: ");
    reveal_strlit("Content-Length");
    reveal_strlit("content-length");
    lemma_decimal_digits(n);
    assert forall|i: int| 0 <= i < text.len() implies '\0' <= #[trigger] text[i] <= '\u{7f}' by {
        if i >= 16 {
            assert(text[i] == decimal(n)[i - 16]);
        }
    }
    is_ascii_chars_encode_utf8(text);
    is_ascii_chars_encode_utf8(label);
    assert forall|i: int| 0 <= i < 14 implies line[i] != 58u8 by {
        assert(line[i] == text[i] as u8);
    }
    assert(line[14] == text[14] as u8);
    lemma_first_index_is(line, 58u8, 14);
    assert(line.take(14) =~= encode_utf8(label)) by {
        assert forall|i: int| 0 <= i < 14 implies line[i] == encode_utf8(label)[i] by {
            assert(line[i] == text[i] as u8);
            assert(label[i] == text[i]);
        }
    }
    encode_utf8_valid_utf8(label);
    encode_utf8_decode_utf8(label);
    assert(trimmed(label) == label);
}

proof fn lemma_all_stay(list: Seq<Seq<u8>>, n: int)
    requires
        0 <= n <= list.len(),
        forall|k: int| 1 <= k < n ==> !framing_header(#[trigger] list[k]),
    ensures
        kept_lines(list, n) == with_ends(list.take(n)),
    decreases n,
{
    if n > 0 {
        lemma_all_stay(list, n - 1);
        assert(list.take(n).drop_last() =~= list.take(n - 1));
        assert(list.take(n).last() == list[n - 1]);
    }
}

/// Reframing a request that was reframed, with the same body, changes nothing.
pub proof fn lemma_reframing_twice(raw: Seq<u8>, body: Seq<u8>)
    requires
        with_content_length(head(raw), body) is Ok,
    ensures
        ({
            let new = with_content_length(head(raw), body)->Ok_0;
            with_content_length(head(new), body) == Ok::<Seq<u8>, HttpErrorView>(new)
        }),
{
    let header = head(raw);
    let text = header.take(header.len() - 4);
    let all = lines(text);
    let kept = kept_list(all, all.len() as int);
    let n = kept.len() as int;
    let list = kept.push(length_text(body.len()));
    lemma_reframed_parts(raw, body);
    lemma_cut_at_line_end(header, header.len() - 4);
    lemma_lines_valid(text);
    lemma_kept_list_valid(all, all.len() as int);
    encode_utf8_valid_utf8("Content-Length: "@ + decimal(body.len()));
    assert forall|k: int| 0 <= k < list.len() implies valid_utf8(#[trigger] list[k]) by {
        if k < n {
            assert(valid_utf8(kept[k]));
        }
    }
    lemma_with_ends_valid(list);
    lemma_crlf_valid();
    valid_utf8_concat(with_ends(list), crlf());
    assert forall|k: int| 1 <= k < n implies !framing_header(#[trigger] list[k]) by {
        assert(list[k] == kept[k]);
    }
    lemma_all_stay(list, n);
    assert(list.take(n) =~= kept);
    lemma_length_text_frames(body.len());
    assert(list[n] == length_text(body.len()));
    assert(kept_lines(list, n + 1) == kept_lines(list, n));
}

/// Whether the four bytes of a blank line stand at `i`: the end of a line and that of
/// an empty one.
pub open spec fn blank_line_at(s: Seq<u8>, i: int) -> bool {
    0 <= i && i + 4 <= s.len() && s[i] == 13 && s[i + 1] == 10 && s[i + 2] == 13 && s[i + 3] == 10
}

/// A line end is a carriage return and a line feed, and the first at or after a position
/// is found.
pub proof fn lemma_line_ends_found(buf: &[u8], start: usize, r: Option<usize>)
    requires
        call_ensures(find_crlf, (buf, start), r),
    ensures
        r matches Some(i) ==> start <= i && i + 1 < buf@.len() && buf@[i as int] == 13 && buf@[i
            + 1] == 10,
        forall|j: int|
            start <= j && j + 1 < buf@.len() && (r matches Some(i) ==> j < i) ==> !(
            #[trigger] buf@[j] == 13 && buf@[j + 1] == 10),
        crlf() == seq![13u8, 10u8],
        one_line(buf@) <==> forall|j: int|
            0 <= j && j + 1 < buf@.len() ==> !(#[trigger] buf@[j] == 13 && buf@[j + 1] == 10),
{
    lemma_next_crlf(buf@, start as int);
    assert forall|j: int|
        start <= j && j + 1 < buf@.len() && (r matches Some(i) ==> j < i) implies !(
    #[trigger] buf@[j] == 13 && buf@[j + 1] == 10) by {
        assert(!crlf_at(buf@, j));
    }
    if one_line(buf@) {
        assert forall|j: int| 0 <= j && j + 1 < buf@.len() implies !(#[trigger] buf@[j] == 13
            && buf@[j + 1] == 10) by {
            assert(!crlf_at(buf@, j));
        }
    }
}

/// The header ends behind the first blank line, and takes up everything where there is
/// none.
pub proof fn lemma_header_ends_at_first_blank_line(raw: &[u8], r: usize)
    requires
        call_ensures(find_header_end, (raw,), r),
    ensures
        blank_line_at(raw@, r - 4) || r == raw@.len(),
        r <= raw@.len(),
        forall|i: int| i < r - 4 ==> !#[trigger] blank_line_at(raw@, i),
        !blank_line_at(raw@, r - 4) ==> forall|i: int| !#[trigger] blank_line_at(raw@, i),
{
    lemma_blank_line_end(raw@, 0);
    lemma_blank_line_or_end(raw@, 0);
    assert forall|i: int| i < r - 4 implies !#[trigger] blank_line_at(raw@, i) by {
        if blank_line_at(raw@, i) {
            assert(crlf_at(raw@, i) && crlf_at(raw@, i + 2));
        }
    }
}

proof fn lemma_blank_line_or_end(s: Seq<u8>, start: int)
    requires
        0 <= start,
    ensures
        ({
            let end = blank_line_end(s, start);
            blank_line_at(s, end - 4) || end == s.len()
        }),
    decreases s.len() - start,
{
    if start + 4 <= s.len() && !(crlf_at(s, start) && crlf_at(s, start + 2)) {
        lemma_blank_line_or_end(s, start + 1);
    }
}

proof fn lemma_with_ends_first(line: Seq<u8>, list: Seq<Seq<u8>>)
    ensures
        with_ends(seq![line] + list) == line + crlf() + with_ends(list),
    decreases list.len(),
{
    let all = seq![line] + list;
    if list.len() == 0 {
        assert(all.drop_last() =~= Seq::<Seq<u8>>::empty());
        reveal_with_fuel(with_ends, 2);
        assert(with_ends(all) =~= line + crlf() + with_ends(list));
    } else {
        assert(all.drop_last() =~= seq![line] + list.drop_last());
        assert(all.last() == list.last());
        lemma_with_ends_first(line, list.drop_last());
        assert(with_ends(all) =~= line + crlf() + with_ends(list));
    }
}

/// Splitting a text into lines loses nothing and splits at every line end: the lines
/// with their ends make up the text, and no line end stands in a line.
pub proof fn lemma_lines_make_up_text(s: Seq<u8>)
    ensures
        with_ends(lines(s)) == s + seq![13u8, 10u8],
        lines(s).len() > 0,
        forall|k: int, i: int|
            0 <= k < lines(s).len() && 0 <= i && i + 1 < lines(s)[k].len() ==> !(
            #[trigger] lines(s)[k][i] == 13 && lines(s)[k][i + 1] == 10),
    decreases s.len(),
{
    lemma_lines(s);
    lemma_next_crlf(s, 0);
    match next_crlf(s, 0) {
        None => {
            lemma_with_ends_first(s, Seq::empty());
            assert(seq![s] + Seq::<Seq<u8>>::empty() =~= seq![s]);
            assert(with_ends(lines(s)) =~= s + seq![13u8, 10u8]);
        },
        Some(i) => {
            let rest = s.skip(i + 2);
            lemma_lines_make_up_text(rest);
            lemma_with_ends_first(s.take(i), lines(rest));
            assert(with_ends(lines(s)) =~= s + seq![13u8, 10u8]);
        },
    }
    assert forall|k: int, i: int|
        0 <= k < lines(s).len() && 0 <= i && i + 1 < lines(s)[k].len() implies !(
    #[trigger] lines(s)[k][i] == 13 && lines(s)[k][i + 1] == 10) by {
        assert(one_line(lines(s)[k]));
        assert(!crlf_at(lines(s)[k], i));
    }
}

/// The lines that reframing leaves: the first, and of the others those whose name,
/// without white space around it and in any ASCII case, is none of three.
spec fn left_by_reframing(list: Seq<Seq<u8>>) -> Seq<Seq<u8>> {
    seq![list[0]] + list.skip(1).filter(
        |line: Seq<u8>|
            {
                let name = trimmed(decode_utf8(before(line, 58u8)));
                !line.contains(58u8) || {
                    &&& !same_ignoring_ascii_case(name, "transfer-encoding"@)
                    &&& !same_ignoring_ascii_case(name, "content-length"@)
                    &&& !same_ignoring_ascii_case(name, "trailer"@)
                }
            },
    )
}

/// Whether the lines are UTF-8, there is at least one, and no line end stands in them.
pub open spec fn text_lines(list: Seq<Seq<u8>>) -> bool {
    &&& list.len() > 0
    &&& forall|k: int| 0 <= k < list.len() ==> valid_utf8(#[trigger] list[k]) && one_line(list[k])
}

/// UTF-8 can be cut before a colon.
proof fn lemma_cut_at_colon(s: Seq<u8>, i: int)
    requires
        valid_utf8(s),
        0 <= i < s.len(),
        s[i] == 58,
    ensures
        valid_utf8(s.take(i)),
{
    is_char_boundary_iff_is_leading_byte(s, i);
    assert(is_leading_byte_width_1(s[i]));
    valid_utf8_split(s, i);
    assert(s.subrange(0, i) =~= s.take(i));
}

proof fn lemma_kept_by_name(list: Seq<Seq<u8>>, n: int)
    requires
        text_lines(list),
        1 <= n <= list.len(),
    ensures
        kept_lines(list, n) == with_ends(left_by_reframing(list.take(n))),
    decreases n,
{
    let pred = |line: Seq<u8>|
        {
            let name = trimmed(decode_utf8(before(line, 58u8)));
            !line.contains(58u8) || {
                &&& !same_ignoring_ascii_case(name, "transfer-encoding"@)
                &&& !same_ignoring_ascii_case(name, "content-length"@)
                &&& !same_ignoring_ascii_case(name, "trailer"@)
            }
        };
    let tail = list.take(n).skip(1);
    reveal(Seq::filter);
    if n == 1 {
        assert(tail =~= Seq::<Seq<u8>>::empty());
        reveal_with_fuel(kept_lines, 2);
        lemma_with_ends_first(list[0], Seq::empty());
        assert(left_by_reframing(list.take(n)) =~= seq![list[0]] + Seq::<Seq<u8>>::empty());
        assert(kept_lines(list, n) =~= list[0] + crlf());
        assert(with_ends(left_by_reframing(list.take(n))) =~= list[0] + crlf());
    } else {
        let line = list[n - 1];
        lemma_kept_by_name(list, n - 1);
        assert(tail.drop_last() =~= list.take(n - 1).skip(1));
        assert(tail.last() == line);
        assert(valid_utf8(list[n - 1]));
        lemma_first_index(line, 58u8);
        let colon = first_index(line, 58u8);
        if colon < line.len() {
            lemma_cut_at_colon(line, colon);
            assert(line[colon] == 58u8);
        }
        assert(line.contains(58u8) == (colon < line.len()));
        assert(pred(line) == !framing_header(line));
        let before_it = left_by_reframing(list.take(n - 1));
        assert(list.take(n)[0] == list.take(n - 1)[0]);
        if pred(line) {
            assert(left_by_reframing(list.take(n)) =~= before_it.push(line));
            assert(before_it.push(line).drop_last() =~= before_it);
        } else {
            assert(left_by_reframing(list.take(n)) =~= before_it);
        }
    }
}

/// The header of the given lines.
pub open spec fn header_of(list: Seq<Seq<u8>>) -> Seq<u8> {
    with_ends(list) + seq![13u8, 10u8]
}

/// The bytes of a request with the given lines that says in a last line how long its
/// body is.
pub open spec fn sized_request(list: Seq<Seq<u8>>, body: Seq<u8>) -> Seq<u8> {
    with_ends(list) + encode_utf8("Content-Length: "@ + decimal(body.len()) + "\r\n\r\n"@) + body
}

proof fn lemma_header_of(list: Seq<Seq<u8>>, body: Seq<u8>)
    requires
        text_lines(list),
    ensures
        with_content_length(header_of(list), body) == Ok::<Seq<u8>, HttpErrorView>(
            sized_request(left_by_reframing(list), body),
        ),
{
    let header = header_of(list);
    let n = header.len() as int;
    lemma_with_ends_valid(list);
    lemma_crlf_valid();
    assert(header =~= with_ends(list) + crlf());
    valid_utf8_concat(with_ends(list), crlf());
    lemma_lines_of_list(list);
    let top = with_ends(list);
    assert(top =~= with_ends(list.drop_last()) + list.last() + crlf());
    assert(crlf_at(header, n - 4) && crlf_at(header, n - 2));
    assert(header.take(n - 4) =~= top.take(top.len() - 2));
    lemma_kept_by_name(list, list.len() as int);
    assert(list.take(list.len() as int) =~= list);
}

/// Reframing keeps every header line, in order and byte for byte, unless its name is
/// one of three, and puts one line with the length of the body last; the body follows.
/// Of the rest of the request only the announced length changes.
pub proof fn lemma_reframing_by_lines(
    request: &mut L7Request,
    header_end: usize,
    body: &[u8],
    r: Result<(), HttpError>,
    list: Seq<Seq<u8>>,
)
    requires
        call_ensures(
            normalize_chunked_request_to_content_length,
            (request, header_end, body),
            r,
        ),
        text_lines(list),
        old(request).raw_header@.take(header_end as int) == header_of(list),
    ensures
        r is Ok,
        final(request).raw_header@ == sized_request(
            seq![list[0]] + list.skip(1).filter(
                |line: Seq<u8>|
                    {
                        let name = trimmed(decode_utf8(before(line, 58u8)));
                        !line.contains(58u8) || {
                            &&& !same_ignoring_ascii_case(name, "transfer-encoding"@)
                            &&& !same_ignoring_ascii_case(name, "content-length"@)
                            &&& !same_ignoring_ascii_case(name, "trailer"@)
                        }
                    },
            ),
            body@,
        ),
        final(request).body_length == BodyLength::ContentLength(body@.len() as u64),
        final(request).action == old(request).action,
        final(request).target == old(request).target,
        final(request).query_params == old(request).query_params,
{
    lemma_header_of(list, body@);
}

/// A header is reframed unless it is no UTF-8 or does not end in a blank line, and then
/// nothing changes.
pub proof fn lemma_reframing_refused(
    request: &mut L7Request,
    header_end: usize,
    body: &[u8],
    r: Result<(), HttpError>,
)
    requires
        call_ensures(
            normalize_chunked_request_to_content_length,
            (request, header_end, body),
            r,
        ),
        header_end <= old(request).raw_header@.len(),
    ensures
        ({
            let header = old(request).raw_header@.take(header_end as int);
            &&& r is Ok <==> valid_utf8(header) && blank_line_at(header, header_end - 4)
            &&& r matches Err(e) ==> (e is HeaderNotUtf8 <==> !valid_utf8(header))
            &&& r matches Err(e) ==> (e is HeaderNotUtf8 || e is HeaderNotTerminated)
        }),
        r is Err ==> {
            &&& final(request).raw_header@ == old(request).raw_header@
            &&& final(request).body_length == old(request).body_length
            &&& final(request).action == old(request).action
            &&& final(request).target == old(request).target
            &&& final(request).query_params == old(request).query_params
        },
{
    let header = old(request).raw_header@.take(header_end as int);
    assert(ends_in_blank_line(header) == blank_line_at(header, header_end - 4));
}

/// A header that ends in its only blank line is found, and what follows it.
pub proof fn lemma_header_found(raw: Seq<u8>, header: Seq<u8>, got: Seq<u8>)
    requires
        raw == header + got,
        blank_line_at(header, header.len() - 4),
        forall|i: int| i < header.len() - 4 ==> !#[trigger] blank_line_at(header, i),
    ensures
        head(raw) == header,
        overflow(raw) == got,
        ends_in_blank_line(header),
{
    let end = header.len() as int;
    assert(crlf_at(raw, end - 4) && crlf_at(raw, end - 2));
    assert forall|j: int| 0 <= j < end - 4 && crlf_at(raw, j) implies !#[trigger] crlf_at(
        raw,
        j + 2,
    ) by {
        if crlf_at(raw, j + 2) {
            assert(blank_line_at(header, j));
        }
    }
    lemma_blank_end_is(raw, 0, end);
    assert(raw.take(end) =~= header);
    assert(raw.skip(end) =~= got);
}

/// A header of lines of which only the first may be empty is found before what follows,
/// and reframing goes by its lines.
pub proof fn lemma_header_of_lines(list: Seq<Seq<u8>>, got: Seq<u8>, body: Seq<u8>)
    requires
        text_lines(list),
        forall|k: int| 1 <= k < list.len() ==> (#[trigger] list[k]).len() > 0,
    ensures
        head(header_of(list) + got) == header_of(list),
        overflow(header_of(list) + got) == got,
        with_content_length(header_of(list), body) == Ok::<Seq<u8>, HttpErrorView>(
            sized_request(
                seq![list[0]] + list.skip(1).filter(
                    |line: Seq<u8>|
                        {
                            let name = trimmed(decode_utf8(before(line, 58u8)));
                            !line.contains(58u8) || {
                                &&& !same_ignoring_ascii_case(name, "transfer-encoding"@)
                                &&& !same_ignoring_ascii_case(name, "content-length"@)
                                &&& !same_ignoring_ascii_case(name, "trailer"@)
                            }
                        },
                ),
                body,
            ),
        ),
{
    let header = header_of(list);
    let top = with_ends(list);
    assert(proper_lines(list));
    lemma_with_ends(list);
    assert(header =~= top + crlf());
    assert(blank_line_at(header, header.len() - 4)) by {
        assert(crlf_at(top, top.len() - 2));
    }
    assert forall|i: int| i < header.len() - 4 implies !#[trigger] blank_line_at(header, i) by {
        if blank_line_at(header, i) {
            if i + 4 <= top.len() {
                assert(crlf_at(top, i) && crlf_at(top, i + 2));
            } else {
                assert(crlf_at(top, top.len() - 2));
            }
        }
    }
    lemma_header_found(header + got, header, got);
    lemma_header_of(list, body);
}

} // verus!
