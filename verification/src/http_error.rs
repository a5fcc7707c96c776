//! Why a request body could not be read for inspection.

use vstd::prelude::*;
use vstd::string::*;
use crate::text::{decimal, decimal_text};

verus! {

/// Why a request body could not be read for inspection.
#[derive(Debug, PartialEq, Eq)]
pub enum HttpError {
    /// The announced length does not fit in memory.
    LengthExceedsPlatform,
    /// The body is longer than the inspection limit.
    BodyExceedsLimit { max_body_bytes: usize },
    /// More body bytes came with the header than were announced.
    MoreThanContentLength,
    /// The header is not UTF-8.
    HeaderNotUtf8,
    /// The header does not end in a blank line.
    HeaderNotTerminated,
    /// A chunk-size line is not UTF-8.
    ChunkLineNotUtf8,
    /// A chunk-size line holds no hexadecimal number.
    InvalidChunkSize { token: String },
    /// A chunk would end beyond what memory can address.
    ChunkSizeOverflow,
    /// A chunk is not followed by a line end.
    ChunkNotTerminated,
    /// The framing takes up far more bytes than the inspection limit allows.
    FramingExceedsLimit,
    /// The connection was closed before the last chunk.
    EndedBeforeTerminator,
}

/// An [`HttpError`] as a mathematical value.
pub enum HttpErrorView {
    LengthExceedsPlatform,
    BodyExceedsLimit { max_body_bytes: usize },
    MoreThanContentLength,
    HeaderNotUtf8,
    HeaderNotTerminated,
    ChunkLineNotUtf8,
    InvalidChunkSize { token: Seq<char> },
    ChunkSizeOverflow,
    ChunkNotTerminated,
    FramingExceedsLimit,
    EndedBeforeTerminator,
}

/// The text of `s` inside double quotes, with special characters escaped as in a
/// Rust string literal.
pub uninterp spec fn quoted(s: Seq<char>) -> Seq<char>;

/// Formats `s` with `{:?}`, the `Debug` form of `str` in the standard library.
/// The result depends on `s` alone; which characters are escaped is left to the
/// name [`quoted`].
#[verifier::external_body]
fn quote(s: &str) -> (r: String)
    ensures
        r@ == quoted(s@),
{
    format!("{s:?}")
}

impl HttpErrorView {
    /// The message shown for the error.
    pub open spec fn message(self) -> Seq<char> {
        match self {
            HttpErrorView::LengthExceedsPlatform =>
                "HTTP request body length exceeds platform limit"@,
            HttpErrorView::BodyExceedsLimit { max_body_bytes } => "HTTP request body exceeds "@
                + decimal(max_body_bytes as nat) + " byte inspection limit"@,
            HttpErrorView::MoreThanContentLength =>
                "HTTP request contains more body bytes than Content-Length"@,
            HttpErrorView::HeaderNotUtf8 => "HTTP headers contain invalid UTF-8"@,
            HttpErrorView::HeaderNotTerminated => "HTTP headers missing terminator"@,
            HttpErrorView::ChunkLineNotUtf8 => "Invalid UTF-8 in HTTP chunk-size line"@,
            HttpErrorView::InvalidChunkSize { token } => "Invalid HTTP chunk size token: "@
                + quoted(token),
            HttpErrorView::ChunkSizeOverflow => "HTTP chunk size overflow"@,
            HttpErrorView::ChunkNotTerminated => "HTTP chunk payload missing terminating CRLF"@,
            HttpErrorView::FramingExceedsLimit =>
                "HTTP chunked request body exceeds inspection framing limit"@,
            HttpErrorView::EndedBeforeTerminator => "HTTP chunked body ended before terminator"@,
        }
    }
}

impl HttpError {
    pub open spec fn view(&self) -> HttpErrorView {
        match self {
            HttpError::LengthExceedsPlatform => HttpErrorView::LengthExceedsPlatform,
            HttpError::BodyExceedsLimit { max_body_bytes } => HttpErrorView::BodyExceedsLimit {
                max_body_bytes: *max_body_bytes,
            },
            HttpError::MoreThanContentLength => HttpErrorView::MoreThanContentLength,
            HttpError::HeaderNotUtf8 => HttpErrorView::HeaderNotUtf8,
            HttpError::HeaderNotTerminated => HttpErrorView::HeaderNotTerminated,
            HttpError::ChunkLineNotUtf8 => HttpErrorView::ChunkLineNotUtf8,
            HttpError::InvalidChunkSize { token } => HttpErrorView::InvalidChunkSize {
                token: token@,
            },
            HttpError::ChunkSizeOverflow => HttpErrorView::ChunkSizeOverflow,
            HttpError::ChunkNotTerminated => HttpErrorView::ChunkNotTerminated,
            HttpError::FramingExceedsLimit => HttpErrorView::FramingExceedsLimit,
            HttpError::EndedBeforeTerminator => HttpErrorView::EndedBeforeTerminator,
        }
    }

    /// The message shown for the error.
    pub fn message(&self) -> (r: String)
        ensures
            r@ == self@.message(),
    {
        match self {
            HttpError::LengthExceedsPlatform =>
                "HTTP request body length exceeds platform limit".to_string(),
            HttpError::BodyExceedsLimit { max_body_bytes } => {
                let mut r = "HTTP request body exceeds ".to_string();
                r.append(decimal_text(*max_body_bytes).as_str());
                r.append(" byte inspection limit");
                r
            },
            HttpError::MoreThanContentLength =>
                "HTTP request contains more body bytes than Content-Length".to_string(),
            HttpError::HeaderNotUtf8 => "HTTP headers contain invalid UTF-8".to_string(),
            HttpError::HeaderNotTerminated => "HTTP headers missing terminator".to_string(),
            HttpError::ChunkLineNotUtf8 => "Invalid UTF-8 in HTTP chunk-size line".to_string(),
            HttpError::InvalidChunkSize { token } => {
                let mut r = "Invalid HTTP chunk size token: ".to_string();
                r.append(quote(token.as_str()).as_str());
                r
            },
            HttpError::ChunkSizeOverflow => "HTTP chunk size overflow".to_string(),
            HttpError::ChunkNotTerminated =>
                "HTTP chunk payload missing terminating CRLF".to_string(),
            HttpError::FramingExceedsLimit =>
                "HTTP chunked request body exceeds inspection framing limit".to_string(),
            HttpError::EndedBeforeTerminator =>
                "HTTP chunked body ended before terminator".to_string(),
        }
    }
}

} // verus!
