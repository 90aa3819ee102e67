//! `Content-Length` framing of the plugin stdio transport.
//!
//! A message is `Content-Length: <n>\r\n\r\n` followed by exactly `<n>`
//! bytes of JSON-RPC body.  The header block ends at the first blank line; it
//! may hold other header lines, and the `Content-Length` name is matched
//! without regard to ASCII case.  A header block longer than 4096 bytes, or a
//! body longer than 8 MiB, is refused.

use vstd::prelude::*;
use vstd::utf8::{decode_utf8, encode_utf8, valid_utf8, is_ascii_chars};
use vstd::utf8::{encode_utf8_decode_utf8, encode_utf8_valid_utf8, is_ascii_chars_encode_utf8};
use crate::text::{
    chars_to_string, dec, has_char, is_digit, lemma_div_smaller, lemma_first_index_at,
    lemma_lines_fold_append, lemma_lines_fold_plain, lemma_parse_dec, lemma_radix_digits,
    lemma_trim_fixed, lemma_trim_indent, lines, lines_fold, lines_step, parse_usize,
    parse_usize_chars, push_all, push_str, split_lines, split_once, split_once_char, str_chars,
    strip_cr, trim, trim_chars, usize_to_dec,
};

verus! {

/// Maximum accepted message body size (8 MiB).
pub const MAX_BODY_BYTES: usize = 8388608;

/// Maximum header block size; the byte after it must end the block.
pub const MAX_HEADER_BYTES: usize = 4096;

/// Why a frame could not be read.
#[derive(Debug, Clone, PartialEq, Eq)]
pub enum FrameError {
    /// The stream ended inside the header block.
    HeaderEof,
    /// The header block exceeds `MAX_HEADER_BYTES`.
    HeaderTooLarge,
    /// No header line is named `Content-Length`.
    MissingContentLength,
    /// The `Content-Length` value (given) is not a `usize`.
    InvalidContentLength(String),
    /// The announced body length (given) exceeds `MAX_BODY_BYTES`.
    BodyTooLarge(usize),
    /// The stream ended before the announced body length.
    BodyEof,
    /// The body is not valid UTF-8.
    InvalidUtf8,
}

/// `FrameError` with its text as a character sequence.
pub enum FrameErrorView {
    HeaderEof,
    HeaderTooLarge,
    MissingContentLength,
    InvalidContentLength(Seq<char>),
    BodyTooLarge(usize),
    BodyEof,
    InvalidUtf8,
}

impl View for FrameError {
    type V = FrameErrorView;

    open spec fn view(&self) -> FrameErrorView {
        match self {
            FrameError::HeaderEof => FrameErrorView::HeaderEof,
            FrameError::HeaderTooLarge => FrameErrorView::HeaderTooLarge,
            FrameError::MissingContentLength => FrameErrorView::MissingContentLength,
            FrameError::InvalidContentLength(v) => FrameErrorView::InvalidContentLength(v@),
            FrameError::BodyTooLarge(n) => FrameErrorView::BodyTooLarge(*n),
            FrameError::BodyEof => FrameErrorView::BodyEof,
            FrameError::InvalidUtf8 => FrameErrorView::InvalidUtf8,
        }
    }
}

/// The text of a framing error.
pub open spec fn frame_error_text(e: FrameErrorView) -> Seq<char> {
    match e {
        FrameErrorView::HeaderEof => "EOF in message header"@,
        FrameErrorView::HeaderTooLarge => "header too large"@,
        FrameErrorView::MissingContentLength => "missing Content-Length header"@,
        FrameErrorView::InvalidContentLength(v) => "invalid Content-Length: "@ + v,
        FrameErrorView::BodyTooLarge(n) => "body too large: "@ + crate::text::dec(n as nat),
        FrameErrorView::BodyEof => "failed to fill whole buffer"@,
        FrameErrorView::InvalidUtf8 => "body is not valid UTF-8"@,
    }
}

impl FrameError {
    /// The text of the error.
    pub fn message(&self) -> (s: String)
        ensures
            s@ == frame_error_text(self@),
    {
        match self {
            FrameError::HeaderEof => String::from_str("EOF in message header"),
            FrameError::HeaderTooLarge => String::from_str("header too large"),
            FrameError::MissingContentLength => String::from_str("missing Content-Length header"),
            FrameError::InvalidContentLength(v) => {
                let mut t: Vec<char> = Vec::new();
                crate::text::push_str(&mut t, "invalid Content-Length: ");
                crate::text::push_str(&mut t, v.as_str());
                crate::text::chars_to_string(t.as_slice())
            },
            FrameError::BodyTooLarge(n) => {
                let mut t: Vec<char> = Vec::new();
                crate::text::push_str(&mut t, "body too large: ");
                let d = crate::text::usize_to_dec(*n);
                crate::text::push_all(&mut t, d.as_slice());
                crate::text::chars_to_string(t.as_slice())
            },
            FrameError::BodyEof => String::from_str("failed to fill whole buffer"),
            FrameError::InvalidUtf8 => String::from_str("body is not valid UTF-8"),
        }
    }
}

// ---------------------------------------------------------------------------
// Encoding
// ---------------------------------------------------------------------------

/// `Content-Length`.
pub open spec fn cl_name() -> Seq<char> {
    seq!['C', 'o', 'n', 't', 'e', 'n', 't', '-', 'L', 'e', 'n', 'g', 't', 'h']
}

/// The header line of a body of `n` bytes, without its line end.
pub open spec fn header_line(n: nat) -> Seq<char> {
    cl_name() + seq![':', ' '] + dec(n)
}

/// The header block of a body of `n` bytes.
pub open spec fn header_text(n: nat) -> Seq<char> {
    header_line(n) + seq!['\r', '\n', '\r', '\n']
}

/// The framed message of `body`, as text.
pub open spec fn frame_text(body: Seq<char>) -> Seq<char> {
    header_text(encode_utf8(body).len()) + body
}

/// The framed message of `body`, as bytes.
pub open spec fn frame_bytes(body: Seq<char>) -> Seq<u8> {
    encode_utf8(frame_text(body))
}

/// Encodes a JSON-RPC body into a framed message.
pub fn encode(body: &str) -> (out: Vec<u8>)
    ensures
        out@ == frame_bytes(body@),
{
    let n = body.as_bytes().len();
    let mut v: Vec<char> = Vec::new();
    push_str(&mut v, "Content-Length: ");
    let d = usize_to_dec(n);
    push_all(&mut v, d.as_slice());
    push_str(&mut v, "\r\n\r\n");
    push_str(&mut v, body);
    proof {
        reveal_strlit("Content-Length: ");
        reveal_strlit("\r\n\r\n");
        assert(v@ =~= frame_text(body@));
    }
    let s = chars_to_string(v.as_slice());
    let bytes = s.as_str().as_bytes();
    let mut out: Vec<u8> = Vec::new();
    let mut i: usize = 0;
    while i < bytes.len()
        invariant
            i <= bytes@.len(),
            out@ == bytes@.subrange(0, i as int),
        decreases bytes@.len() - i,
    {
        out.push(bytes[i]);
        i = i + 1;
    }
    assert(out@ =~= bytes@);
    out
}

/// Appends the framed message of `body` to `out` (the framing written to an
/// in-memory writer).
pub fn write_message(out: &mut Vec<u8>, body: &str)
    ensures
        final(out)@ == old(out)@ + frame_bytes(body@),
{
    let framed = encode(body);
    let mut i: usize = 0;
    while i < framed.len()
        invariant
            i <= framed@.len(),
            framed@ == frame_bytes(body@),
            out@ == old(out)@ + framed@.subrange(0, i as int),
        decreases framed@.len() - i,
    {
        out.push(framed[i]);
        i = i + 1;
    }
    assert(framed@.subrange(0, framed@.len() as int) =~= framed@);
}

// ---------------------------------------------------------------------------
// The header block
// ---------------------------------------------------------------------------

/// The first `n` bytes of `s` end with a blank line (`\r\n\r\n`).
pub open spec fn ends_blank(s: Seq<u8>, n: int) -> bool {
    &&& 4 <= n <= s.len()
    &&& s[n - 4] == 13
    &&& s[n - 3] == 10
    &&& s[n - 2] == 13
    &&& s[n - 1] == 10
}

/// The least `k` in `n..=lim` with `ends_blank(s, k)`.
pub open spec fn first_blank_end(s: Seq<u8>, n: nat, lim: nat) -> Option<nat>
    decreases lim + 1 - n,
{
    if n > lim {
        None
    } else if ends_blank(s, n as int) {
        Some(n)
    } else {
        first_blank_end(s, n + 1, lim)
    }
}

/// How the header block of a stream ends.
pub enum HeaderScan {
    /// The stream is empty: a clean end at a message boundary.
    Empty,
    /// The stream ends inside the header block.
    Truncated,
    /// No blank line within the first `MAX_HEADER_BYTES + 1` bytes.
    TooLarge,
    /// The header block is the first `n` bytes.
    Complete(nat),
}

/// The header block of the stream `s`, read byte by byte.
pub open spec fn scan_header(s: Seq<u8>) -> HeaderScan {
    let lim: nat = if s.len() < MAX_HEADER_BYTES + 1 {
        s.len()
    } else {
        (MAX_HEADER_BYTES + 1) as nat
    };
    if s.len() == 0 {
        HeaderScan::Empty
    } else {
        match first_blank_end(s, 1, lim) {
            Some(n) => HeaderScan::Complete(n),
            None => if s.len() >= MAX_HEADER_BYTES + 1 {
                HeaderScan::TooLarge
            } else {
                HeaderScan::Truncated
            },
        }
    }
}

proof fn lemma_first_blank_end_extend(s: Seq<u8>, n: nat, lim: nat)
    requires
        1 <= n,
        first_blank_end(s, n, lim) is None,
        !ends_blank(s, lim as int + 1),
    ensures
        first_blank_end(s, n, lim + 1) is None,
    decreases lim + 1 - n,
{
    if n <= lim {
        lemma_first_blank_end_extend(s, n + 1, lim);
    } else if n == lim + 1 {
        assert(first_blank_end(s, n + 1, lim + 1) is None);
    }
}

proof fn lemma_first_blank_end_mono(s: Seq<u8>, n: nat, lim: nat, lim2: nat)
    requires
        lim <= lim2,
        first_blank_end(s, n, lim) is Some,
    ensures
        first_blank_end(s, n, lim2) == first_blank_end(s, n, lim),
    decreases lim + 1 - n,
{
    if n <= lim && !ends_blank(s, n as int) {
        lemma_first_blank_end_mono(s, n + 1, lim, lim2);
    }
}

proof fn lemma_first_blank_end_none(s: Seq<u8>, n: nat, lim: nat)
    requires
        first_blank_end(s, n, lim) is None,
    ensures
        forall|j: int| n <= j <= lim ==> !ends_blank(s, j),
    decreases lim + 1 - n,
{
    if n <= lim {
        lemma_first_blank_end_none(s, n + 1, lim);
    }
}

proof fn lemma_first_blank_end_prefix(s: Seq<u8>, t: Seq<u8>, n: nat, lim: nat)
    requires
        lim <= t.len(),
        t.len() <= s.len(),
        t == s.subrange(0, t.len() as int),
    ensures
        first_blank_end(s, n, lim) == first_blank_end(t, n, lim),
    decreases lim + 1 - n,
{
    if n <= lim {
        if 4 <= n {
            assert(s[n - 4] == t[n - 4] && s[n - 3] == t[n - 3] && s[n - 2] == t[n - 2] && s[n
                - 1] == t[n - 1]);
        }
        lemma_first_blank_end_prefix(s, t, n + 1, lim);
    }
}

proof fn lemma_first_blank_end_at(s: Seq<u8>, n: nat, k: nat, lim: nat)
    requires
        n <= k <= lim,
        ends_blank(s, k as int),
        forall|j: int| n <= j < k ==> !ends_blank(s, j),
    ensures
        first_blank_end(s, n, lim) == Some(k),
    decreases k - n,
{
    if n < k {
        lemma_first_blank_end_at(s, n + 1, k, lim);
    }
}

proof fn lemma_first_blank_end_range(s: Seq<u8>, n: nat, lim: nat)
    ensures
        first_blank_end(s, n, lim) matches Some(k) ==> n <= k <= lim && ends_blank(s, k as int),
    decreases lim + 1 - n,
{
    if n <= lim && !ends_blank(s, n as int) {
        lemma_first_blank_end_range(s, n + 1, lim);
    }
}

/// What one more header byte did.
#[derive(Debug, Clone, Copy, PartialEq, Eq, Structural)]
pub enum HeaderStep {
    /// The header block is not complete yet.
    Continue,
    /// The byte completed the header block.
    Complete,
    /// The header block grew beyond `MAX_HEADER_BYTES`.
    TooLarge,
}

/// Accumulates the bytes of a header block, one at a time, until a blank
/// line ends it.
pub struct HeaderDecoder {
    header: Vec<u8>,
}

impl HeaderDecoder {
    /// The bytes received so far.
    pub closed spec fn bytes(&self) -> Seq<u8> {
        self.header@
    }

    /// No blank line has ended the bytes so far, and they fit the limit.
    pub closed spec fn wf(&self) -> bool {
        &&& self.header@.len() <= MAX_HEADER_BYTES
        &&& first_blank_end(self.header@, 1, self.header@.len()) is None
    }

    /// An empty decoder.
    pub fn new() -> (d: Self)
        ensures
            d.wf(),
            d.bytes() == Seq::<u8>::empty(),
    {
        HeaderDecoder { header: Vec::new() }
    }

    /// Whether no byte has been received.
    pub fn is_empty(&self) -> (r: bool)
        ensures
            r == (self.bytes().len() == 0),
    {
        self.header.len() == 0
    }

    /// The bytes received so far.
    pub fn header_bytes(&self) -> (r: &[u8])
        ensures
            r@ == self.bytes(),
    {
        self.header.as_slice()
    }

    /// Receives one byte: the block is complete when the bytes now end with
    /// a blank line, too large when they exceed `MAX_HEADER_BYTES` without
    /// one.
    pub fn push_byte(&mut self, b: u8) -> (r: HeaderStep)
        requires
            old(self).wf(),
        ensures
            final(self).bytes() == old(self).bytes().push(b),
            r == (if ends_blank(final(self).bytes(), final(self).bytes().len() as int) {
                HeaderStep::Complete
            } else if final(self).bytes().len() > MAX_HEADER_BYTES {
                HeaderStep::TooLarge
            } else {
                HeaderStep::Continue
            }),
            r == HeaderStep::Continue ==> final(self).wf(),
            r == HeaderStep::Complete ==> first_blank_end(
                final(self).bytes(),
                1,
                final(self).bytes().len(),
            ) == Some(final(self).bytes().len()),
    {
        let ghost h0 = self.header@;
        self.header.push(b);
        let n = self.header.len();
        let ends = n >= 4 && self.header[n - 4] == 13 && self.header[n - 3] == 10 && self.header[n
            - 2] == 13 && self.header[n - 1] == 10;
        proof {
            assert(h0 =~= self.header@.subrange(0, h0.len() as int));
            lemma_first_blank_end_prefix(self.header@, h0, 1, h0.len());
            if !ends {
                lemma_first_blank_end_extend(self.header@, 1, h0.len());
            } else {
                lemma_first_blank_end_none(h0, 1, h0.len());
                assert forall|j: int| 1 <= j < n implies !ends_blank(self.header@, j) by {
                    if ends_blank(self.header@, j) {
                        assert(ends_blank(h0, j));
                    }
                }
                lemma_first_blank_end_at(self.header@, 1, n as nat, n as nat);
            }
        }
        if ends {
            HeaderStep::Complete
        } else if n > MAX_HEADER_BYTES {
            HeaderStep::TooLarge
        } else {
            HeaderStep::Continue
        }
    }
}

// ---------------------------------------------------------------------------
// The Content-Length header
// ---------------------------------------------------------------------------

/// The code of `c` with ASCII upper-case letters lowered.
pub open spec fn ascii_lower(c: char) -> int {
    if 65 <= (c as u32) <= 90 {
        (c as u32) + 32
    } else {
        (c as u32) as int
    }
}

/// `str::eq_ignore_ascii_case`.
pub open spec fn eq_ignore_ascii_case(a: Seq<char>, b: Seq<char>) -> bool {
    a.len() == b.len() && forall|i: int| 0 <= i < a.len() ==> ascii_lower(a[i]) == ascii_lower(b[i])
}

fn eq_ignore_ascii_case_chars(a: &[char], b: &[char]) -> (r: bool)
    ensures
        r == eq_ignore_ascii_case(a@, b@),
{
    if a.len() != b.len() {
        return false;
    }
    let mut i: usize = 0;
    while i < a.len()
        invariant
            a@.len() == b@.len(),
            i <= a@.len(),
            forall|j: int| 0 <= j < i ==> ascii_lower(a@[j]) == ascii_lower(b@[j]),
        decreases a@.len() - i,
    {
        let x = a[i] as u32;
        let y = b[i] as u32;
        let lx = if 65 <= x && x <= 90 {
            x + 32
        } else {
            x
        };
        let ly = if 65 <= y && y <= 90 {
            y + 32
        } else {
            y
        };
        if lx != ly {
            return false;
        }
        i = i + 1;
    }
    true
}

/// The trimmed value of the first line whose text before its first `':'`,
/// trimmed, is `Content-Length` in any ASCII case.
pub open spec fn cl_value_in(ls: Seq<Seq<char>>) -> Option<Seq<char>>
    decreases ls.len(),
{
    if ls.len() == 0 {
        None
    } else {
        match split_once(ls[0], ':') {
            Some(p) => if eq_ignore_ascii_case(trim(p.0), cl_name()) {
                Some(trim(p.1))
            } else {
                cl_value_in(ls.drop_first())
            },
            None => cl_value_in(ls.drop_first()),
        }
    }
}

/// The body length a header text announces.
pub open spec fn content_length(text: Seq<char>) -> Result<usize, FrameErrorView> {
    match cl_value_in(lines(text)) {
        None => Err(FrameErrorView::MissingContentLength),
        Some(v) => match parse_usize(v) {
            Some(n) => Ok(n),
            None => Err(FrameErrorView::InvalidContentLength(v)),
        },
    }
}

/// `String::from_utf8_lossy`: the text of a byte sequence with each
/// invalid sequence replaced by `U+FFFD`.
pub uninterp spec fn utf8_lossy(b: Seq<u8>) -> Seq<char>;

/// The text `String::from_utf8_lossy` gives for `b`: the decoded text when
/// `b` is valid UTF-8.
pub open spec fn lossy_text(b: Seq<u8>) -> Seq<char> {
    if valid_utf8(b) {
        decode_utf8(b)
    } else {
        utf8_lossy(b)
    }
}

/// The characters of `String::from_utf8_lossy(b)`.  Its documentation
/// gives that valid UTF-8 is decoded unchanged; what replaces invalid
/// sequences is left to the name.
#[verifier::external_body]
fn lossy_chars(b: &[u8]) -> (r: Vec<char>)
    ensures
        r@ == utf8_lossy(b@),
        valid_utf8(b@) ==> r@ == decode_utf8(b@),
{
    String::from_utf8_lossy(b).chars().collect()
}

/// `String::from_utf8`: the string of the bytes when they are valid UTF-8.
#[verifier::external_body]
fn utf8_string(b: Vec<u8>) -> (r: Option<String>)
    ensures
        r is Some <==> valid_utf8(b@),
        r matches Some(s) ==> s@ == decode_utf8(b@),
{
    String::from_utf8(b).ok()
}

/// The body length announced by a complete header block.
pub fn content_length_of(header: &[u8]) -> (r: Result<usize, FrameError>)
    ensures
        match r {
            Ok(n) => content_length(lossy_text(header@)) == Ok::<usize, FrameErrorView>(n),
            Err(e) => content_length(lossy_text(header@)) == Err::<usize, FrameErrorView>(e@),
        },
{
    let text = lossy_chars(header);
    let ls = split_lines(text.as_slice());
    let ghost lsv = ls@.map_values(|l: Vec<char>| l@);
    let name = str_chars("Content-Length");
    proof {
        reveal_strlit("Content-Length");
        assert(name@ =~= cl_name());
        assert(lsv.skip(0) =~= lsv);
    }
    let mut i: usize = 0;
    while i < ls.len()
        invariant
            i <= ls@.len(),
            lsv == ls@.map_values(|l: Vec<char>| l@),
            lsv == lines(text@),
            text@ == lossy_text(header@),
            name@ == cl_name(),
            cl_value_in(lsv) == cl_value_in(lsv.skip(i as int)),
        decreases ls@.len() - i,
    {
        let ghost rest = lsv.skip(i as int);
        assert(rest[0] == ls@[i as int]@);
        assert(rest.drop_first() =~= lsv.skip(i + 1));
        match split_once_char(ls[i].as_slice(), ':') {
            Some((a, b)) => {
                let ta = trim_chars(a.as_slice());
                if eq_ignore_ascii_case_chars(ta.as_slice(), name.as_slice()) {
                    let v = trim_chars(b.as_slice());
                    assert(split_once(rest[0], ':') == Some((a@, b@)));
                    assert(cl_value_in(rest) == Some(v@));
                    assert(cl_value_in(lines(lossy_text(header@))) == Some(v@));
                    return match parse_usize_chars(v.as_slice()) {
                        Some(n) => Ok(n),
                        None => Err(FrameError::InvalidContentLength(chars_to_string(v.as_slice()))),
                    };
                }
            },
            None => {},
        }
        i = i + 1;
    }
    assert(lsv.skip(i as int) =~= Seq::<Seq<char>>::empty());
    Err(FrameError::MissingContentLength)
}

/// The body length a complete header block announces, refused above
/// `MAX_BODY_BYTES`.
pub fn body_length(header: &[u8]) -> (r: Result<usize, FrameError>)
    ensures
        match content_length(lossy_text(header@)) {
            Err(e) => r matches Err(x) && x@ == e,
            Ok(n) => if n > MAX_BODY_BYTES {
                r == Err::<usize, FrameError>(FrameError::BodyTooLarge(n))
            } else {
                r == Ok::<usize, FrameError>(n)
            },
        },
{
    match content_length_of(header) {
        Err(e) => Err(e),
        Ok(n) => if n > MAX_BODY_BYTES {
            Err(FrameError::BodyTooLarge(n))
        } else {
            Ok(n)
        },
    }
}

/// The text of a message body: an error unless it is valid UTF-8.
pub fn decode_body(body: Vec<u8>) -> (r: Result<String, FrameError>)
    ensures
        match r {
            Ok(s) => valid_utf8(body@) && s@ == decode_utf8(body@),
            Err(e) => !valid_utf8(body@) && e == FrameError::InvalidUtf8,
        },
{
    match utf8_string(body) {
        Some(s) => Ok(s),
        None => Err(FrameError::InvalidUtf8),
    }
}

// ---------------------------------------------------------------------------
// Reading a frame
// ---------------------------------------------------------------------------

/// One message read from the stream `s`: `None` on a clean end at a message
/// boundary, else the body and the number of bytes the message took.
pub open spec fn read_frame(s: Seq<u8>) -> Result<Option<(Seq<char>, nat)>, FrameErrorView> {
    match scan_header(s) {
        HeaderScan::Empty => Ok(None),
        HeaderScan::Truncated => Err(FrameErrorView::HeaderEof),
        HeaderScan::TooLarge => Err(FrameErrorView::HeaderTooLarge),
        HeaderScan::Complete(h) => match content_length(lossy_text(s.subrange(0, h as int))) {
            Err(e) => Err(e),
            Ok(n) => if n > MAX_BODY_BYTES {
                Err(FrameErrorView::BodyTooLarge(n))
            } else if h + n > s.len() {
                Err(FrameErrorView::BodyEof)
            } else if !valid_utf8(s.subrange(h as int, h + n)) {
                Err(FrameErrorView::InvalidUtf8)
            } else {
                Ok(Some((decode_utf8(s.subrange(h as int, h + n)), (h + n) as nat)))
            },
        },
    }
}

/// The result of `read_frame` for an executable result.
pub open spec fn frame_result_matches(
    r: Result<Option<(String, usize)>, FrameError>,
    s: Seq<u8>,
) -> bool {
    match r {
        Ok(None) => read_frame(s) == Ok::<Option<(Seq<char>, nat)>, FrameErrorView>(None),
        Ok(Some((b, k))) => read_frame(s) == Ok::<Option<(Seq<char>, nat)>, FrameErrorView>(
            Some((b@, k as nat)),
        ),
        Err(e) => read_frame(s) == Err::<Option<(Seq<char>, nat)>, FrameErrorView>(e@),
    }
}

/// How many bytes reading one message takes from the front of `s`, read
/// byte by byte up to the point where the outcome is known: none at a clean
/// end; the whole stream when it ends inside the header or the body;
/// `MAX_HEADER_BYTES + 1` bytes for an oversized header; the header when no
/// usable body length can be read from it or the length is too large; else
/// the header and the body.
pub open spec fn frame_consumed(s: Seq<u8>) -> nat {
    match scan_header(s) {
        HeaderScan::Empty => 0,
        HeaderScan::Truncated => s.len(),
        HeaderScan::TooLarge => (MAX_HEADER_BYTES + 1) as nat,
        HeaderScan::Complete(h) => match content_length(lossy_text(s.subrange(0, h as int))) {
            Err(e) => h,
            Ok(n) => if n > MAX_BODY_BYTES {
                h
            } else if h + n > s.len() {
                s.len()
            } else {
                (h + n) as nat
            },
        },
    }
}

/// Reading a message never takes more than the stream holds.
pub proof fn lemma_frame_consumed_bound(s: Seq<u8>)
    ensures
        frame_consumed(s) <= s.len(),
        read_frame(s) matches Ok(Some((b, k))) ==> k == frame_consumed(s),
{
    if let HeaderScan::Complete(h) = scan_header(s) {
        let lim: nat = if s.len() < MAX_HEADER_BYTES + 1 {
            s.len()
        } else {
            (MAX_HEADER_BYTES + 1) as nat
        };
        lemma_first_blank_end_range(s, 1, lim);
    }
}

/// Reads one framed message from the front of `s`.
pub fn read_frame_bytes(s: &[u8]) -> (r: Result<Option<(String, usize)>, FrameError>)
    ensures
        frame_result_matches(r, s@),
{
    read_frame_counted(s).0
}

/// Reads one framed message from the front of `s`, with the number of bytes
/// the read takes, whatever its outcome.
fn read_frame_counted(s: &[u8]) -> (r: (Result<Option<(String, usize)>, FrameError>, usize))
    ensures
        frame_result_matches(r.0, s@),
        r.1 == frame_consumed(s@),
{
    let len = s.len();
    if len == 0 {
        return (Ok(None), 0);
    }
    let mut dec = HeaderDecoder::new();
    let mut i: usize = 0;
    let mut done = false;
    while i < len
        invariant_except_break
            dec.wf(),
            !done,
        invariant
            len == s@.len(),
            0 < len,
            i <= len,
            dec.bytes() == s@.subrange(0, i as int),
            done ==> i >= 4 && first_blank_end(s@, 1, (if len < MAX_HEADER_BYTES + 1 {
                len as nat
            } else {
                (MAX_HEADER_BYTES + 1) as nat
            })) == Some(i as nat),
        ensures
            done || i == len,
            !done ==> dec.wf(),
        decreases len - i,
    {
        let ghost prev = dec.bytes();
        let step = dec.push_byte(s[i]);
        i = i + 1;
        proof {
            assert(dec.bytes() =~= s@.subrange(0, i as int));
        }
        match step {
            HeaderStep::Continue => {},
            HeaderStep::Complete => {
                proof {
                    let lim: nat = if len < MAX_HEADER_BYTES + 1 {
                        len as nat
                    } else {
                        (MAX_HEADER_BYTES + 1) as nat
                    };
                    let t = s@.subrange(0, i as int);
                    lemma_first_blank_end_prefix(s@, t, 1, i as nat);
                    lemma_first_blank_end_mono(s@, 1, i as nat, lim);
                }
                done = true;
                break;
            },
            HeaderStep::TooLarge => {
                proof {
                    let t = s@.subrange(0, i as int);
                    assert(!ends_blank(t, i as int));
                    assert(!ends_blank(s@, i as int));
                    lemma_first_blank_end_prefix(s@, prev, 1, (i - 1) as nat);
                    lemma_first_blank_end_extend(s@, 1, (i - 1) as nat);
                }
                return (Err(FrameError::HeaderTooLarge), i);
            },
        }
    }
    if !done {
        proof {
            assert(i == len);
            lemma_first_blank_end_prefix(s@, dec.bytes(), 1, len as nat);
            assert(first_blank_end(s@, 1, len as nat) is None);
            assert(len < MAX_HEADER_BYTES + 1);
            assert(scan_header(s@) == HeaderScan::Truncated);
        }
        return (Err(FrameError::HeaderEof), len);
    }
    let h = i;
    match content_length_of(dec.header_bytes()) {
        Err(e) => (Err(e), h),
        Ok(n) => {
            if n > MAX_BODY_BYTES {
                (Err(FrameError::BodyTooLarge(n)), h)
            } else if n > len - h {
                (Err(FrameError::BodyEof), len)
            } else {
                let mut body: Vec<u8> = Vec::new();
                let mut j: usize = h;
                while j < h + n
                    invariant
                        h <= j <= h + n <= len,
                        len == s@.len(),
                        body@ == s@.subrange(h as int, j as int),
                    decreases h + n - j,
                {
                    body.push(s[j]);
                    j = j + 1;
                }
                match decode_body(body) {
                    Ok(text) => (Ok(Some((text, h + n))), h + n),
                    Err(e) => (Err(e), h + n),
                }
            }
        },
    }
}

/// An in-memory byte stream with a read position.
pub struct ByteStream {
    data: Vec<u8>,
    pos: usize,
}

impl ByteStream {
    /// The bytes not read yet.
    pub closed spec fn remaining(&self) -> Seq<u8> {
        self.data@.skip(self.pos as int)
    }

    pub closed spec fn wf(&self) -> bool {
        self.pos <= self.data@.len()
    }

    /// A stream positioned at the start of `data`.
    pub fn new(data: Vec<u8>) -> (s: Self)
        ensures
            s.wf(),
            s.remaining() == data@,
    {
        let s = ByteStream { data, pos: 0 };
        assert(s.remaining() =~= s.data@);
        s
    }

    /// Reads one framed message: `Ok(None)` on a clean end at a message
    /// boundary.  A successful read advances the stream past the message; a
    /// failed one takes the bytes read before the failure was found
    /// (`frame_consumed`).
    pub fn read_message(&mut self) -> (r: Result<Option<String>, FrameError>)
        requires
            old(self).wf(),
        ensures
            final(self).wf(),
            match r {
                Ok(None) => read_frame(old(self).remaining()) == Ok::<
                    Option<(Seq<char>, nat)>,
                    FrameErrorView,
                >(None) && final(self).remaining() == old(self).remaining(),
                Ok(Some(b)) => exists|k: nat|
                    read_frame(old(self).remaining()) == Ok::<
                        Option<(Seq<char>, nat)>,
                        FrameErrorView,
                    >(Some((b@, k))) && final(self).remaining() == old(self).remaining().skip(
                        k as int,
                    ),
                Err(e) => read_frame(old(self).remaining()) == Err::<
                    Option<(Seq<char>, nat)>,
                    FrameErrorView,
                >(e@) && final(self).remaining() == old(self).remaining().skip(
                    frame_consumed(old(self).remaining()) as int,
                ),
            },
    {
        let n = self.data.len();
        let ghost rem = self.remaining();
        let mut rest: Vec<u8> = Vec::new();
        let mut j: usize = self.pos;
        while j < n
            invariant
                self.pos <= j <= n,
                n == self.data@.len(),
                rest@ == self.data@.subrange(self.pos as int, j as int),
            decreases n - j,
        {
            rest.push(self.data[j]);
            j = j + 1;
        }
        assert(rest@ =~= rem);
        let (r, k) = read_frame_counted(rest.as_slice());
        proof {
            lemma_frame_consumed_bound(rem);
            lemma_read_frame_consumes(rem);
        }
        self.pos = self.pos + k;
        assert(self.remaining() =~= rem.skip(k as int));
        match r {
            Ok(None) => {
                assert(rem.skip(0) =~= rem);
                Ok(None)
            },
            Ok(Some((b, _))) => Ok(Some(b)),
            Err(e) => Err(e),
        }
    }
}

/// A successful read takes at least one byte and no more than the stream has.
pub proof fn lemma_read_frame_consumes(s: Seq<u8>)
    ensures
        read_frame(s) matches Ok(Some((b, k))) ==> 0 < k <= s.len(),
{
    if let HeaderScan::Complete(h) = scan_header(s) {
        let lim: nat = if s.len() < MAX_HEADER_BYTES + 1 {
            s.len()
        } else {
            (MAX_HEADER_BYTES + 1) as nat
        };
        lemma_first_blank_end_range(s, 1, lim);
    }
}

/// All the messages of the stream `s` up to a clean end, or the first error.
pub open spec fn read_all_frames(s: Seq<u8>) -> Result<Seq<Seq<char>>, FrameErrorView>
    decreases s.len(),
{
    match read_frame(s) {
        Err(e) => Err(e),
        Ok(None) => Ok(Seq::empty()),
        Ok(Some((b, k))) => if 0 < k <= s.len() {
            match read_all_frames(s.skip(k as int)) {
                Ok(bs) => Ok(seq![b] + bs),
                Err(e) => Err(e),
            }
        } else {
            Ok(Seq::empty())
        },
    }
}

/// Reads framed messages until a clean end, returning every body.
pub fn read_all(stream: &mut ByteStream) -> (r: Result<Vec<String>, FrameError>)
    requires
        old(stream).wf(),
    ensures
        final(stream).wf(),
        match r {
            Ok(bs) => read_all_frames(old(stream).remaining()) == Ok::<
                Seq<Seq<char>>,
                FrameErrorView,
            >(bs@.map_values(|b: String| b@)),
            Err(e) => read_all_frames(old(stream).remaining()) == Err::<
                Seq<Seq<char>>,
                FrameErrorView,
            >(e@),
        },
{
    let mut bodies: Vec<String> = Vec::new();
    let ghost start = stream.remaining();
    loop
        invariant
            stream.wf(),
            start == old(stream).remaining(),
            read_all_frames(start) == match read_all_frames(stream.remaining()) {
                Ok(bs) => Ok(bodies@.map_values(|b: String| b@) + bs),
                Err(e) => Err::<Seq<Seq<char>>, FrameErrorView>(e),
            },
        decreases stream.remaining().len(),
    {
        let ghost before = stream.remaining();
        proof {
            lemma_read_frame_consumes(before);
        }
        match stream.read_message() {
            Ok(None) => {
                assert(read_all_frames(before) == Ok::<Seq<Seq<char>>, FrameErrorView>(
                    Seq::empty(),
                ));
                assert(bodies@.map_values(|b: String| b@) + Seq::<Seq<char>>::empty()
                    =~= bodies@.map_values(|b: String| b@));
                return Ok(bodies);
            },
            Ok(Some(b)) => {
                let ghost bv = b@;
                let ghost prev = bodies@.map_values(|s: String| s@);
                let ghost k = choose|k: nat|
                    read_frame(before) == Ok::<Option<(Seq<char>, nat)>, FrameErrorView>(
                        Some((bv, k)),
                    ) && stream.remaining() == before.skip(k as int);
                bodies.push(b);
                proof {
                    assert(0 < k <= before.len());
                    assert(bodies@.map_values(|s: String| s@) =~= prev.push(bv));
                    match read_all_frames(stream.remaining()) {
                        Ok(bs) => {
                            assert(read_all_frames(before) == Ok::<
                                Seq<Seq<char>>,
                                FrameErrorView,
                            >(seq![bv] + bs));
                            assert(prev + (seq![bv] + bs) =~= prev.push(bv) + bs);
                        },
                        Err(e) => {
                            assert(read_all_frames(before) == Err::<
                                Seq<Seq<char>>,
                                FrameErrorView,
                            >(e));
                        },
                    }
                }
            },
            Err(e) => {
                assert(read_all_frames(before) == Err::<Seq<Seq<char>>, FrameErrorView>(e@));
                return Err(e);
            },
        }
    }
}

// ---------------------------------------------------------------------------
// The framing law
// ---------------------------------------------------------------------------

proof fn lemma_encode_utf8_concat(a: Seq<char>, b: Seq<char>)
    ensures
        encode_utf8(a + b) == encode_utf8(a) + encode_utf8(b),
    decreases a.len(),
{
    if a.len() == 0 {
        assert(a + b =~= b);
        assert(encode_utf8(a) =~= Seq::<u8>::empty());
        assert(encode_utf8(a) + encode_utf8(b) =~= encode_utf8(b));
    } else {
        let ab = a + b;
        assert(ab[0] == a[0]);
        assert(ab.drop_first() =~= a.drop_first() + b);
        lemma_encode_utf8_concat(a.drop_first(), b);
        let x = vstd::utf8::encode_scalar(a[0] as u32);
        assert(encode_utf8(ab) == x + encode_utf8(ab.drop_first()));
        assert(encode_utf8(a) == x + encode_utf8(a.drop_first()));
        assert(x + (encode_utf8(a.drop_first()) + encode_utf8(b)) =~= (x + encode_utf8(
            a.drop_first(),
        )) + encode_utf8(b));
    }
}

proof fn lemma_cl_name_ascii()
    ensures
        forall|i: int| 0 <= i < 14 ==> '\0' <= #[trigger] cl_name()[i] <= '\u{7f}' && cl_name()[i]
            != ':',
{
    assert forall|i: int| 0 <= i < 14 implies '\0' <= #[trigger] cl_name()[i] <= '\u{7f}'
        && cl_name()[i] != ':' by {
        if i == 0 {
        } else if i == 1 {
        } else if i == 2 {
        } else if i == 3 {
        } else if i == 4 {
        } else if i == 5 {
        } else if i == 6 {
        } else if i == 7 {
        } else if i == 8 {
        } else if i == 9 {
        } else if i == 10 {
        } else if i == 11 {
        } else if i == 12 {
        } else {
        }
    }
}

proof fn lemma_digit_ascii(c: char)
    requires
        is_digit(c),
    ensures
        '\0' <= c <= '\u{7f}',
        c != '\n' && c != '\r' && c != ':',
{
}

spec fn pow10(k: nat) -> nat
    decreases k,
{
    if k == 0 {
        1
    } else {
        10 * pow10((k - 1) as nat)
    }
}

proof fn lemma_dec_len(n: nat, k: nat)
    requires
        1 <= k,
        n < pow10(k),
    ensures
        dec(n).len() <= k,
    decreases n,
{
    if n >= 10 {
        let k1 = (k - 1) as nat;
        assert(pow10(k) == 10 * pow10(k1));
        assert(k1 >= 1) by {
            if k1 == 0 {
                assert(pow10(k) == 10);
            }
        }
        assert(n / 10 < pow10(k1)) by (nonlinear_arith)
            requires
                n < 10 * pow10(k1),
        ;
        lemma_div_smaller(n, 10);
        lemma_dec_len(n / 10, k1);
    }
}

/// A `'\n'`-free run, then `"\r\n\r\n"`: `str::lines` gives the run first.
proof fn lemma_lines_of_header(l: Seq<char>)
    requires
        !has_char(l, '\n'),
        !has_char(l, '\r'),
    ensures
        lines(l + seq!['\r', '\n', '\r', '\n']).len() > 0,
        lines(l + seq!['\r', '\n', '\r', '\n'])[0] == l,
{
    let init = (Seq::<Seq<char>>::empty(), Seq::<char>::empty());
    let lr = l.push('\r');
    assert(!has_char(lr, '\n')) by {
        if has_char(lr, '\n') {
            let i = choose|i: int| 0 <= i < lr.len() && lr[i] == '\n';
            if i < l.len() {
                assert(l[i] == lr[i]);
            }
        }
    }
    lemma_lines_fold_plain(init, lr);
    assert(Seq::<char>::empty() + lr =~= lr);
    let tail = seq!['\n', '\r', '\n'];
    assert(l + seq!['\r', '\n', '\r', '\n'] =~= lr + tail);
    lemma_lines_fold_append(init, lr, tail);
    let st1 = (Seq::<Seq<char>>::empty(), lr);
    assert(strip_cr(lr) =~= l);
    assert(tail =~= seq!['\n'] + seq!['\r', '\n']);
    lemma_lines_fold_append(st1, seq!['\n'], seq!['\r', '\n']);
    assert(seq!['\n'].drop_last() =~= Seq::<char>::empty());
    let st2 = lines_fold(st1, seq!['\n']);
    assert(lines_fold(st1, seq!['\n'].drop_last()) == st1);
    assert(st2 == lines_step(lines_fold(st1, seq!['\n'].drop_last()), seq!['\n'].last()));
    assert(st2 == lines_step(st1, '\n'));
    assert(st2.0 =~= seq![l]);
    assert(seq!['\r', '\n'].drop_last() =~= seq!['\r']);
    assert(seq!['\r'].drop_last() =~= Seq::<char>::empty());
    let st3 = lines_fold(st2, seq!['\r', '\n']);
    assert(lines_fold(st2, seq!['\r'].drop_last()) == st2);
    assert(lines_fold(st2, seq!['\r']) == lines_step(st2, '\r'));
    assert(lines_fold(st2, seq!['\r', '\n']) == lines_step(
        lines_fold(st2, seq!['\r', '\n'].drop_last()),
        '\n',
    ));
    assert(st3.0.len() > 0 && st3.0[0] == l);
}

/// Reading the framed message of a body gives the body back and takes
/// exactly the frame's bytes, whatever follows it in the stream, as long as
/// the body is within the size limit.
pub proof fn lemma_read_encoded_frame(body: Seq<char>, rest: Seq<u8>)
    requires
        encode_utf8(body).len() <= MAX_BODY_BYTES,
    ensures
        read_frame(frame_bytes(body) + rest) == Ok::<Option<(Seq<char>, nat)>, FrameErrorView>(
            Some((body, frame_bytes(body).len()))),
{
    let eb = encode_utf8(body);
    let m = eb.len();
    let d = dec(m);
    let l = header_line(m);
    let ht = header_text(m);
    let hb = encode_utf8(ht);
    let s = frame_bytes(body) + rest;
    lemma_parse_dec(m as usize);
    lemma_radix_digits(m, 10);
    lemma_cl_name_ascii();
    assert(pow10(7) == 10000000) by {
        reveal_with_fuel(pow10, 8);
    }
    lemma_dec_len(m, 7);
    // The header text is ASCII without line breaks before its end.
    assert(is_ascii_chars(ht)) by {
        assert forall|i: int| 0 <= i < ht.len() implies '\0' <= #[trigger] ht[i] <= '\u{7f}' by {
            if i < 14 {
                assert(ht[i] == cl_name()[i]);
                assert('\0' <= cl_name()[i] <= '\u{7f}');
            } else if i == 14 {
                assert(ht[i] == ':');
            } else if i == 15 {
                assert(ht[i] == ' ');
            } else if i < 16 + d.len() {
                assert(ht[i] == d[i - 16]);
                lemma_digit_ascii(ht[i]);
            } else {
                let k = i - 16 - d.len();
                assert(ht[i] == seq!['\r', '\n', '\r', '\n'][k]);
                if k == 0 {
                } else if k == 1 {
                } else if k == 2 {
                } else {
                }
                assert('\0' <= ht[i] <= '\u{7f}');
            }
        }
    }
    is_ascii_chars_encode_utf8(ht);
    lemma_encode_utf8_concat(ht, body);
    assert(s =~= hb + eb + rest);
    let h = ht.len();
    assert(h == 20 + d.len());
    assert forall|i: int| 0 <= i < h implies s[i] == hb[i] by {}
    assert forall|i: int| 0 <= i < h - 4 implies s[i] != 10 && s[i] != 13 by {
        assert(s[i] == ht[i] as u8);
        if 16 <= i {
            assert(ht[i] == d[i - 16]);
            assert(is_digit(d[i - 16]));
        }
    }
    assert(ends_blank(s, h as int)) by {
        assert(ht[h - 4] == '\r' && ht[h - 3] == '\n' && ht[h - 2] == '\r' && ht[h - 1] == '\n');
    }
    assert forall|j: int| 1 <= j < h implies !ends_blank(s, j) by {
        if ends_blank(s, j) {
            if j <= h - 4 {
                assert(s[j - 1] == 10);
            } else if j == h - 3 {
                assert(s[j - 1] == hb[h - 4]);
                assert(ht[h - 4] == '\r');
            } else if j == h - 2 {
                assert(s[j - 3] == 10);
            } else {
                assert(s[j - 1] == hb[h - 2]);
                assert(ht[h - 2] == '\r');
            }
        }
    }
    let lim: nat = if s.len() < MAX_HEADER_BYTES + 1 {
        s.len()
    } else {
        (MAX_HEADER_BYTES + 1) as nat
    };
    lemma_first_blank_end_at(s, 1, h, lim);
    assert(scan_header(s) == HeaderScan::Complete(h));
    // The header block decodes to the header text, whose first line names
    // the body length.
    assert(s.subrange(0, h as int) =~= hb);
    encode_utf8_valid_utf8(ht);
    encode_utf8_decode_utf8(ht);
    assert(lossy_text(s.subrange(0, h as int)) == ht);
    assert(!has_char(l, '\n') && !has_char(l, '\r')) by {
        if has_char(l, '\n') || has_char(l, '\r') {
            let i = choose|i: int| 0 <= i < l.len() && (l[i] == '\n' || l[i] == '\r');
            assert(ht[i] == l[i]);
            assert(s[i] == ht[i] as u8);
        }
    }
    lemma_lines_of_header(l);
    let ls = lines(ht);
    assert(ls[0] == l);
    assert forall|j: int| 0 <= j < 14 implies l[j] != ':' by {
        assert(l[j] == cl_name()[j]);
    }
    assert(l[14] == ':');
    lemma_first_index_at(l, ':', 14);
    assert(l.subrange(0, 14) =~= cl_name());
    assert(l.subrange(15, l.len() as int) =~= seq![' '] + d);
    lemma_trim_fixed(cl_name());
    lemma_radix_digits(m, 10);
    assert(is_digit(d[0]) && is_digit(d[d.len() - 1]));
    lemma_trim_indent(seq![' '], d);
    assert(cl_value_in(ls) == Some(d));
    assert(content_length(ht) == Ok::<usize, FrameErrorView>(m as usize));
    // The body follows.
    assert(s.subrange(h as int, (h + m) as int) =~= eb);
    encode_utf8_valid_utf8(body);
    encode_utf8_decode_utf8(body);
    assert(frame_bytes(body).len() == h + m);
}

} // verus!
