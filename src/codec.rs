//! The wire format: the question name of a query, and the negative response
//! built from a query.
use vstd::prelude::*;
use vstd::string::StringSliceAdditionalSpecFns;
use vstd::utf8::{decode_utf8, valid_utf8};

verus! {

/// Size of the fixed DNS message header.
pub const HEADER_LEN: usize = 12;

/// Why a datagram could not be read as a DNS query.
#[derive(Debug, Clone, Copy, PartialEq, Eq, Structural)]
pub enum ParseError {
    /// Shorter than the fixed header.
    TooShort,
    /// A label's declared length runs past the end of the buffer.
    TruncatedLabel,
    /// A label's bytes are not printable UTF-8 text (invalid UTF-8 or a
    /// control character), or its length byte is a compression pointer.
    InvalidEncoding,
}

/// The negative ("non-existent domain") response to `req`: the request with
/// the response flag set, the response code set to 3, and the answer,
/// authority and additional counts zeroed.
pub open spec fn negative_response(req: Seq<u8>) -> Seq<u8> {
    Seq::new(
        req.len(),
        |i: int|
            if i == 2 {
                req[2] | 0x80u8
            } else if i == 3 {
                (req[3] & 0xF0u8) | 0x03u8
            } else if 6 <= i < 12 {
                0u8
            } else {
                req[i]
            },
    )
}

/// Builds the negative response to `request`; fails with `TooShort` when the
/// request has no room for a header.
pub fn create_nxdomain_response(request: &[u8]) -> (r: Result<Vec<u8>, ParseError>)
    ensures
        request@.len() < HEADER_LEN ==> r == Err::<Vec<u8>, ParseError>(ParseError::TooShort),
        request@.len() >= HEADER_LEN ==> (r matches Ok(v) && v@ == negative_response(request@)),
{
    if request.len() < HEADER_LEN {
        return Err(ParseError::TooShort);
    }
    let mut response = vstd::slice::slice_to_vec(request);
    let flags = response[2] | 0x80;
    response.set(2, flags);
    let code = (response[3] & 0xF0) | 0x03;
    response.set(3, code);
    let mut i: usize = 6;
    while i < HEADER_LEN
        invariant
            6 <= i <= HEADER_LEN,
            response@.len() == request@.len(),
            request@.len() >= HEADER_LEN,
            forall|j: int|
                0 <= j < response@.len() ==> #[trigger] response@[j] == if j < i {
                    negative_response(request@)[j]
                } else {
                    request@[j]
                },
        decreases HEADER_LEN - i,
    {
        response.set(i, 0);
        i = i + 1;
    }
    assert(response@ =~= negative_response(request@));
    Ok(response)
}

/// The negative response keeps the request's length, its identifier, its
/// question count and its question section byte for byte; it sets the
/// response flag, keeps the other bits of that byte, sets the low nibble of the
/// next byte to 3 while keeping its high nibble, and zeroes the answer,
/// authority and additional counts.
pub proof fn lemma_negative_response_shape(req: Seq<u8>)
    requires
        req.len() >= HEADER_LEN,
    ensures
        negative_response(req).len() == req.len(),
        forall|i: int| HEADER_LEN <= i < req.len() ==> #[trigger] negative_response(req)[i] == req[i],
        forall|i: int| (0 <= i < 2 || 4 <= i < 6) ==> #[trigger] negative_response(req)[i] == req[i],
        forall|i: int| 6 <= i < HEADER_LEN ==> #[trigger] negative_response(req)[i] == 0,
        negative_response(req)[2] & 0x80u8 == 0x80u8,
        negative_response(req)[2] & 0x7Fu8 == req[2] & 0x7Fu8,
        negative_response(req)[3] & 0x0Fu8 == 3,
        negative_response(req)[3] & 0xF0u8 == req[3] & 0xF0u8,
{
    let b2 = req[2];
    let b3 = req[3];
    assert((b2 | 0x80u8) & 0x80u8 == 0x80u8) by (bit_vector);
    assert((b2 | 0x80u8) & 0x7Fu8 == b2 & 0x7Fu8) by (bit_vector);
    assert(((b3 & 0xF0u8) | 0x03u8) & 0x0Fu8 == 3) by (bit_vector);
    assert(((b3 & 0xF0u8) | 0x03u8) & 0xF0u8 == b3 & 0xF0u8) by (bit_vector);
}

/// A control character (Unicode category Cc): not printable.
pub open spec fn is_control(c: char) -> bool {
    (c as u32) < 0x20 || (0x7F <= (c as u32) && (c as u32) <= 0x9F)
}

/// `c` with an ASCII capital letter lowered; any other character unchanged.
pub open spec fn ascii_lower(c: char) -> char {
    if 'A' <= c && c <= 'Z' {
        ((c as u32) + 32) as char
    } else {
        c
    }
}

/// A label's bytes are printable text: valid UTF-8 with no control character.
pub open spec fn printable_label(label: Seq<u8>) -> bool {
    valid_utf8(label) && forall|i: int|
        0 <= i < decode_utf8(label).len() ==> !is_control(#[trigger] decode_utf8(label)[i])
}

/// The text of a label, with ASCII capitals lowered.
pub open spec fn label_text(label: Seq<u8>) -> Seq<char> {
    decode_utf8(label).map_values(|c: char| ascii_lower(c))
}

/// The labels of the name that starts at `pos`, as raw bytes: each is a
/// length byte followed by that many bytes, up to a zero length byte or the
/// end of the buffer. A length byte with both top bits set is a compression
/// pointer, which is not supported.
pub open spec fn labels_from(req: Seq<u8>, pos: int) -> Result<Seq<Seq<u8>>, ParseError>
    decreases req.len() - pos,
{
    if pos < 0 || pos >= req.len() || req[pos] == 0 {
        Ok(Seq::empty())
    } else {
        let n = req[pos] as int;
        if n >= 0xC0 {
            Err(ParseError::InvalidEncoding)
        } else if pos + 1 + n > req.len() {
            Err(ParseError::TruncatedLabel)
        } else {
            let label = req.subrange(pos + 1, pos + 1 + n);
            if !printable_label(label) {
                Err(ParseError::InvalidEncoding)
            } else {
                match labels_from(req, pos + 1 + n) {
                    Ok(rest) => Ok(seq![label] + rest),
                    Err(e) => Err(e),
                }
            }
        }
    }
}

/// The text of `labels`, joined by single dots.
pub open spec fn join_labels(labels: Seq<Seq<u8>>) -> Seq<char>
    decreases labels.len(),
{
    if labels.len() == 0 {
        Seq::empty()
    } else if labels.len() == 1 {
        label_text(labels[0])
    } else {
        join_labels(labels.drop_last()) + seq!['.'] + label_text(labels.last())
    }
}

/// The domain asked for in the question section of `req`, with ASCII
/// capitals lowered.
pub open spec fn question_name(req: Seq<u8>) -> Result<Seq<char>, ParseError> {
    if req.len() < HEADER_LEN {
        Err(ParseError::TooShort)
    } else {
        match labels_from(req, HEADER_LEN as int) {
            Ok(labels) => Ok(join_labels(labels)),
            Err(e) => Err(e),
        }
    }
}

/// What is left to read from `pos`, put after the labels already read.
pub open spec fn labels_after(read: Seq<Seq<u8>>, req: Seq<u8>, pos: int) -> Result<
    Seq<Seq<u8>>,
    ParseError,
> {
    match labels_from(req, pos) {
        Ok(rest) => Ok(read + rest),
        Err(e) => Err(e),
    }
}

/// Relies on std::str::from_utf8: it accepts exactly the valid UTF-8 byte
/// sequences, and returns them unchanged as text.
#[verifier::external_body]
fn utf8_text(bytes: &[u8]) -> (r: Option<&str>)
    ensures
        r is Some <==> valid_utf8(bytes@),
        r matches Some(s) ==> s.spec_bytes() == bytes@,
{
    std::str::from_utf8(bytes).ok()
}

/// Relies on str::to_ascii_lowercase: ASCII letters 'A' to 'Z' become 'a' to
/// 'z', every other character stays as it is.
#[verifier::external_body]
fn ascii_lowercase(s: &str) -> (r: String)
    ensures
        r@ == s@.map_values(|c: char| ascii_lower(c)),
{
    s.to_ascii_lowercase()
}

/// Whether `text` holds no control character.
fn is_printable(text: &str) -> (r: bool)
    ensures
        r == forall|i: int| 0 <= i < text@.len() ==> !is_control(#[trigger] text@[i]),
{
    let n = text.unicode_len();
    let mut j: usize = 0;
    while j < n
        invariant
            n == text@.len(),
            j <= n,
            forall|i: int| 0 <= i < j ==> !is_control(#[trigger] text@[i]),
        decreases n - j,
    {
        let c = text.get_char(j) as u32;
        if c < 0x20 || (0x7F <= c && c <= 0x9F) {
            assert(is_control(text@[j as int]));
            return false;
        }
        j = j + 1;
    }
    true
}

/// Reads the domain asked for in the question section of `request`, with
/// ASCII capitals lowered. Labels that are not printable UTF-8 text, and
/// compression pointers, are refused.
pub fn parse_dns_query(request: &[u8]) -> (r: Result<String, ParseError>)
    ensures
        r matches Ok(s) ==> question_name(request@) == Ok::<Seq<char>, ParseError>(s@),
        r matches Err(e) ==> question_name(request@) == Err::<Seq<char>, ParseError>(e),
{
    if request.len() < HEADER_LEN {
        return Err(ParseError::TooShort);
    }
    let mut pos: usize = HEADER_LEN;
    let mut domain = String::new();
    let ghost mut read: Seq<Seq<u8>> = Seq::empty();
    while pos < request.len() && request[pos] != 0
        invariant
            HEADER_LEN <= pos <= request@.len(),
            labels_from(request@, HEADER_LEN as int) == labels_after(read, request@, pos as int),
            domain@ == join_labels(read),
            (read.len() == 0) == (pos == HEADER_LEN),
        decreases request@.len() - pos,
    {
        let len = request[pos] as usize;
        if len >= 0xC0 {
            return Err(ParseError::InvalidEncoding);
        }
        pos = pos + 1;
        if len > request.len() - pos {
            return Err(ParseError::TruncatedLabel);
        }
        let label = vstd::slice::slice_subrange(request, pos, pos + len);
        let text = match utf8_text(label) {
            Some(t) => t,
            None => {
                return Err(ParseError::InvalidEncoding);
            },
        };
        proof {
            vstd::utf8::encode_utf8_decode_utf8(text@);
        }
        if !is_printable(text) {
            return Err(ParseError::InvalidEncoding);
        }
        let lowered = ascii_lowercase(text);
        if pos > HEADER_LEN + 1 {
            domain.append(".");
        }
        domain.append(lowered.as_str());
        proof {
            reveal_strlit(".");
            let old_read = read;
            read = read.push(label@);
            assert(read.drop_last() == old_read);
            assert(read.last() == label@);
            assert(text@ == decode_utf8(label@));
            assert(lowered@ == label_text(label@));
            match labels_from(request@, pos + len) {
                Ok(rest) => {
                    assert(old_read + (seq![label@] + rest) =~= read + rest);
                },
                Err(e) => {},
            }
        }
        pos = pos + len;
    }
    assert(labels_from(request@, pos as int) == Ok::<Seq<Seq<u8>>, ParseError>(Seq::empty()));
    assert(read + Seq::<Seq<u8>>::empty() =~= read);
    Ok(domain)
}

} // verus!
