//! The parsed view of one HTTP request: the raw bytes of the initial read,
//! with accessors that derive the requested path on demand.

use vstd::prelude::*;
use crate::bytes_util::{
    find_byte, find_byte_from, find_crlf, find_header_value, find_prefixed_line,
    find_prefixed_line_from, header_value, lemma_find_byte_from_spec, lemma_find_crlf_from_spec,
    line_end_from, parse_u64_dec, spec_parse_u64_dec,
};
use vstd::string::StringSliceAdditionalSpecFns;
use vstd::utf8::{decode_utf8, valid_utf8};

verus! {

/// Why a `Range` header could not be resolved into a byte interval.
#[derive(Clone, Copy, Debug, PartialEq, Eq, Structural)]
pub enum RangeError {
    /// No line of the request begins with `Range: bytes=`.
    MissingHeader,
    /// The header's value holds no `-` between start and end.
    MissingSeparator,
    /// The start offset is empty, not a decimal numeral, or too large.
    InvalidStart,
    /// The end offset is present but not a decimal numeral, or too large;
    /// this also rejects multi-range values such as `0-10,20-30`.
    InvalidEnd,
}

/// One HTTP request, as the raw bytes captured from a single bounded read of
/// the connection.  All accessors are derived views over these bytes; nothing
/// is cached.
pub struct HTTPRequest {
    data: Vec<u8>,
}

impl View for HTTPRequest {
    type V = Seq<u8>;

    closed spec fn view(&self) -> Seq<u8> {
        self.data@
    }
}

/// The prefix that announces a byte-range request.
pub open spec fn spec_range_prefix() -> Seq<u8> {
    "Range: bytes=".spec_bytes()
}

/// Some line of the request begins with `Range: bytes=`.
pub open spec fn spec_has_range_header(s: Seq<u8>) -> bool {
    find_prefixed_line_from(s, spec_range_prefix(), 0) is Some
}

/// The requested interval read off a `Range: bytes=` header value: the bytes
/// before the first `-` as the start offset, the bytes after it as the end
/// offset — absent when empty, an error when present but no usable numeral,
/// so that a multi-range value is rejected rather than widened.
pub open spec fn spec_parse_range_value(v: Seq<u8>) -> Result<(u64, Option<u64>), RangeError> {
    match find_byte_from(v, '-' as u8, 0) {
        None => Err(RangeError::MissingSeparator),
        Some(j) => {
            let start_tok = v.subrange(0, j);
            let end_tok = v.subrange(j + 1, v.len() as int);
            match spec_parse_u64_dec(start_tok) {
                None => Err(RangeError::InvalidStart),
                Some(a) => if end_tok.len() == 0 {
                    Ok((a, None))
                } else {
                    match spec_parse_u64_dec(end_tok) {
                        None => Err(RangeError::InvalidEnd),
                        Some(e) => Ok((a, Some(e))),
                    }
                },
            }
        },
    }
}

/// The requested interval of the whole request: the value of the first
/// `Range: bytes=` line, resolved by `spec_parse_range_value`.
pub open spec fn spec_parse_range(s: Seq<u8>) -> Result<(u64, Option<u64>), RangeError> {
    match header_value(s, spec_range_prefix()) {
        None => Err(RangeError::MissingHeader),
        Some(v) => spec_parse_range_value(v),
    }
}

/// The presence check and the resolver agree: the header is present exactly
/// when resolving it fails with anything but `MissingHeader`.
pub proof fn lemma_range_presence_matches_resolver(s: Seq<u8>)
    ensures
        spec_has_range_header(s) <==> spec_parse_range(s) != Err::<
            (u64, Option<u64>),
            RangeError,
        >(RangeError::MissingHeader),
{
}

/// What `base64::decode` returns on the given bytes: the decoded payload
/// exactly when the input is well-formed standard Base64, `None` otherwise.
pub uninterp spec fn base64_decode_of(s: Seq<u8>) -> Option<Seq<u8>>;

/// Relies on `base64::decode` (standard alphabet): a deterministic decode of
/// the input bytes that fails exactly on malformed Base64.
#[verifier::external_body]
fn base64_decode(input: &[u8]) -> (r: Option<Vec<u8>>)
    ensures
        match r {
            Some(v) => base64_decode_of(input@) == Some(v@),
            None => base64_decode_of(input@) is None,
        },
{
    base64::decode(input).ok()
}

/// Relies on `String::from_utf8`: succeeds exactly on valid UTF-8, returning
/// the decoded characters unchanged.
#[verifier::external_body]
fn bytes_to_string(v: Vec<u8>) -> (r: Option<String>)
    ensures
        match r {
            Some(s) => valid_utf8(v@) && s@ == decode_utf8(v@),
            None => !valid_utf8(v@),
        },
{
    String::from_utf8(v).ok()
}

/// The prefix that announces Basic credentials.
pub open spec fn spec_basic_prefix() -> Seq<u8> {
    "Authorization: Basic ".spec_bytes()
}

/// The Basic credentials claimed by the request: the value of the first
/// `Authorization: Basic ` line, Base64-decoded, split at the first colon
/// into username and password, both halves read as UTF-8.  A missing header,
/// bad Base64, a colon-less payload and invalid UTF-8 all yield `None`.
pub open spec fn spec_authorization(s: Seq<u8>) -> Option<(Seq<char>, Seq<char>)> {
    match header_value(s, spec_basic_prefix()) {
        None => None,
        Some(payload) => match base64_decode_of(payload) {
            None => None,
            Some(d) => match find_byte_from(d, ':' as u8, 0) {
                None => None,
                Some(j) => {
                    let ub = d.subrange(0, j);
                    let pb = d.subrange(j + 1, d.len() as int);
                    if valid_utf8(ub) && valid_utf8(pb) {
                        Some((decode_utf8(ub), decode_utf8(pb)))
                    } else {
                        None
                    }
                },
            },
        },
    }
}

/// A Basic payload that does not decode as Base64, or whose decoded bytes
/// hold no colon, never yields credentials.
pub proof fn lemma_malformed_basic_payload_yields_none(s: Seq<u8>)
    requires
        header_value(s, spec_basic_prefix()) is Some,
        ({
            let payload = header_value(s, spec_basic_prefix())->0;
            ||| base64_decode_of(payload) is None
            ||| find_byte_from(base64_decode_of(payload)->0, ':' as u8, 0) is None
        }),
    ensures
        spec_authorization(s) is None,
{
}

/// The request's first line: everything before the first CRLF.
pub open spec fn spec_first_line(s: Seq<u8>) -> Seq<u8> {
    s.subrange(0, line_end_from(s, 0))
}

/// The requested path: the second space-delimited token of the request's
/// first line, `/` when that line has no second token.
pub open spec fn spec_get_path(s: Seq<u8>) -> Seq<u8> {
    let line = spec_first_line(s);
    match find_byte_from(line, ' ' as u8, 0) {
        None => "/".spec_bytes(),
        Some(i) => match find_byte_from(line, ' ' as u8, i + 1) {
            None => line.subrange(i + 1, line.len() as int),
            Some(j) => line.subrange(i + 1, j),
        },
    }
}

impl HTTPRequest {
    /// Wraps the bytes of one bounded initial read of a connection.
    pub fn new(data: Vec<u8>) -> (r: Self)
        ensures
            r@ == data@,
    {
        HTTPRequest { data }
    }

    /// The raw bytes this request was built from.
    pub(crate) fn raw(&self) -> (r: &[u8])
        ensures
            r@ == self@,
    {
        self.data.as_slice()
    }

    /// Get the requested path of this GET request.  An HTTP GET request's
    /// first line reads `GET /[path] HTTP/1.1`; the path is that line's
    /// second space-delimited token, `/` when the line has no second token.
    pub fn get_get_path(&self) -> (r: Vec<u8>)
        ensures
            r@ == spec_get_path(self@),
    {
        let s = self.data.as_slice();
        let n = s.len();
        proof {
            lemma_find_crlf_from_spec(self@, 0);
        }
        let line_end = match find_crlf(s, 0) {
            None => n,
            Some(j) => j,
        };
        let line = vstd::slice::slice_subrange(s, 0, line_end);
        proof {
            assert(line@ == spec_first_line(self@));
            lemma_find_byte_from_spec(line@, ' ' as u8, 0);
        }
        match find_byte(line, ' ' as u8, 0) {
            None => {
                let mut v: Vec<u8> = Vec::new();
                v.push('/' as u8);
                proof {
                    reveal_strlit("/");
                    assert(v@ =~= "/".spec_bytes()) by {
                        vstd::string::is_ascii_spec_bytes("/");
                    }
                }
                v
            },
            Some(i) => {
                proof {
                    assert(i < line_end);
                    lemma_find_byte_from_spec(line@, ' ' as u8, i + 1);
                }
                let end = match find_byte(line, ' ' as u8, i + 1) {
                    None => line_end,
                    Some(j) => j,
                };
                vstd::slice::slice_to_vec(vstd::slice::slice_subrange(line, i + 1, end))
            },
        }
    }

    /// Whether this HTTP request contains a `Range` header: some line of the
    /// request begins with `Range: bytes=`.  True exactly when
    /// `get_requested_range` will find the header.
    pub fn contains_range_header(&self) -> (r: bool)
        ensures
            r == spec_has_range_header(self@),
    {
        find_prefixed_line(self.data.as_slice(), "Range: bytes=".as_bytes()).is_some()
    }

    /// Resolves the requested byte interval from the first `Range: bytes=`
    /// header line.  Supported forms are `<start>-` (open end) and
    /// `<start>-<end>`; a missing header, a value without `-`, and an
    /// unusable start or end offset each yield their own error instead of
    /// aborting or widening the request.
    pub fn get_requested_range(&self) -> (r: Result<(u64, Option<u64>), RangeError>)
        ensures
            r == spec_parse_range(self@),
    {
        let s = self.data.as_slice();
        let (lo, hi) = match find_header_value(s, "Range: bytes=".as_bytes()) {
            None => {
                return Err(RangeError::MissingHeader);
            },
            Some(b) => b,
        };
        let v = vstd::slice::slice_subrange(s, lo, hi);
        let vn = v.len();
        match find_byte(v, '-' as u8, 0) {
            None => Err(RangeError::MissingSeparator),
            Some(j) => {
                proof {
                    lemma_find_byte_from_spec(v@, '-' as u8, 0);
                }
                let start_tok = vstd::slice::slice_subrange(v, 0, j);
                let end_tok = vstd::slice::slice_subrange(v, j + 1, vn);
                match parse_u64_dec(start_tok) {
                    None => Err(RangeError::InvalidStart),
                    Some(a) => {
                        if end_tok.len() == 0 {
                            Ok((a, None))
                        } else {
                            match parse_u64_dec(end_tok) {
                                None => Err(RangeError::InvalidEnd),
                                Some(e) => Ok((a, Some(e))),
                            }
                        }
                    },
                }
            },
        }
    }

    /// Get the username and password the client provided as Basic
    /// authorization: the Base64 payload of the `Authorization: Basic `
    /// header, decoded and split at the first colon.  A missing header or a
    /// malformed payload yields `None`, never an error.
    pub fn get_authorization(&self) -> (r: Option<(String, String)>)
        ensures
            match r {
                Some(c) => spec_authorization(self@) == Some((c.0@, c.1@)),
                None => spec_authorization(self@) is None,
            },
    {
        let s = self.data.as_slice();
        let (lo, hi) = match find_header_value(s, "Authorization: Basic ".as_bytes()) {
            None => {
                return None;
            },
            Some(b) => b,
        };
        let payload = vstd::slice::slice_subrange(s, lo, hi);
        let decoded = match base64_decode(payload) {
            None => {
                return None;
            },
            Some(d) => d,
        };
        let n = decoded.len();
        let j = match find_byte(decoded.as_slice(), ':' as u8, 0) {
            None => {
                return None;
            },
            Some(j) => j,
        };
        proof {
            lemma_find_byte_from_spec(decoded@, ':' as u8, 0);
        }
        let ub = vstd::slice::slice_to_vec(
            vstd::slice::slice_subrange(decoded.as_slice(), 0, j),
        );
        let pb = vstd::slice::slice_to_vec(
            vstd::slice::slice_subrange(decoded.as_slice(), j + 1, n),
        );
        let uname = match bytes_to_string(ub) {
            None => {
                return None;
            },
            Some(u) => u,
        };
        let pw = match bytes_to_string(pb) {
            None => {
                return None;
            },
            Some(p) => p,
        };
        Some((uname, pw))
    }
}

} // verus!
