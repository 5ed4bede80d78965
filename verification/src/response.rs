//! Response assembly: status-coded header blocks with either an in-memory
//! body attached, or the header block and byte count for streaming a bounded
//! window of a file that the caller copies to the transport itself.

use vstd::prelude::*;
use crate::bytes_util::{dec_digits_of, push_all, u64_to_dec};
use vstd::string::StringSliceAdditionalSpecFns;

verus! {

/// A status line plus a `Content-Length` header, terminated by the blank
/// line that separates headers from the body.
pub open spec fn spec_content_length_head(status: Seq<u8>, len: nat) -> Seq<u8> {
    status + "\r\nContent-Length: ".spec_bytes() + dec_digits_of(len) + "\r\n\r\n".spec_bytes()
}

/// The complete `200 OK` response for an in-memory body.
pub open spec fn spec_response_200(body: Seq<u8>) -> Seq<u8> {
    spec_content_length_head("HTTP/1.1 200 OK".spec_bytes(), body.len()) + body
}

/// The complete `400 Bad Request` response for an in-memory body.
pub open spec fn spec_response_400(body: Seq<u8>) -> Seq<u8> {
    spec_content_length_head("HTTP/1.1 400 Bad Request".spec_bytes(), body.len()) + body
}

/// The complete `403 Forbidden` response for an in-memory body.
pub open spec fn spec_response_403(body: Seq<u8>) -> Seq<u8> {
    spec_content_length_head("HTTP/1.1 403 Forbidden".spec_bytes(), body.len()) + body
}

/// The body of a `404 Not Found` response: a fixed message followed by the
/// caller-supplied, request-relative resource name and nothing else.
pub open spec fn spec_body_404(name: Seq<u8>) -> Seq<u8> {
    "Error: Could not find file ".spec_bytes() + name
}

/// The complete `404 Not Found` response.
pub open spec fn spec_response_404(name: Seq<u8>) -> Seq<u8> {
    spec_content_length_head("HTTP/1.1 404 Not Found".spec_bytes(), spec_body_404(name).len())
        + spec_body_404(name)
}

/// The body of a `500 Internal Server Error` response.
pub open spec fn spec_body_500(msg: Seq<u8>) -> Seq<u8> {
    "Internal Server Error occurred: ".spec_bytes() + msg
}

/// The complete `500 Internal Server Error` response.
pub open spec fn spec_response_500(msg: Seq<u8>) -> Seq<u8> {
    spec_content_length_head(
        "HTTP/1.1 500 Internal Server Error".spec_bytes(),
        spec_body_500(msg).len(),
    ) + spec_body_500(msg)
}

/// The complete `401 Unauthorized` response challenging for the Basic
/// scheme; it carries no body.
pub open spec fn spec_response_401_basic(realm: Seq<u8>) -> Seq<u8> {
    "HTTP/1.1 401 Unauthorized\r\nWWW-Authenticate: Basic realm=\"".spec_bytes() + realm
        + "\"\r\n\r\n".spec_bytes()
}

/// The quality-of-protection directive of a Digest challenge; empty when the
/// caller opts into neither mode, which selects the legacy scheme.
pub open spec fn spec_qop_directive(qop_auth: bool, qop_auth_int: bool) -> Seq<u8> {
    if qop_auth && qop_auth_int {
        "qop=\"auth,auth-int\",\r\n".spec_bytes()
    } else if qop_auth {
        "qop=\"auth\",\r\n".spec_bytes()
    } else if qop_auth_int {
        "qop=\"auth-int\",\r\n".spec_bytes()
    } else {
        Seq::<u8>::empty()
    }
}

/// The complete `401 Unauthorized` response challenging for the Digest
/// scheme, carrying the server's realm, nonce and opaque; no body.
pub open spec fn spec_response_401_digest(
    realm: Seq<u8>,
    nonce: Seq<u8>,
    opaque: Seq<u8>,
    qop_auth: bool,
    qop_auth_int: bool,
) -> Seq<u8> {
    "HTTP/1.1 401 Unauthorized\r\nWWW-Authenticate: Digest realm=\"".spec_bytes() + realm
        + "\",\r\n".spec_bytes() + spec_qop_directive(qop_auth, qop_auth_int) + "nonce=\"".spec_bytes()
        + nonce + "\",\r\n".spec_bytes() + "opaque=\"".spec_bytes() + opaque
        + "\"\r\n\r\n".spec_bytes()
}

/// The header block of a `206 Partial Content` response, for the inclusive
/// interval `start..=end` out of `total` bytes.
pub open spec fn spec_head_206(start: nat, end: nat, total: nat) -> Seq<u8> {
    "HTTP/1.1 206 Partial Content\r\nAccept-Ranges: bytes\r\nContent-Range: bytes ".spec_bytes()
        + dec_digits_of(start) + "-".spec_bytes() + dec_digits_of(end) + "/".spec_bytes()
        + dec_digits_of(total) + "\r\n\r\n".spec_bytes()
}

/// The complete in-memory `206 Partial Content` response: the header block
/// followed by exactly the requested inclusive slice of the content.
pub open spec fn spec_response_206(content: Seq<u8>, start: nat, end: nat) -> Seq<u8> {
    spec_head_206(start, end, content.len()) + content.subrange(start as int, end as int + 1)
}

/// The header block of a streamed `206 Partial Content` response; an open
/// end is written as the empty numeral, and the total is always the whole
/// file's size.
pub open spec fn spec_head_206_stream(start: u64, end: Option<u64>, file_size: u64) -> Seq<u8> {
    "HTTP/1.1 206 Partial Content\r\nAccept-Ranges: bytes\r\nContent-Range: bytes ".spec_bytes()
        + dec_digits_of(start as nat) + "-".spec_bytes() + (match end {
        Some(e) => dec_digits_of(e as nat),
        None => Seq::<u8>::empty(),
    }) + "/".spec_bytes() + dec_digits_of(file_size as nat) + "\r\n\r\n".spec_bytes()
}

/// How many bytes a bounded copy of the file window actually delivers: the
/// requested inclusive interval, clipped to the bytes the file has past
/// `start`; zero when `start` lies at or beyond the end of the file.
pub open spec fn spec_stream_len(start: u64, end: Option<u64>, file_size: u64) -> int {
    if start >= file_size {
        0
    } else {
        match end {
            None => file_size - start,
            Some(e) => if e < file_size {
                e - start + 1
            } else {
                file_size - start
            },
        }
    }
}

/// The byte window of a file's content that a streamed range response
/// delivers: what remains of `content` past `start`, cut after `end` when a
/// bounded end lies inside the file.
pub open spec fn spec_stream_window(content: Seq<u8>, start: u64, end: Option<u64>) -> Seq<u8> {
    if start >= content.len() {
        Seq::<u8>::empty()
    } else {
        match end {
            None => content.subrange(start as int, content.len() as int),
            Some(e) => if e < content.len() {
                content.subrange(start as int, e as int + 1)
            } else {
                content.subrange(start as int, content.len() as int)
            },
        }
    }
}

/// For a file whose bytes are `content`, the streamed window of a range
/// response is exactly the requested inclusive interval of those bytes:
/// `content[start..=end]` with `end − start + 1` bytes for a bounded end
/// inside the file, and all `content.len() − start` bytes from `start` for
/// an open one.  `stream_len` answers precisely this window's length, so a
/// copy bounded by it delivers the file's bytes at that interval and no
/// others.
pub proof fn lemma_stream_window_is_the_files_bytes(
    content: Seq<u8>,
    start: u64,
    end: Option<u64>,
    file_size: u64,
)
    requires
        content.len() == file_size,
        end is Some ==> start <= end->0,
    ensures
        spec_stream_window(content, start, end).len() == spec_stream_len(start, end, file_size),
        end is Some && end->0 < file_size ==> spec_stream_window(content, start, end)
            == content.subrange(start as int, end->0 as int + 1),
        end is None && start <= file_size ==> spec_stream_window(content, start, end)
            == content.subrange(start as int, file_size as int),
{
    if start >= file_size {
        assert(spec_stream_window(content, start, end) =~= Seq::<u8>::empty());
        if end is None && start <= file_size {
            assert(content.subrange(start as int, file_size as int) =~= Seq::<u8>::empty());
        }
    }
}

/// A wrapper around a byte vector holding one assembled HTTP response.
pub struct HTTPResponse {
    http_response: Vec<u8>,
}

impl View for HTTPResponse {
    type V = Seq<u8>;

    closed spec fn view(&self) -> Seq<u8> {
        self.http_response@
    }
}

/// Builds `status + CRLF + Content-Length header + blank line + body`,
/// draining `content` into the body so no second copy of it is kept.
fn content_length_response(status: &str, content: &mut Vec<u8>) -> (r: Vec<u8>)
    ensures
        r@ == spec_content_length_head(status.spec_bytes(), old(content)@.len() as nat) + old(
            content,
        )@,
        final(content)@.len() == 0,
{
    let mut v: Vec<u8> = Vec::new();
    push_all(&mut v, status.as_bytes());
    push_all(&mut v, "\r\nContent-Length: ".as_bytes());
    let len_bytes = u64_to_dec(content.len() as u64);
    push_all(&mut v, len_bytes.as_slice());
    push_all(&mut v, "\r\n\r\n".as_bytes());
    v.append(content);
    proof {
        assert(v@ =~= spec_content_length_head(status.spec_bytes(), old(content)@.len() as nat)
            + old(content)@);
    }
    v
}

impl HTTPResponse {
    /// The assembled bytes, ready to be written to a transport.
    pub fn bytes(&self) -> (r: &Vec<u8>)
        ensures
            r@ == self@,
    {
        &self.http_response
    }

    /// Create a new `200 OK` HTTP response, draining `content` into the body.
    pub fn new_200_ok(content: &mut Vec<u8>) -> (r: Self)
        ensures
            r@ == spec_response_200(old(content)@),
            final(content)@.len() == 0,
    {
        let http_response = content_length_response("HTTP/1.1 200 OK", content);
        Self { http_response }
    }

    /// Create a new `206 Partial Content` HTTP response from an in-memory
    /// buffer, serving exactly the inclusive byte interval
    /// `start_index..=end_index`.
    pub fn new_206_partial_content(content: &[u8], start_index: usize, end_index: usize) -> (r:
        Self)
        requires
            start_index <= end_index < content@.len(),
        ensures
            r@ == spec_response_206(content@, start_index as nat, end_index as nat),
    {
        let total = content.len();
        let mut v: Vec<u8> = Vec::new();
        push_all(
            &mut v,
            "HTTP/1.1 206 Partial Content\r\nAccept-Ranges: bytes\r\nContent-Range: bytes ".as_bytes(),
        );
        let start_bytes = u64_to_dec(start_index as u64);
        push_all(&mut v, start_bytes.as_slice());
        push_all(&mut v, "-".as_bytes());
        let end_bytes = u64_to_dec(end_index as u64);
        push_all(&mut v, end_bytes.as_slice());
        push_all(&mut v, "/".as_bytes());
        let total_bytes = u64_to_dec(total as u64);
        push_all(&mut v, total_bytes.as_slice());
        push_all(&mut v, "\r\n\r\n".as_bytes());
        push_all(&mut v, vstd::slice::slice_subrange(content, start_index, end_index + 1));
        proof {
            assert(v@ =~= spec_response_206(content@, start_index as nat, end_index as nat));
        }
        Self { http_response: v }
    }

    /// Create a new `400 Bad Request` HTTP response, draining `content` into
    /// the body.
    pub fn new_400_bad_request(content: &mut Vec<u8>) -> (r: Self)
        ensures
            r@ == spec_response_400(old(content)@),
            final(content)@.len() == 0,
    {
        let http_response = content_length_response("HTTP/1.1 400 Bad Request", content);
        Self { http_response }
    }

    /// Create a new `401 Unauthorized` HTTP response requesting the Basic
    /// authentication scheme for the given realm.
    pub fn new_401_unauthorized(realm_name: &str) -> (r: Self)
        ensures
            r@ == spec_response_401_basic(realm_name.spec_bytes()),
    {
        let mut v: Vec<u8> = Vec::new();
        push_all(&mut v, "HTTP/1.1 401 Unauthorized\r\nWWW-Authenticate: Basic realm=\"".as_bytes());
        push_all(&mut v, realm_name.as_bytes());
        push_all(&mut v, "\"\r\n\r\n".as_bytes());
        proof {
            assert(v@ =~= spec_response_401_basic(realm_name.spec_bytes()));
        }
        Self { http_response: v }
    }

    /// Create a new `401 Unauthorized` HTTP response requesting the Digest
    /// authentication scheme.  The `nonce` is the challenge to the client;
    /// `opaque` is a server-chosen token the client must return unchanged.
    /// `qop_auth` and `qop_auth_int` select the advertised qualities of
    /// protection; with both off the directive is omitted entirely, which
    /// selects the legacy scheme.
    pub fn new_401_unauthorized_digest(
        realm_name: &str,
        nonce: &str,
        opaque: &str,
        qop_auth: bool,
        qop_auth_int: bool,
    ) -> (r: Self)
        ensures
            r@ == spec_response_401_digest(
                realm_name.spec_bytes(),
                nonce.spec_bytes(),
                opaque.spec_bytes(),
                qop_auth,
                qop_auth_int,
            ),
    {
        let mut v: Vec<u8> = Vec::new();
        push_all(
            &mut v,
            "HTTP/1.1 401 Unauthorized\r\nWWW-Authenticate: Digest realm=\"".as_bytes(),
        );
        push_all(&mut v, realm_name.as_bytes());
        push_all(&mut v, "\",\r\n".as_bytes());
        if qop_auth && qop_auth_int {
            push_all(&mut v, "qop=\"auth,auth-int\",\r\n".as_bytes());
        } else if qop_auth {
            push_all(&mut v, "qop=\"auth\",\r\n".as_bytes());
        } else if qop_auth_int {
            push_all(&mut v, "qop=\"auth-int\",\r\n".as_bytes());
        }
        push_all(&mut v, "nonce=\"".as_bytes());
        push_all(&mut v, nonce.as_bytes());
        push_all(&mut v, "\",\r\n".as_bytes());
        push_all(&mut v, "opaque=\"".as_bytes());
        push_all(&mut v, opaque.as_bytes());
        push_all(&mut v, "\"\r\n\r\n".as_bytes());
        proof {
            assert(v@ =~= spec_response_401_digest(
                realm_name.spec_bytes(),
                nonce.spec_bytes(),
                opaque.spec_bytes(),
                qop_auth,
                qop_auth_int,
            ));
        }
        Self { http_response: v }
    }

    /// Create a new `403 Forbidden` HTTP response, draining `content` into
    /// the body.
    pub fn new_403_forbidden(content: &mut Vec<u8>) -> (r: Self)
        ensures
            r@ == spec_response_403(old(content)@),
            final(content)@.len() == 0,
    {
        let http_response = content_length_response("HTTP/1.1 403 Forbidden", content);
        Self { http_response }
    }

    /// Create a new `404 Not Found` HTTP response whose body names only the
    /// missing resource as given; the caller passes the request-relative
    /// name, never a filesystem path.
    pub fn new_404_not_found(filename: &str) -> (r: Self)
        ensures
            r@ == spec_response_404(filename.spec_bytes()),
    {
        let mut body: Vec<u8> = Vec::new();
        push_all(&mut body, "Error: Could not find file ".as_bytes());
        push_all(&mut body, filename.as_bytes());
        proof {
            assert(body@ =~= spec_body_404(filename.spec_bytes()));
        }
        let http_response = content_length_response("HTTP/1.1 404 Not Found", &mut body);
        proof {
            assert(http_response@ =~= spec_response_404(filename.spec_bytes()));
        }
        Self { http_response }
    }

    /// Create a new `500 Internal Server Error` HTTP response with the given
    /// error detail in the body.
    pub fn new_500_server_error(error_message: &str) -> (r: Self)
        ensures
            r@ == spec_response_500(error_message.spec_bytes()),
    {
        let mut body: Vec<u8> = Vec::new();
        push_all(&mut body, "Internal Server Error occurred: ".as_bytes());
        push_all(&mut body, error_message.as_bytes());
        proof {
            assert(body@ =~= spec_body_500(error_message.spec_bytes()));
        }
        let http_response = content_length_response(
            "HTTP/1.1 500 Internal Server Error",
            &mut body,
        );
        proof {
            assert(http_response@ =~= spec_response_500(error_message.spec_bytes()));
        }
        Self { http_response }
    }
}

/// The header block for streaming a whole file of `file_size` bytes as a
/// `200 OK` response; the caller copies the file itself after sending it.
pub fn head_200_for_length(file_size: u64) -> (r: Vec<u8>)
    ensures
        r@ == spec_content_length_head("HTTP/1.1 200 OK".spec_bytes(), file_size as nat),
{
    let mut v: Vec<u8> = Vec::new();
    push_all(&mut v, "HTTP/1.1 200 OK".as_bytes());
    push_all(&mut v, "\r\nContent-Length: ".as_bytes());
    let len_bytes = u64_to_dec(file_size);
    push_all(&mut v, len_bytes.as_slice());
    push_all(&mut v, "\r\n\r\n".as_bytes());
    proof {
        assert(v@ =~= spec_content_length_head(
            "HTTP/1.1 200 OK".spec_bytes(),
            file_size as nat,
        ));
    }
    v
}

/// The header block for streaming the byte window `start..=end` (or all
/// bytes from `start` when `end` is absent) of a file of `file_size` bytes
/// as a `206 Partial Content` response.
pub fn head_206_for_range(start: u64, end: Option<u64>, file_size: u64) -> (r: Vec<u8>)
    ensures
        r@ == spec_head_206_stream(start, end, file_size),
{
    let mut v: Vec<u8> = Vec::new();
    push_all(
        &mut v,
        "HTTP/1.1 206 Partial Content\r\nAccept-Ranges: bytes\r\nContent-Range: bytes ".as_bytes(),
    );
    let start_bytes = u64_to_dec(start);
    push_all(&mut v, start_bytes.as_slice());
    push_all(&mut v, "-".as_bytes());
    if let Some(e) = end {
        let end_bytes = u64_to_dec(e);
        push_all(&mut v, end_bytes.as_slice());
    }
    push_all(&mut v, "/".as_bytes());
    let total_bytes = u64_to_dec(file_size);
    push_all(&mut v, total_bytes.as_slice());
    push_all(&mut v, "\r\n\r\n".as_bytes());
    proof {
        assert(v@ =~= spec_head_206_stream(start, end, file_size));
    }
    v
}

/// How many bytes of a file of `file_size` bytes a streamed range response
/// must copy to the transport: exactly `end - start + 1` for a bounded
/// interval inside the file, and exactly `file_size - start` for an open
/// one, clipped to the bytes the file actually has.
pub fn stream_len(start: u64, end: Option<u64>, file_size: u64) -> (r: u64)
    requires
        end matches Some(e) ==> start <= e,
    ensures
        r == spec_stream_len(start, end, file_size),
        end is Some && end->0 < file_size ==> r == end->0 - start + 1,
        end is None && start <= file_size ==> r == file_size - start,
{
    if start >= file_size {
        0
    } else {
        match end {
            None => file_size - start,
            Some(e) => if e < file_size {
                e - start + 1
            } else {
                file_size - start
            },
        }
    }
}

} // verus!
