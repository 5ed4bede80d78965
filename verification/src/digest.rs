//! Digest authorization: parsing the comma-separated `key="value"` pairs a
//! client sends in its `Authorization: Digest ` header, and verifying the
//! claimed response hash against the server-held credentials, with replay
//! prevention through a strictly increasing request counter.

use vstd::prelude::*;
use crate::bytes_util::{
    contains_bytes, contains_seq, eq_bytes, find_byte, find_byte_from, find_header_value,
    header_value, lemma_find_byte_from_spec, parse_u128_hex, push_all, spec_parse_u128_hex,
};
use crate::request::{spec_get_path, HTTPRequest};
use vstd::slice::{slice_subrange, slice_to_vec};
use vstd::string::StringSliceAdditionalSpecFns;

verus! {

/// Splits `s` at every occurrence of the byte `b`: separators dropped,
/// empty pieces kept, always at least one piece.
pub open spec fn split_on_byte(s: Seq<u8>, b: u8) -> Seq<Seq<u8>>
    decreases s.len(),
    via split_on_byte_decreases
{
    match find_byte_from(s, b, 0) {
        None => seq![s],
        Some(i) => seq![s.subrange(0, i)] + split_on_byte(s.subrange(i + 1, s.len() as int), b),
    }
}

#[via_fn]
proof fn split_on_byte_decreases(s: Seq<u8>, b: u8) {
    lemma_find_byte_from_spec(s, b, 0);
}

/// Exec mirror of `split_on_byte`.
pub fn split_bytes(s: &[u8], b: u8) -> (r: Vec<Vec<u8>>)
    ensures
        seq_views(r@) == split_on_byte(s@, b),
    decreases s@.len(),
{
    proof {
        lemma_find_byte_from_spec(s@, b, 0);
    }
    let n = s.len();
    match find_byte(s, b, 0) {
        None => {
            let mut r: Vec<Vec<u8>> = Vec::new();
            r.push(slice_to_vec(s));
            proof {
                assert(seq_views(r@) =~= split_on_byte(s@, b));
            }
            r
        },
        Some(i) => {
            let first = slice_to_vec(slice_subrange(s, 0, i));
            let mut rest = split_bytes(slice_subrange(s, i + 1, n), b);
            let mut r: Vec<Vec<u8>> = Vec::new();
            r.push(first);
            r.append(&mut rest);
            proof {
                assert(seq_views(r@) =~= split_on_byte(s@, b));
            }
            r
        },
    }
}

/// The views of a vector of byte vectors.
pub open spec fn seq_views(s: Seq<Vec<u8>>) -> Seq<Seq<u8>> {
    s.map_values(|v: Vec<u8>| v@)
}

/// ASCII whitespace, as trimmed around each comma-separated pair.
pub open spec fn is_ws(b: u8) -> bool {
    b == ' ' as u8 || b == '\t' as u8 || b == '\n' as u8 || b == '\r' as u8
}

/// `s` without its leading whitespace.
pub open spec fn trim_start(s: Seq<u8>) -> Seq<u8>
    decreases s.len(),
{
    if s.len() > 0 && is_ws(s[0]) {
        trim_start(s.subrange(1, s.len() as int))
    } else {
        s
    }
}

/// `s` without its trailing whitespace.
pub open spec fn trim_end(s: Seq<u8>) -> Seq<u8>
    decreases s.len(),
{
    if s.len() > 0 && is_ws(s.last()) {
        trim_end(s.drop_last())
    } else {
        s
    }
}

/// `s` without leading and trailing whitespace.
pub open spec fn trim_ws(s: Seq<u8>) -> Seq<u8> {
    trim_end(trim_start(s))
}

/// Exec mirror of `trim_ws`.
pub fn trim_bytes(s: &[u8]) -> (r: Vec<u8>)
    ensures
        r@ == trim_ws(s@),
{
    let n = s.len();
    proof {
        assert(s@.subrange(0, n as int) =~= s@);
    }
    let mut lo: usize = 0;
    while lo < n && (s[lo] == ' ' as u8 || s[lo] == '\t' as u8 || s[lo] == '\n' as u8 || s[lo]
        == '\r' as u8)
        invariant
            0 <= lo <= n,
            n == s@.len(),
            trim_start(s@) == trim_start(s@.subrange(lo as int, n as int)),
        decreases n - lo,
    {
        proof {
            assert(s@.subrange(lo as int, n as int).subrange(1, n - lo) =~= s@.subrange(
                lo + 1,
                n as int,
            ));
        }
        lo = lo + 1;
    }
    proof {
        assert(trim_start(s@) == s@.subrange(lo as int, n as int));
    }
    let mut hi: usize = n;
    while hi > lo && (s[hi - 1] == ' ' as u8 || s[hi - 1] == '\t' as u8 || s[hi - 1] == '\n' as u8
        || s[hi - 1] == '\r' as u8)
        invariant
            lo <= hi <= n,
            n == s@.len(),
            trim_start(s@) == s@.subrange(lo as int, n as int),
            trim_end(s@.subrange(lo as int, n as int)) == trim_end(
                s@.subrange(lo as int, hi as int),
            ),
        decreases hi,
    {
        proof {
            assert(s@.subrange(lo as int, hi as int).drop_last() =~= s@.subrange(
                lo as int,
                hi - 1,
            ));
            assert(s@.subrange(lo as int, hi as int).last() == s@[hi - 1]);
        }
        hi = hi - 1;
    }
    proof {
        assert(trim_end(s@.subrange(lo as int, hi as int)) == s@.subrange(lo as int, hi as int));
    }
    slice_to_vec(slice_subrange(s, lo, hi))
}

/// The key of one `key=value` pair: the bytes before the first `=`, or the
/// whole pair when it has none.
pub open spec fn pair_key(p: Seq<u8>) -> Seq<u8> {
    match find_byte_from(p, '=' as u8, 0) {
        None => p,
        Some(i) => p.subrange(0, i),
    }
}

/// The raw value of one `key=value` pair: the bytes between the first and
/// the second `=` (or the end), empty when the pair has no `=` at all.
pub open spec fn pair_raw_value(p: Seq<u8>) -> Seq<u8> {
    match find_byte_from(p, '=' as u8, 0) {
        None => Seq::<u8>::empty(),
        Some(i) => match find_byte_from(p, '=' as u8, i + 1) {
            None => p.subrange(i + 1, p.len() as int),
            Some(j) => p.subrange(i + 1, j),
        },
    }
}

/// Strips one pair of surrounding double quotes, when both are present.
pub open spec fn unquote(v: Seq<u8>) -> Seq<u8> {
    if v.len() >= 2 && v[0] == '"' as u8 && v[v.len() - 1] == '"' as u8 {
        v.subrange(1, v.len() - 1)
    } else {
        v
    }
}

/// Exec mirror of `unquote`.
fn unquote_bytes(v: Vec<u8>) -> (r: Vec<u8>)
    ensures
        r@ == unquote(v@),
{
    let n = v.len();
    if n >= 2 && v[0] == '"' as u8 && v[n - 1] == '"' as u8 {
        slice_to_vec(slice_subrange(v.as_slice(), 1, n - 1))
    } else {
        v
    }
}

/// The value bound to `key` among the pairs, after trimming and unquoting;
/// when a key is given twice, the later occurrence wins.
pub open spec fn lookup_param_in(pieces: Seq<Seq<u8>>, key: Seq<u8>) -> Option<Seq<u8>>
    decreases pieces.len(),
{
    if pieces.len() == 0 {
        None
    } else {
        let p = trim_ws(pieces.last());
        if pair_key(p) == key {
            Some(unquote(pair_raw_value(p)))
        } else {
            lookup_param_in(pieces.drop_last(), key)
        }
    }
}

/// Exec mirror of `lookup_param_in` over the first `n` pieces.
fn lookup_param_upto(pieces: &Vec<Vec<u8>>, n: usize, key: &[u8]) -> (r: Option<Vec<u8>>)
    requires
        n <= pieces@.len(),
    ensures
        match r {
            Some(v) => lookup_param_in(seq_views(pieces@).take(n as int), key@) == Some(v@),
            None => lookup_param_in(seq_views(pieces@).take(n as int), key@) is None,
        },
    decreases n,
{
    if n == 0 {
        return None;
    }
    let p = trim_bytes(pieces[n - 1].as_slice());
    proof {
        assert(seq_views(pieces@).take(n as int).last() == pieces@[n - 1]@);
        assert(seq_views(pieces@).take(n as int).drop_last() =~= seq_views(pieces@).take(
            n - 1,
        ));
    }
    let pn = p.len();
    let key_end = match find_byte(p.as_slice(), '=' as u8, 0) {
        None => pn,
        Some(i) => i,
    };
    proof {
        lemma_find_byte_from_spec(p@, '=' as u8, 0);
        assert(p@.subrange(0, pn as int) =~= p@);
    }
    let pk = slice_subrange(p.as_slice(), 0, key_end);
    if eq_bytes(pk, key) {
        let raw: Vec<u8> = match find_byte(p.as_slice(), '=' as u8, 0) {
            None => Vec::new(),
            Some(i) => {
                proof {
                    lemma_find_byte_from_spec(p@, '=' as u8, i + 1);
                }
                let hi = match find_byte(p.as_slice(), '=' as u8, i + 1) {
                    None => pn,
                    Some(j) => j,
                };
                slice_to_vec(slice_subrange(p.as_slice(), i + 1, hi))
            },
        };
        proof {
            assert(Seq::<u8>::empty() =~= p@.subrange(0, 0).subrange(0, 0));
        }
        Some(unquote_bytes(raw))
    } else {
        lookup_param_upto(pieces, n - 1, key)
    }
}

/// The value bound to `key` among the pairs.
fn lookup_param(pieces: &Vec<Vec<u8>>, key: &[u8]) -> (r: Option<Vec<u8>>)
    ensures
        match r {
            Some(v) => lookup_param_in(seq_views(pieces@), key@) == Some(v@),
            None => lookup_param_in(seq_views(pieces@), key@) is None,
        },
{
    let n = pieces.len();
    proof {
        assert(seq_views(pieces@).take(n as int) =~= seq_views(pieces@));
    }
    lookup_param_upto(pieces, n, key)
}

/// Why a Digest authorization could not be checked: a syntactically broken
/// or incomplete header, as opposed to wrong credentials.
#[derive(Clone, Copy, Debug, PartialEq, Eq, Structural)]
pub enum DigestError {
    /// No `username` parameter in the header.
    MissingUsername,
    /// No `realm` parameter in the header.
    MissingRealm,
    /// No `nonce` parameter in the header.
    MissingNonce,
    /// No `uri` parameter in the header.
    MissingUri,
    /// No `response` parameter in the header.
    MissingResponse,
    /// No `opaque` parameter in the header.
    MissingOpaque,
    /// Replay checking was asked for, but the request counter is not a
    /// hexadecimal numeral.
    UnparsableCounter,
    /// `qop`, `nc` and `cnonce` are only partially present: an invalid mix
    /// of the legacy scheme and the newer one.
    MixedSchemeFields,
}

/// The parameters a client sent in its `Authorization: Digest ` header,
/// quotes stripped.  `qop`, `nc` and `cnonce` belong to the newer scheme
/// only and are therefore optional.
pub struct DigestParams {
    pub username: Vec<u8>,
    pub realm: Vec<u8>,
    pub nonce: Vec<u8>,
    pub uri: Vec<u8>,
    pub response: Vec<u8>,
    pub opaque: Vec<u8>,
    pub qop: Option<Vec<u8>>,
    pub nc: Option<Vec<u8>>,
    pub cnonce: Option<Vec<u8>>,
}

/// The mathematical view of `DigestParams`: each field as its byte sequence.
pub ghost struct DigestParamsView {
    pub username: Seq<u8>,
    pub realm: Seq<u8>,
    pub nonce: Seq<u8>,
    pub uri: Seq<u8>,
    pub response: Seq<u8>,
    pub opaque: Seq<u8>,
    pub qop: Option<Seq<u8>>,
    pub nc: Option<Seq<u8>>,
    pub cnonce: Option<Seq<u8>>,
}

impl View for DigestParams {
    type V = DigestParamsView;

    open spec fn view(&self) -> DigestParamsView {
        DigestParamsView {
            username: self.username@,
            realm: self.realm@,
            nonce: self.nonce@,
            uri: self.uri@,
            response: self.response@,
            opaque: self.opaque@,
            qop: match self.qop {
                Some(v) => Some(v@),
                None => None,
            },
            nc: match self.nc {
                Some(v) => Some(v@),
                None => None,
            },
            cnonce: match self.cnonce {
                Some(v) => Some(v@),
                None => None,
            },
        }
    }
}

/// The prefix that announces Digest credentials.
pub open spec fn spec_digest_prefix() -> Seq<u8> {
    "Authorization: Digest ".spec_bytes()
}

/// The value of the request's `Authorization: Digest ` line; empty when no
/// line carries the prefix.
pub open spec fn spec_digest_value(s: Seq<u8>) -> Seq<u8> {
    match header_value(s, spec_digest_prefix()) {
        None => Seq::<u8>::empty(),
        Some(v) => v,
    }
}

/// The parameter bound to `key` in the request's Digest header.
pub open spec fn spec_digest_param(s: Seq<u8>, key: Seq<u8>) -> Option<Seq<u8>> {
    lookup_param_in(split_on_byte(spec_digest_value(s), ',' as u8), key)
}

/// The parameters parsed off the request's Digest header, or the error
/// naming the first required parameter that is missing, in the order
/// username, realm, nonce, uri, response, opaque.
pub open spec fn spec_digest_params(s: Seq<u8>) -> Result<DigestParamsView, DigestError> {
    if spec_digest_param(s, "username".spec_bytes()) is None {
        Err(DigestError::MissingUsername)
    } else if spec_digest_param(s, "realm".spec_bytes()) is None {
        Err(DigestError::MissingRealm)
    } else if spec_digest_param(s, "nonce".spec_bytes()) is None {
        Err(DigestError::MissingNonce)
    } else if spec_digest_param(s, "uri".spec_bytes()) is None {
        Err(DigestError::MissingUri)
    } else if spec_digest_param(s, "response".spec_bytes()) is None {
        Err(DigestError::MissingResponse)
    } else if spec_digest_param(s, "opaque".spec_bytes()) is None {
        Err(DigestError::MissingOpaque)
    } else {
        Ok(
            DigestParamsView {
                username: spec_digest_param(s, "username".spec_bytes())->0,
                realm: spec_digest_param(s, "realm".spec_bytes())->0,
                nonce: spec_digest_param(s, "nonce".spec_bytes())->0,
                uri: spec_digest_param(s, "uri".spec_bytes())->0,
                response: spec_digest_param(s, "response".spec_bytes())->0,
                opaque: spec_digest_param(s, "opaque".spec_bytes())->0,
                qop: spec_digest_param(s, "qop".spec_bytes()),
                nc: spec_digest_param(s, "nc".spec_bytes()),
                cnonce: spec_digest_param(s, "cnonce".spec_bytes()),
            },
        )
    }
}

impl HTTPRequest {
    /// Parses the comma-separated `key="value"` pairs of this request's
    /// `Authorization: Digest ` header.  Each required parameter that is
    /// absent — also when the whole header is absent — yields the error
    /// naming the first missing one.
    pub fn parse_digest_params(&self) -> (r: Result<DigestParams, DigestError>)
        ensures
            match r {
                Ok(p) => spec_digest_params(self@) == Ok::<DigestParamsView, DigestError>(p@),
                Err(e) => spec_digest_params(self@) == Err::<DigestParamsView, DigestError>(e),
            },
    {
        let s = self.raw();
        let value: Vec<u8> = match find_header_value(s, "Authorization: Digest ".as_bytes()) {
            None => Vec::new(),
            Some(b) => slice_to_vec(slice_subrange(s, b.0, b.1)),
        };
        let pieces = split_bytes(value.as_slice(), ',' as u8);
        let username = match lookup_param(&pieces, "username".as_bytes()) {
            None => {
                return Err(DigestError::MissingUsername);
            },
            Some(v) => v,
        };
        let realm = match lookup_param(&pieces, "realm".as_bytes()) {
            None => {
                return Err(DigestError::MissingRealm);
            },
            Some(v) => v,
        };
        let nonce = match lookup_param(&pieces, "nonce".as_bytes()) {
            None => {
                return Err(DigestError::MissingNonce);
            },
            Some(v) => v,
        };
        let uri = match lookup_param(&pieces, "uri".as_bytes()) {
            None => {
                return Err(DigestError::MissingUri);
            },
            Some(v) => v,
        };
        let response = match lookup_param(&pieces, "response".as_bytes()) {
            None => {
                return Err(DigestError::MissingResponse);
            },
            Some(v) => v,
        };
        let opaque = match lookup_param(&pieces, "opaque".as_bytes()) {
            None => {
                return Err(DigestError::MissingOpaque);
            },
            Some(v) => v,
        };
        let qop = lookup_param(&pieces, "qop".as_bytes());
        let nc = lookup_param(&pieces, "nc".as_bytes());
        let cnonce = lookup_param(&pieces, "cnonce".as_bytes());
        Ok(
            DigestParams {
                username,
                realm,
                nonce,
                uri,
                response,
                opaque,
                qop,
                nc,
                cnonce,
            },
        )
    }
}

/// What the digest scheme's hash step writes for the given input: the 32
/// lowercase hexadecimal digits of its MD5 digest, a function of the input
/// bytes alone.
pub uninterp spec fn md5_hex_of(data: Seq<u8>) -> Seq<u8>;

/// Relies on `md5::compute` and the digest's lowercase-hex rendering (two
/// digits per digest byte): a deterministic function of the input bytes.
#[verifier::external_body]
fn md5_hex(data: &[u8]) -> (r: Vec<u8>)
    ensures
        r@ == md5_hex_of(data@),
{
    format!("{:x}", md5::compute(data)).into_bytes()
}

/// The first hash of the chain: `username:realm:password`.
pub open spec fn spec_ha1(username: Seq<u8>, realm: Seq<u8>, password: Seq<u8>) -> Seq<u8> {
    md5_hex_of(username + ":".spec_bytes() + realm + ":".spec_bytes() + password)
}

/// The second hash of the chain: `GET:` followed by the request path (the
/// method is always taken as GET).
pub open spec fn spec_ha2(path: Seq<u8>) -> Seq<u8> {
    md5_hex_of("GET:".spec_bytes() + path)
}

/// The response hash of the newer scheme:
/// `HA1:nonce:nc:cnonce:qop:HA2`, every part hex where it is a hash.
pub open spec fn spec_expected_response_2617(
    username: Seq<u8>,
    realm: Seq<u8>,
    password: Seq<u8>,
    path: Seq<u8>,
    nonce: Seq<u8>,
    nc: Seq<u8>,
    cnonce: Seq<u8>,
    qop: Seq<u8>,
) -> Seq<u8> {
    md5_hex_of(
        spec_ha1(username, realm, password) + ":".spec_bytes() + nonce + ":".spec_bytes() + nc
            + ":".spec_bytes() + cnonce + ":".spec_bytes() + qop + ":".spec_bytes() + spec_ha2(
            path,
        ),
    )
}

/// The response hash of the legacy scheme: `HA1:nonce:HA2`.
pub open spec fn spec_expected_response_2069(
    username: Seq<u8>,
    realm: Seq<u8>,
    password: Seq<u8>,
    path: Seq<u8>,
    nonce: Seq<u8>,
) -> Seq<u8> {
    md5_hex_of(
        spec_ha1(username, realm, password) + ":".spec_bytes() + nonce + ":".spec_bytes()
            + spec_ha2(path),
    )
}

/// Exec mirror of `spec_ha1`.
fn ha1(username: &str, realm: &str, password: &str) -> (r: Vec<u8>)
    ensures
        r@ == spec_ha1(username.spec_bytes(), realm.spec_bytes(), password.spec_bytes()),
{
    let mut buf: Vec<u8> = Vec::new();
    push_all(&mut buf, username.as_bytes());
    push_all(&mut buf, ":".as_bytes());
    push_all(&mut buf, realm.as_bytes());
    push_all(&mut buf, ":".as_bytes());
    push_all(&mut buf, password.as_bytes());
    proof {
        assert(buf@ =~= username.spec_bytes() + ":".spec_bytes() + realm.spec_bytes()
            + ":".spec_bytes() + password.spec_bytes());
    }
    md5_hex(buf.as_slice())
}

/// Exec mirror of `spec_ha2`.
fn ha2(path: &[u8]) -> (r: Vec<u8>)
    ensures
        r@ == spec_ha2(path@),
{
    let mut buf: Vec<u8> = Vec::new();
    push_all(&mut buf, "GET:".as_bytes());
    push_all(&mut buf, path);
    proof {
        assert(buf@ =~= "GET:".spec_bytes() + path@);
    }
    md5_hex(buf.as_slice())
}

/// Exec mirror of `spec_expected_response_2617`.
fn expected_response_2617(
    username: &str,
    realm: &str,
    password: &str,
    path: &[u8],
    nonce: &[u8],
    nc: &[u8],
    cnonce: &[u8],
    qop: &[u8],
) -> (r: Vec<u8>)
    ensures
        r@ == spec_expected_response_2617(
            username.spec_bytes(),
            realm.spec_bytes(),
            password.spec_bytes(),
            path@,
            nonce@,
            nc@,
            cnonce@,
            qop@,
        ),
{
    let h1 = ha1(username, realm, password);
    let h2 = ha2(path);
    let mut buf: Vec<u8> = Vec::new();
    push_all(&mut buf, h1.as_slice());
    push_all(&mut buf, ":".as_bytes());
    push_all(&mut buf, nonce);
    push_all(&mut buf, ":".as_bytes());
    push_all(&mut buf, nc);
    push_all(&mut buf, ":".as_bytes());
    push_all(&mut buf, cnonce);
    push_all(&mut buf, ":".as_bytes());
    push_all(&mut buf, qop);
    push_all(&mut buf, ":".as_bytes());
    push_all(&mut buf, h2.as_slice());
    proof {
        assert(buf@ =~= spec_ha1(
            username.spec_bytes(),
            realm.spec_bytes(),
            password.spec_bytes(),
        ) + ":".spec_bytes() + nonce@ + ":".spec_bytes() + nc@ + ":".spec_bytes() + cnonce@
            + ":".spec_bytes() + qop@ + ":".spec_bytes() + spec_ha2(path@));
    }
    md5_hex(buf.as_slice())
}

/// Exec mirror of `spec_expected_response_2069`.
fn expected_response_2069(
    username: &str,
    realm: &str,
    password: &str,
    path: &[u8],
    nonce: &[u8],
) -> (r: Vec<u8>)
    ensures
        r@ == spec_expected_response_2069(
            username.spec_bytes(),
            realm.spec_bytes(),
            password.spec_bytes(),
            path@,
            nonce@,
        ),
{
    let h1 = ha1(username, realm, password);
    let h2 = ha2(path);
    let mut buf: Vec<u8> = Vec::new();
    push_all(&mut buf, h1.as_slice());
    push_all(&mut buf, ":".as_bytes());
    push_all(&mut buf, nonce);
    push_all(&mut buf, ":".as_bytes());
    push_all(&mut buf, h2.as_slice());
    proof {
        assert(buf@ =~= spec_ha1(
            username.spec_bytes(),
            realm.spec_bytes(),
            password.spec_bytes(),
        ) + ":".spec_bytes() + nonce@ + ":".spec_bytes() + spec_ha2(path@));
    }
    md5_hex(buf.as_slice())
}

/// The complete decision on one Digest authorization, once the freshness of
/// the nonce has been judged (`nonce_ok`).  In order: identity, nonce, uri,
/// replay counter, then the response hash under whichever scheme the
/// optional fields select; an inconsistent mix of the schemes' fields is an
/// error.
pub open spec fn spec_digest_verdict(
    p: DigestParamsView,
    username: Seq<u8>,
    password: Seq<u8>,
    realm: Seq<u8>,
    path: Seq<u8>,
    nonce_ok: bool,
    last_counter: Option<u128>,
) -> Result<bool, DigestError> {
    if p.username != username || p.realm != realm {
        Ok(false)
    } else if !nonce_ok {
        Ok(false)
    } else if p.uri != path {
        Ok(false)
    } else if last_counter is Some && p.nc is None {
        Ok(false)
    } else if last_counter is Some && spec_parse_u128_hex(p.nc->0) is None {
        Err(DigestError::UnparsableCounter)
    } else if last_counter is Some && spec_parse_u128_hex(p.nc->0)->0 <= last_counter->0 {
        Ok(false)
    } else if p.qop is Some && p.nc is Some && p.cnonce is Some {
        Ok(
            p.response == spec_expected_response_2617(
                username,
                realm,
                password,
                path,
                p.nonce,
                p.nc->0,
                p.cnonce->0,
                p.qop->0,
            ),
        )
    } else if p.qop is None && p.nc is None && p.cnonce is None {
        Ok(p.response == spec_expected_response_2069(username, realm, password, path, p.nonce))
    } else {
        Err(DigestError::MixedSchemeFields)
    }
}

/// Checks one parsed Digest authorization against the expected identity and
/// credentials, with the nonce verdict supplied by the caller and an
/// optional last-accepted counter for replay prevention.
pub fn check_digest_response(
    p: &DigestParams,
    username: &str,
    password: &str,
    realm: &str,
    path: &[u8],
    nonce_ok: bool,
    last_counter: Option<u128>,
) -> (r: Result<bool, DigestError>)
    ensures
        r == spec_digest_verdict(
            p@,
            username.spec_bytes(),
            password.spec_bytes(),
            realm.spec_bytes(),
            path@,
            nonce_ok,
            last_counter,
        ),
{
    if !eq_bytes(p.username.as_slice(), username.as_bytes()) || !eq_bytes(
        p.realm.as_slice(),
        realm.as_bytes(),
    ) {
        return Ok(false);
    }
    if !nonce_ok {
        return Ok(false);
    }
    if !eq_bytes(p.uri.as_slice(), path) {
        return Ok(false);
    }
    if let Some(last) = last_counter {
        match &p.nc {
            None => {
                return Ok(false);
            },
            Some(nc) => {
                match parse_u128_hex(nc.as_slice()) {
                    None => {
                        return Err(DigestError::UnparsableCounter);
                    },
                    Some(v) => {
                        if v <= last {
                            return Ok(false);
                        }
                    },
                }
            },
        }
    }
    match (&p.qop, &p.nc, &p.cnonce) {
        (Some(qop), Some(nc), Some(cnonce)) => {
            let expected = expected_response_2617(
                username,
                realm,
                password,
                path,
                p.nonce.as_slice(),
                nc.as_slice(),
                cnonce.as_slice(),
                qop.as_slice(),
            );
            Ok(eq_bytes(p.response.as_slice(), expected.as_slice()))
        },
        (None, None, None) => {
            let expected = expected_response_2069(
                username,
                realm,
                password,
                path,
                p.nonce.as_slice(),
            );
            Ok(eq_bytes(p.response.as_slice(), expected.as_slice()))
        },
        _ => Err(DigestError::MixedSchemeFields),
    }
}

/// The caller-supplied nonce judge could return `b` for this nonce and
/// opaque pair.
pub open spec fn verifier_accepts<F: Fn(&Vec<u8>, &Vec<u8>) -> bool>(
    f: F,
    nonce: Seq<u8>,
    opaque: Seq<u8>,
    b: bool,
) -> bool {
    exists|n: &Vec<u8>, o: &Vec<u8>|
        n@ == nonce && o@ == opaque && #[trigger] call_ensures(f, (n, o), b)
}

impl HTTPRequest {
    /// Verify the Digest authorization the client provided.  `Ok(true)`
    /// means the client authenticated itself; `Ok(false)` that it provided
    /// no Digest header, a wrong identity, a stale nonce or counter, a
    /// mismatched uri, or a wrong response hash; `Err` that the header was
    /// incomplete or inconsistently formed.
    ///
    /// The `nonce_opaque_verifier` receives the nonce and the opaque as the
    /// client returned them, and is the sole authority on whether the nonce
    /// came from this server and is still fresh; a common choice derives the
    /// opaque as a keyed hash of the nonce.  It is consulted only after the
    /// claimed username and realm have matched.
    ///
    /// With `last_counter` set, the request counter `nc` must parse as a
    /// hexadecimal numeral strictly greater than it, which forbids replayed
    /// requests and ties the check to the newer scheme.
    pub fn verify_digest_authorization<F: Fn(&Vec<u8>, &Vec<u8>) -> bool>(
        &self,
        username: &str,
        password: &str,
        realm: &str,
        nonce_opaque_verifier: F,
        last_counter: Option<u128>,
    ) -> (r: Result<bool, DigestError>)
        requires
            forall|n: &Vec<u8>, o: &Vec<u8>| #[trigger] call_requires(
                nonce_opaque_verifier,
                (n, o),
            ),
        ensures
            !contains_seq(self@, spec_digest_prefix()) ==> r == Ok::<bool, DigestError>(false),
            contains_seq(self@, spec_digest_prefix()) ==> match spec_digest_params(self@) {
                Err(e) => r == Err::<bool, DigestError>(e),
                Ok(p) => {
                    if p.username != username.spec_bytes() || p.realm != realm.spec_bytes() {
                        r == Ok::<bool, DigestError>(false)
                    } else {
                        exists|b: bool|
                            #[trigger] verifier_accepts(nonce_opaque_verifier, p.nonce, p.opaque, b)
                                && r == spec_digest_verdict(
                                p,
                                username.spec_bytes(),
                                password.spec_bytes(),
                                realm.spec_bytes(),
                                spec_get_path(self@),
                                b,
                                last_counter,
                            )
                    }
                },
            },
    {
        if !contains_bytes(self.raw(), "Authorization: Digest ".as_bytes()) {
            return Ok(false);
        }
        let p = match self.parse_digest_params() {
            Err(e) => {
                return Err(e);
            },
            Ok(p) => p,
        };
        if !eq_bytes(p.username.as_slice(), username.as_bytes()) || !eq_bytes(
            p.realm.as_slice(),
            realm.as_bytes(),
        ) {
            return Ok(false);
        }
        let nonce_ok = nonce_opaque_verifier(&p.nonce, &p.opaque);
        let path = self.get_get_path();
        let r = check_digest_response(
            &p,
            username,
            password,
            realm,
            path.as_slice(),
            nonce_ok,
            last_counter,
        );
        proof {
            assert(verifier_accepts(nonce_opaque_verifier, p@.nonce, p@.opaque, nonce_ok));
        }
        r
    }
}

/// Replay prevention, rejecting side: with a last-accepted counter present,
/// a request whose own counter is absent or no greater than it is rejected,
/// whatever its response hash says.
pub proof fn lemma_replay_counter_rejected(
    p: DigestParamsView,
    username: Seq<u8>,
    password: Seq<u8>,
    realm: Seq<u8>,
    path: Seq<u8>,
    nonce_ok: bool,
    last: u128,
)
    requires
        p.nc is None || (spec_parse_u128_hex(p.nc->0) matches Some(v) && v <= last),
    ensures
        spec_digest_verdict(p, username, password, realm, path, nonce_ok, Some(last)) == Ok::<
            bool,
            DigestError,
        >(false),
{
}

/// Replay prevention, accepting side: a counter strictly past the last
/// accepted one, together with matching identity, fresh nonce, matching uri
/// and the correct response hash of the newer scheme, is accepted.
pub proof fn lemma_fresh_counter_accepted(
    p: DigestParamsView,
    username: Seq<u8>,
    password: Seq<u8>,
    realm: Seq<u8>,
    path: Seq<u8>,
    last: u128,
)
    requires
        p.username == username,
        p.realm == realm,
        p.uri == path,
        p.qop is Some,
        p.cnonce is Some,
        p.nc is Some,
        spec_parse_u128_hex(p.nc->0) matches Some(v) && v > last,
        p.response == spec_expected_response_2617(
            username,
            realm,
            password,
            path,
            p.nonce,
            p.nc->0,
            p.cnonce->0,
            p.qop->0,
        ),
    ensures
        spec_digest_verdict(p, username, password, realm, path, true, Some(last)) == Ok::<
            bool,
            DigestError,
        >(true),
{
}

/// An inconsistent mix of the two schemes' optional fields is an error,
/// never a silent accept or reject, once the checks before it pass.
pub proof fn lemma_mixed_fields_error(
    p: DigestParamsView,
    username: Seq<u8>,
    password: Seq<u8>,
    realm: Seq<u8>,
    path: Seq<u8>,
    last_counter: Option<u128>,
)
    requires
        p.username == username,
        p.realm == realm,
        p.uri == path,
        !(p.qop is Some && p.nc is Some && p.cnonce is Some),
        !(p.qop is None && p.nc is None && p.cnonce is None),
        last_counter is Some ==> p.nc is Some && spec_parse_u128_hex(p.nc->0) is Some
            && spec_parse_u128_hex(p.nc->0)->0 > last_counter->0,
    ensures
        spec_digest_verdict(p, username, password, realm, path, true, last_counter) == Err::<
            bool,
            DigestError,
        >(DigestError::MixedSchemeFields),
{
}

/// Identity gate: a claimed username or realm other than the expected one
/// is rejected before the nonce judge, the counter or any hash can matter.
pub proof fn lemma_identity_mismatch_rejected(
    p: DigestParamsView,
    username: Seq<u8>,
    password: Seq<u8>,
    realm: Seq<u8>,
    path: Seq<u8>,
    nonce_ok: bool,
    last_counter: Option<u128>,
)
    requires
        p.username != username || p.realm != realm,
    ensures
        spec_digest_verdict(p, username, password, realm, path, nonce_ok, last_counter) == Ok::<
            bool,
            DigestError,
        >(false),
{
}

} // verus!
