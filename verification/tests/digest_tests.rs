use http_share::digest::check_digest_response;
use http_share::{DigestError, DigestParams, HTTPRequest};

const REALM: &str = "testrealm@host.com";
const NONCE: &str = "dcd98b7102dd2f0e8b11d0f600bfb0c093";
const OPAQUE: &str = "5ccc069c403ebaf9f0171e9517f40e41";
const RESPONSE: &str = "6629fae49393a05397450978507c4ef1";

fn rfc2617_request(response: &str) -> HTTPRequest {
    let s = format!(
        "GET /dir/index.html HTTP/1.0\r\nHost: localhost\r\nAuthorization: Digest \
         username=\"Mufasa\", realm=\"{}\", nonce=\"{}\", uri=\"/dir/index.html\", \
         qop=auth, nc=00000001, cnonce=\"0a4f113b\", response=\"{}\", opaque=\"{}\"\r\n\r\n",
        REALM, NONCE, response, OPAQUE
    );
    HTTPRequest::new(s.into_bytes())
}

fn accept_all(_n: &Vec<u8>, _o: &Vec<u8>) -> bool {
    true
}

#[test]
fn rfc2617_worked_example_hashes() {
    let ha1 = format!("{:x}", md5::compute("Mufasa:testrealm@host.com:Circle Of Life"));
    assert_eq!(ha1, "939e7578ed9e3c518a452acee763bce9");
    let ha2 = format!("{:x}", md5::compute("GET:/dir/index.html"));
    assert_eq!(ha2, "39aff3a2bab6126f332b942af96d3366");
    let chain = format!("{}:{}:00000001:0a4f113b:auth:{}", ha1, NONCE, ha2);
    assert_eq!(format!("{:x}", md5::compute(chain)), RESPONSE);
}

#[test]
fn rfc2617_worked_example_is_accepted() {
    let r = rfc2617_request(RESPONSE);
    let got = r.verify_digest_authorization("Mufasa", "Circle Of Life", REALM, accept_all, None);
    assert_eq!(got, Ok(true));
}

#[test]
fn every_single_character_mutation_is_rejected() {
    for i in 0..RESPONSE.len() {
        let mut mutated: Vec<u8> = RESPONSE.as_bytes().to_vec();
        mutated[i] = if mutated[i] == b'0' { b'1' } else { b'0' };
        let mutated = String::from_utf8(mutated).unwrap();
        let r = rfc2617_request(&mutated);
        let got =
            r.verify_digest_authorization("Mufasa", "Circle Of Life", REALM, accept_all, None);
        assert_eq!(got, Ok(false), "mutation at position {} was not rejected", i);
    }
}

#[test]
fn wrong_password_is_rejected() {
    let r = rfc2617_request(RESPONSE);
    let got = r.verify_digest_authorization("Mufasa", "Hakuna Matata", REALM, accept_all, None);
    assert_eq!(got, Ok(false));
}

#[test]
fn missing_header_is_a_plain_reject() {
    let r = HTTPRequest::new(b"GET / HTTP/1.1\r\nHost: h\r\n\r\n".to_vec());
    let spy = |_n: &Vec<u8>, _o: &Vec<u8>| -> bool { panic!("nonce judge must not run") };
    let got = r.verify_digest_authorization("Mufasa", "Circle Of Life", REALM, spy, None);
    assert_eq!(got, Ok(false));
}

#[test]
fn wrong_username_rejected_before_the_nonce_judge_runs() {
    let r = rfc2617_request(RESPONSE);
    let spy = |_n: &Vec<u8>, _o: &Vec<u8>| -> bool { panic!("nonce judge must not run") };
    let got = r.verify_digest_authorization("Simba", "Circle Of Life", REALM, spy, None);
    assert_eq!(got, Ok(false));
}

#[test]
fn wrong_realm_rejected_before_the_nonce_judge_runs() {
    let r = rfc2617_request(RESPONSE);
    let spy = |_n: &Vec<u8>, _o: &Vec<u8>| -> bool { panic!("nonce judge must not run") };
    let got = r.verify_digest_authorization("Mufasa", "Circle Of Life", "other@realm", spy, None);
    assert_eq!(got, Ok(false));
}

#[test]
fn nonce_judge_sees_nonce_and_opaque_and_can_reject() {
    let r = rfc2617_request(RESPONSE);
    let judge = |n: &Vec<u8>, o: &Vec<u8>| -> bool {
        assert_eq!(n, &NONCE.as_bytes().to_vec());
        assert_eq!(o, &OPAQUE.as_bytes().to_vec());
        false
    };
    let got = r.verify_digest_authorization("Mufasa", "Circle Of Life", REALM, judge, None);
    assert_eq!(got, Ok(false));
}

#[test]
fn replay_with_equal_counter_is_rejected() {
    let r = rfc2617_request(RESPONSE);
    let got = r.verify_digest_authorization("Mufasa", "Circle Of Life", REALM, accept_all, Some(1));
    assert_eq!(got, Ok(false));
}

#[test]
fn replay_with_larger_counter_is_rejected() {
    let r = rfc2617_request(RESPONSE);
    let got =
        r.verify_digest_authorization("Mufasa", "Circle Of Life", REALM, accept_all, Some(7));
    assert_eq!(got, Ok(false));
}

#[test]
fn fresh_counter_with_correct_hash_is_accepted() {
    let r = rfc2617_request(RESPONSE);
    let got = r.verify_digest_authorization("Mufasa", "Circle Of Life", REALM, accept_all, Some(0));
    assert_eq!(got, Ok(true));
}

#[test]
fn legacy_scheme_without_optional_fields_is_accepted() {
    let ha1 = format!("{:x}", md5::compute("jane:realm9:sekret"));
    let ha2 = format!("{:x}", md5::compute("GET:/x.txt"));
    let response = format!("{:x}", md5::compute(format!("{}:{}:{}", ha1, "n1", ha2)));
    let s = format!(
        "GET /x.txt HTTP/1.1\r\nAuthorization: Digest username=\"jane\", realm=\"realm9\", \
         nonce=\"n1\", uri=\"/x.txt\", response=\"{}\", opaque=\"op\"\r\n\r\n",
        response
    );
    let r = HTTPRequest::new(s.into_bytes());
    let got = r.verify_digest_authorization("jane", "sekret", "realm9", accept_all, None);
    assert_eq!(got, Ok(true));
}

#[test]
fn legacy_scheme_cannot_pass_replay_checking() {
    let ha1 = format!("{:x}", md5::compute("jane:realm9:sekret"));
    let ha2 = format!("{:x}", md5::compute("GET:/x.txt"));
    let response = format!("{:x}", md5::compute(format!("{}:{}:{}", ha1, "n1", ha2)));
    let s = format!(
        "GET /x.txt HTTP/1.1\r\nAuthorization: Digest username=\"jane\", realm=\"realm9\", \
         nonce=\"n1\", uri=\"/x.txt\", response=\"{}\", opaque=\"op\"\r\n\r\n",
        response
    );
    let r = HTTPRequest::new(s.into_bytes());
    let got = r.verify_digest_authorization("jane", "sekret", "realm9", accept_all, Some(0));
    assert_eq!(got, Ok(false));
}

#[test]
fn mixed_scheme_fields_are_an_error() {
    let s = "GET /x HTTP/1.1\r\nAuthorization: Digest username=\"u\", realm=\"r\", \
             nonce=\"n\", uri=\"/x\", qop=auth, response=\"00\", opaque=\"o\"\r\n\r\n";
    let r = HTTPRequest::new(s.as_bytes().to_vec());
    let got = r.verify_digest_authorization("u", "p", "r", accept_all, None);
    assert_eq!(got, Err(DigestError::MixedSchemeFields));
}

#[test]
fn unparsable_counter_is_an_error() {
    let s = "GET /x HTTP/1.1\r\nAuthorization: Digest username=\"u\", realm=\"r\", \
             nonce=\"n\", uri=\"/x\", qop=auth, nc=zz, cnonce=\"c\", response=\"00\", \
             opaque=\"o\"\r\n\r\n";
    let r = HTTPRequest::new(s.as_bytes().to_vec());
    let got = r.verify_digest_authorization("u", "p", "r", accept_all, Some(0));
    assert_eq!(got, Err(DigestError::UnparsableCounter));
}

#[test]
fn uri_mismatch_is_rejected() {
    let s = format!(
        "GET /elsewhere HTTP/1.0\r\nAuthorization: Digest username=\"Mufasa\", realm=\"{}\", \
         nonce=\"{}\", uri=\"/dir/index.html\", qop=auth, nc=00000001, cnonce=\"0a4f113b\", \
         response=\"{}\", opaque=\"{}\"\r\n\r\n",
        REALM, NONCE, RESPONSE, OPAQUE
    );
    let r = HTTPRequest::new(s.into_bytes());
    let got = r.verify_digest_authorization("Mufasa", "Circle Of Life", REALM, accept_all, None);
    assert_eq!(got, Ok(false));
}

#[test]
fn each_missing_required_parameter_names_itself() {
    let full = "username=\"u\", realm=\"r\", nonce=\"n\", uri=\"/x\", response=\"00\", opaque=\"o\"";
    let cases = [
        ("username", DigestError::MissingUsername),
        ("realm", DigestError::MissingRealm),
        ("nonce", DigestError::MissingNonce),
        ("uri", DigestError::MissingUri),
        ("response", DigestError::MissingResponse),
        ("opaque", DigestError::MissingOpaque),
    ];
    for (dropped, expected) in cases {
        let kept: Vec<&str> = full
            .split(", ")
            .filter(|pair| !pair.starts_with(&format!("{}=", dropped)))
            .collect();
        let s = format!(
            "GET /x HTTP/1.1\r\nAuthorization: Digest {}\r\n\r\n",
            kept.join(", ")
        );
        let r = HTTPRequest::new(s.into_bytes());
        assert_eq!(r.parse_digest_params().err(), Some(expected));
        let got = r.verify_digest_authorization("u", "p", "r", accept_all, None);
        assert_eq!(got, Err(expected));
    }
}

#[test]
fn parsed_parameters_strip_quotes_and_keep_bare_values() {
    let s = "GET /x HTTP/1.1\r\nAuthorization: Digest username=\"u\", realm=r, nonce=\"n\", \
             uri=\"/x\", qop=auth, nc=00000002, cnonce=\"c\", response=\"00\", opaque=\"o\"\r\n\r\n";
    let r = HTTPRequest::new(s.as_bytes().to_vec());
    let p = r.parse_digest_params().unwrap();
    assert_eq!(p.username, b"u".to_vec());
    assert_eq!(p.realm, b"r".to_vec());
    assert_eq!(p.qop, Some(b"auth".to_vec()));
    assert_eq!(p.nc, Some(b"00000002".to_vec()));
    assert_eq!(p.cnonce, Some(b"c".to_vec()));
}

#[test]
fn check_digest_response_rejects_stale_counter_even_with_correct_hash() {
    let ha1 = format!("{:x}", md5::compute("u:r:p"));
    let ha2 = format!("{:x}", md5::compute("GET:/x"));
    let chain = format!("{}:n:0000000a:c:auth:{}", ha1, ha2);
    let response = format!("{:x}", md5::compute(chain));
    let p = DigestParams {
        username: b"u".to_vec(),
        realm: b"r".to_vec(),
        nonce: b"n".to_vec(),
        uri: b"/x".to_vec(),
        response: response.into_bytes(),
        opaque: b"o".to_vec(),
        qop: Some(b"auth".to_vec()),
        nc: Some(b"0000000a".to_vec()),
        cnonce: Some(b"c".to_vec()),
    };
    // nc is 0x0a = 10: still rejected against an equal last counter,
    assert_eq!(check_digest_response(&p, "u", "p", "r", b"/x", true, Some(10)), Ok(false));
    // and against a larger one,
    assert_eq!(check_digest_response(&p, "u", "p", "r", b"/x", true, Some(11)), Ok(false));
    // but accepted one past a smaller one.
    assert_eq!(check_digest_response(&p, "u", "p", "r", b"/x", true, Some(9)), Ok(true));
    // A rejecting nonce judge wins whatever the hash says.
    assert_eq!(check_digest_response(&p, "u", "p", "r", b"/x", false, Some(9)), Ok(false));
}
