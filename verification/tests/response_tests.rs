use http_share::response::{head_200_for_length, head_206_for_range, stream_len};
use http_share::HTTPResponse;

#[test]
fn response_200_frames_body_with_its_length() {
    let mut content = b"hello".to_vec();
    let r = HTTPResponse::new_200_ok(&mut content);
    assert_eq!(
        r.bytes().as_slice(),
        b"HTTP/1.1 200 OK\r\nContent-Length: 5\r\n\r\nhello" as &[u8]
    );
    assert!(content.is_empty());
}

#[test]
fn response_200_with_empty_body() {
    let mut content = Vec::new();
    let r = HTTPResponse::new_200_ok(&mut content);
    assert_eq!(
        r.bytes().as_slice(),
        b"HTTP/1.1 200 OK\r\nContent-Length: 0\r\n\r\n" as &[u8]
    );
}

#[test]
fn response_206_serves_exactly_the_inclusive_window() {
    let content: Vec<u8> = (0u8..10).collect();
    let r = HTTPResponse::new_206_partial_content(&content, 2, 5);
    let expected_head =
        b"HTTP/1.1 206 Partial Content\r\nAccept-Ranges: bytes\r\nContent-Range: bytes 2-5/10\r\n\r\n";
    let mut expected = expected_head.to_vec();
    expected.extend_from_slice(&[2, 3, 4, 5]);
    assert_eq!(r.bytes().as_slice(), expected.as_slice());
    // The body holds end - start + 1 bytes and equals the file's bytes there.
    assert_eq!(r.bytes().len() - expected_head.len(), 5 - 2 + 1);
}

#[test]
fn response_400_frames_body_with_its_length() {
    let mut content = b"bad".to_vec();
    let r = HTTPResponse::new_400_bad_request(&mut content);
    assert_eq!(
        r.bytes().as_slice(),
        b"HTTP/1.1 400 Bad Request\r\nContent-Length: 3\r\n\r\nbad" as &[u8]
    );
}

#[test]
fn response_401_basic_challenge() {
    let r = HTTPResponse::new_401_unauthorized("myrealm");
    assert_eq!(
        r.bytes().as_slice(),
        b"HTTP/1.1 401 Unauthorized\r\nWWW-Authenticate: Basic realm=\"myrealm\"\r\n\r\n" as &[u8]
    );
}

#[test]
fn response_401_digest_challenge_legacy_mode_omits_qop() {
    let r = HTTPResponse::new_401_unauthorized_digest("rlm", "n0nce", "opq", false, false);
    let expected = "HTTP/1.1 401 Unauthorized\r\nWWW-Authenticate: Digest realm=\"rlm\",\r\n\
                    nonce=\"n0nce\",\r\nopaque=\"opq\"\r\n\r\n";
    assert_eq!(r.bytes().as_slice(), expected.as_bytes());
}

#[test]
fn response_401_digest_challenge_qop_variants() {
    let auth = HTTPResponse::new_401_unauthorized_digest("r", "n", "o", true, false);
    let expected_auth = "HTTP/1.1 401 Unauthorized\r\nWWW-Authenticate: Digest realm=\"r\",\r\n\
                         qop=\"auth\",\r\nnonce=\"n\",\r\nopaque=\"o\"\r\n\r\n";
    assert_eq!(auth.bytes().as_slice(), expected_auth.as_bytes());

    let auth_int = HTTPResponse::new_401_unauthorized_digest("r", "n", "o", false, true);
    let expected_int = "HTTP/1.1 401 Unauthorized\r\nWWW-Authenticate: Digest realm=\"r\",\r\n\
                        qop=\"auth-int\",\r\nnonce=\"n\",\r\nopaque=\"o\"\r\n\r\n";
    assert_eq!(auth_int.bytes().as_slice(), expected_int.as_bytes());

    let both = HTTPResponse::new_401_unauthorized_digest("r", "n", "o", true, true);
    let expected_both = "HTTP/1.1 401 Unauthorized\r\nWWW-Authenticate: Digest realm=\"r\",\r\n\
                         qop=\"auth,auth-int\",\r\nnonce=\"n\",\r\nopaque=\"o\"\r\n\r\n";
    assert_eq!(both.bytes().as_slice(), expected_both.as_bytes());
}

#[test]
fn response_403_frames_body_with_its_length() {
    let mut content = b"forbidden".to_vec();
    let r = HTTPResponse::new_403_forbidden(&mut content);
    assert_eq!(
        r.bytes().as_slice(),
        b"HTTP/1.1 403 Forbidden\r\nContent-Length: 9\r\n\r\nforbidden" as &[u8]
    );
}

#[test]
fn response_404_names_only_the_given_resource() {
    let r = HTTPResponse::new_404_not_found("movies/missing.mp4");
    let body = "Error: Could not find file movies/missing.mp4";
    let expected = format!(
        "HTTP/1.1 404 Not Found\r\nContent-Length: {}\r\n\r\n{}",
        body.len(),
        body
    );
    assert_eq!(r.bytes().as_slice(), expected.as_bytes());
    // The body carries the request-relative name only, never a server path.
    let text = String::from_utf8(r.bytes().clone()).unwrap();
    assert!(!text.contains("/home/"));
    assert!(!text.contains("/srv/"));
}

#[test]
fn response_500_carries_the_error_detail() {
    let r = HTTPResponse::new_500_server_error("disk on fire");
    let body = "Internal Server Error occurred: disk on fire";
    let expected = format!(
        "HTTP/1.1 500 Internal Server Error\r\nContent-Length: {}\r\n\r\n{}",
        body.len(),
        body
    );
    assert_eq!(r.bytes().as_slice(), expected.as_bytes());
}

#[test]
fn streaming_head_200_uses_the_file_size() {
    let h = head_200_for_length(123456);
    assert_eq!(
        h.as_slice(),
        b"HTTP/1.1 200 OK\r\nContent-Length: 123456\r\n\r\n" as &[u8]
    );
}

#[test]
fn streaming_head_206_with_both_bounds() {
    let h = head_206_for_range(0, Some(99), 1000);
    assert_eq!(
        h.as_slice(),
        b"HTTP/1.1 206 Partial Content\r\nAccept-Ranges: bytes\r\nContent-Range: bytes 0-99/1000\r\n\r\n"
            as &[u8]
    );
}

#[test]
fn streaming_head_206_with_open_end_leaves_it_blank() {
    let h = head_206_for_range(5, None, 10);
    assert_eq!(
        h.as_slice(),
        b"HTTP/1.1 206 Partial Content\r\nAccept-Ranges: bytes\r\nContent-Range: bytes 5-/10\r\n\r\n"
            as &[u8]
    );
}

#[test]
fn stream_len_of_bounded_window_inside_the_file() {
    // A window a..=b with b < file size must deliver b - a + 1 bytes.
    assert_eq!(stream_len(2, Some(5), 10), 4);
    assert_eq!(stream_len(0, Some(0), 1), 1);
    assert_eq!(stream_len(0, Some(999), 1000), 1000);
}

#[test]
fn stream_len_of_open_window() {
    // An open window a.. must deliver fileSize - a bytes.
    assert_eq!(stream_len(3, None, 10), 7);
    assert_eq!(stream_len(0, None, 10), 10);
    assert_eq!(stream_len(10, None, 10), 0);
}

#[test]
fn stream_len_clips_to_the_file() {
    assert_eq!(stream_len(5, Some(20), 10), 5);
    assert_eq!(stream_len(15, Some(20), 10), 0);
    assert_eq!(stream_len(15, None, 10), 0);
}
