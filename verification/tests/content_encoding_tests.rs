//! Tests of the content-encoding engine.

use std::io::Read;

use rouille::content_encoding::apply;
use rouille::{Connection, Request, Response};

fn request_with_accept_encoding(value: &str) -> Request {
    Request::new(
        "/".to_string(),
        vec![("Accept-Encoding".to_string(), value.to_string())],
        Vec::new(),
        Connection { id: 1 },
    )
}

fn request_without_accept_encoding() -> Request {
    Request::new("/".to_string(), Vec::new(), Vec::new(), Connection { id: 1 })
}

fn text_response(body: &[u8]) -> Response {
    Response::from_data(
        200,
        vec![("Content-Type".to_string(), "text/plain".to_string())],
        body.to_vec(),
    )
}

#[test]
fn unacceptable_tokens_leave_response_unchanged() {
    let request = request_with_accept_encoding("gzip;q=0, snappy, zstd;q=0.5");
    let body = b"hello world, hello world, hello world";
    let response = apply(&request, text_response(body));
    assert_eq!(response.data, body.to_vec());
    assert_eq!(response.headers.len(), 1);
    assert!(!response
        .headers
        .iter()
        .any(|(k, _)| k.eq_ignore_ascii_case("Content-Encoding")));
}

#[test]
fn already_encoded_response_passes_through() {
    let request = request_with_accept_encoding("br, gzip");
    let body = b"already compressed bytes";
    let response = Response::from_data(
        200,
        vec![
            ("Content-Type".to_string(), "text/plain".to_string()),
            ("Content-Encoding".to_string(), "gzip".to_string()),
        ],
        body.to_vec(),
    );
    let response = apply(&request, response);
    assert_eq!(response.data, body.to_vec());
    assert_eq!(response.headers.len(), 2);
}

#[test]
fn non_text_body_is_never_modified() {
    let request = request_with_accept_encoding("br, gzip");
    let body = b"\x89PNG fake image bytes";
    let response = Response::from_data(
        200,
        vec![("Content-Type".to_string(), "image/png".to_string())],
        body.to_vec(),
    );
    let response = apply(&request, response);
    assert_eq!(response.data, body.to_vec());
    assert_eq!(response.headers.len(), 1);
}

#[test]
fn missing_accept_encoding_header_applies_nothing() {
    let request = request_without_accept_encoding();
    let body = b"some text body";
    let response = apply(&request, text_response(body));
    assert_eq!(response.data, body.to_vec());
    assert_eq!(response.headers.len(), 1);
}

#[test]
fn empty_accept_encoding_header_applies_nothing() {
    let request = request_with_accept_encoding("");
    let body = b"some text body";
    let response = apply(&request, text_response(body));
    assert_eq!(response.data, body.to_vec());
    assert_eq!(response.headers.len(), 1);
}

#[test]
fn gzip_encoding_compresses_and_round_trips() {
    let request = request_with_accept_encoding("gzip");
    let body: Vec<u8> = b"compress me ".iter().cycle().take(600).cloned().collect();
    let response = apply(&request, text_response(&body));

    assert_eq!(
        response.headers.last().unwrap(),
        &("Content-Encoding".to_string(), "gzip".to_string())
    );
    // a gzip stream starts with the magic bytes 0x1f 0x8b
    assert!(response.data.len() >= 2);
    assert_eq!(&response.data[0..2], &[0x1f, 0x8b]);
    assert_ne!(response.data, body);

    let mut decoder = flate2::read::GzDecoder::new(&response.data[..]);
    let mut round_trip = Vec::new();
    decoder.read_to_end(&mut round_trip).unwrap();
    assert_eq!(round_trip, body);
}

#[test]
fn x_gzip_selects_the_gzip_encoder() {
    let request = request_with_accept_encoding("x-gzip");
    let body = b"text to pack, text to pack, text to pack";
    let response = apply(&request, text_response(body));
    assert_eq!(
        response.headers.last().unwrap(),
        &("Content-Encoding".to_string(), "gzip".to_string())
    );
    assert_eq!(&response.data[0..2], &[0x1f, 0x8b]);
}

#[test]
fn brotli_wins_and_round_trips() {
    let request = request_with_accept_encoding("gzip;q=0.5, br;q=0.8, identity;q=0.1");
    let body: Vec<u8> = b"brotli please ".iter().cycle().take(700).cloned().collect();
    let response = apply(&request, text_response(&body));

    assert_eq!(
        response.headers.last().unwrap(),
        &("Content-Encoding".to_string(), "br".to_string())
    );
    assert_ne!(response.data, body);

    let mut decoder = brotli2::read::BrotliDecoder::new(&response.data[..]);
    let mut round_trip = Vec::new();
    decoder.read_to_end(&mut round_trip).unwrap();
    assert_eq!(round_trip, body);
}

#[test]
fn server_preference_breaks_client_ties() {
    let request = request_with_accept_encoding("br, gzip");
    let body = b"tie breaking body, tie breaking body";
    let response = apply(&request, text_response(body));
    assert_eq!(
        response.headers.last().unwrap(),
        &("Content-Encoding".to_string(), "br".to_string())
    );
}

#[test]
fn identity_selection_leaves_response_unchanged() {
    let request = request_with_accept_encoding("identity");
    let body = b"leave me alone";
    let response = apply(&request, text_response(body));
    assert_eq!(response.data, body.to_vec());
    assert_eq!(response.headers.len(), 1);
}

#[test]
fn json_content_type_is_eligible() {
    let request = request_with_accept_encoding("gzip");
    let body = b"{\"key\": \"value value value value value\"}";
    let response = Response::from_data(
        200,
        vec![("Content-Type".to_string(), "application/json".to_string())],
        body.to_vec(),
    );
    let response = apply(&request, response);
    assert_eq!(
        response.headers.last().unwrap(),
        &("Content-Encoding".to_string(), "gzip".to_string())
    );
}

#[test]
fn accept_encoding_header_name_lookup_is_case_insensitive() {
    let request = Request::new(
        "/".to_string(),
        vec![("ACCEPT-ENCODING".to_string(), "gzip".to_string())],
        Vec::new(),
        Connection { id: 1 },
    );
    let body = b"case insensitive lookup";
    let response = apply(&request, text_response(body));
    assert_eq!(
        response.headers.last().unwrap(),
        &("Content-Encoding".to_string(), "gzip".to_string())
    );
}
