//! Tests of the request/response envelope and the dispatch lifecycle.

use rouille::dispatch::{advance, DispatchEvent, DispatchState};
use rouille::{Connection, Request, Response, RouteError};

fn sample_request() -> Request {
    Request::new(
        "/hello%20world?x=1".to_string(),
        vec![
            ("Host".to_string(), "example.test".to_string()),
            ("Accept-Encoding".to_string(), "gzip".to_string()),
            ("host".to_string(), "shadowed.test".to_string()),
        ],
        b"request body bytes".to_vec(),
        Connection { id: 42 },
    )
}

#[test]
fn url_is_returned_raw() {
    let request = sample_request();
    assert_eq!(request.url(), "/hello%20world?x=1");
}

#[test]
fn header_lookup_is_case_insensitive_and_takes_the_first() {
    let request = sample_request();
    assert_eq!(request.header("HOST"), Some("example.test".to_string()));
    assert_eq!(request.header("accept-encoding"), Some("gzip".to_string()));
    assert_eq!(request.header("Content-Length"), None);
}

#[test]
fn data_is_idempotent_and_cached() {
    let mut request = sample_request();
    let first = request.data();
    let second = request.data();
    assert_eq!(first, b"request body bytes".to_vec());
    assert_eq!(first, second);
}

#[test]
fn connection_handle_is_surrendered_exactly_once() {
    let mut request = sample_request();
    let first = request.take_connection();
    assert_eq!(first.map(|c| c.id), Some(42));
    let second = request.take_connection();
    assert!(second.is_none());
    let third = request.take_connection();
    assert!(third.is_none());
}

#[test]
fn route_errors_map_to_default_statuses() {
    let not_found = Response::from_error(&RouteError::NoRouteFound);
    assert_eq!(not_found.status, 404);
    assert!(not_found.headers.is_empty());
    assert!(not_found.data.is_empty());

    let bad_input = Response::from_error(&RouteError::WrongInput);
    assert_eq!(bad_input.status, 400);
    assert!(bad_input.headers.is_empty());
    assert!(bad_input.data.is_empty());
}

#[test]
fn redirect_carries_the_target_location() {
    let response = Response::redirect("/other");
    assert_eq!(response.status, 303);
    assert_eq!(
        response.headers,
        vec![("Location".to_string(), "/other".to_string())]
    );
    assert!(response.data.is_empty());
}

#[test]
fn html_sets_the_content_type() {
    let response = Response::html(b"<p>hi</p>");
    assert_eq!(response.status, 200);
    assert_eq!(
        response.headers,
        vec![(
            "Content-Type".to_string(),
            "text/html; charset=utf8".to_string()
        )]
    );
    assert_eq!(response.data, b"<p>hi</p>".to_vec());
}

#[test]
fn json_carries_the_serialized_text() {
    let response = Response::json("{\"a\":1}");
    assert_eq!(response.status, 200);
    assert_eq!(
        response.headers,
        vec![(
            "Content-Type".to_string(),
            "application/json".to_string()
        )]
    );
    assert_eq!(response.data, b"{\"a\":1}".to_vec());
}

#[test]
fn response_accessors_report_the_parts() {
    let response = Response::from_data(
        201,
        vec![("X-Extra".to_string(), "yes".to_string())],
        b"abc".to_vec(),
    );
    assert_eq!(response.status_code(), 201);
    assert_eq!(response.headers().len(), 1);
    assert_eq!(response.body(), &b"abc".to_vec());
}

#[test]
fn dispatch_lifecycle_runs_forward() {
    let s = DispatchState::Accepted;
    let s = advance(s, DispatchEvent::Submitted).unwrap();
    assert_eq!(s, DispatchState::Dispatched);
    let s = advance(s, DispatchEvent::HandlerStarted).unwrap();
    assert_eq!(s, DispatchState::HandlerRunning);
    let s = advance(s, DispatchEvent::HandlerReturned).unwrap();
    assert_eq!(s, DispatchState::Responding);
    let s = advance(s, DispatchEvent::ResponseSent).unwrap();
    assert_eq!(s, DispatchState::Done);
}

#[test]
fn out_of_order_events_are_rejected() {
    assert!(advance(DispatchState::Accepted, DispatchEvent::ResponseSent).is_none());
    assert!(advance(DispatchState::Dispatched, DispatchEvent::Submitted).is_none());
    assert!(advance(DispatchState::Done, DispatchEvent::Submitted).is_none());
    assert!(advance(DispatchState::Done, DispatchEvent::ResponseSent).is_none());
}
