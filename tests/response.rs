use visit::record::RequestRecord;
use visit::response::{body_size_of, body_start, find_bytes, parse_status, ResponseError};

#[test]
fn ok_status_line_succeeds() {
    assert_eq!(parse_status(b"HTTP/1.1 200 OK\r\n\r\n"), Ok((true, 200)));
    assert_eq!(parse_status(b"HTTP/1.1 200 OK\r\nServer: x\r\n\r\nbody"), Ok((true, 200)));
}

#[test]
fn other_code_fails_with_that_code() {
    assert_eq!(parse_status(b"HTTP/1.1 404 Not Found\r\n\r\n"), Ok((false, 404)));
    assert_eq!(parse_status(b"HTTP/1.1 301 Moved Permanently\r\n"), Ok((false, 301)));
    assert_eq!(parse_status(b"HTTP/1.0 500 Internal Server Error\r\n\r\n"), Ok((false, 500)));
    assert_eq!(parse_status(b"HTTP/1.1 +201 Created\r\n"), Ok((false, 201)));
    assert_eq!(parse_status(b"HTTP/1.1 0200 OK\r\n"), Ok((true, 200)));
}

#[test]
fn non_numeric_code_fails_without_code() {
    assert_eq!(parse_status(b"HTTP/1.1 abc OK\r\n"), Ok((false, 0)));
    assert_eq!(parse_status(b"HTTP/1.1 70000 Big\r\n"), Ok((false, 0)));
    assert_eq!(parse_status(b"HTTP/1.1 + Plus\r\n"), Ok((false, 0)));
}

#[test]
fn largest_code_is_read() {
    assert_eq!(parse_status(b"HTTP/1.1 65535 X\r\n"), Ok((false, 65535)));
}

#[test]
fn malformed_status_lines_are_errors() {
    assert_eq!(parse_status(b"HTTP/1.1 200\r\n\r\n"), Err(ResponseError::MalformedStatusLine));
    assert_eq!(parse_status(b" HTTP/1.1 200 OK\r\n"), Err(ResponseError::MalformedStatusLine));
    assert_eq!(parse_status(b"HTTP/1.1\r\n"), Err(ResponseError::MalformedStatusLine));
    assert_eq!(parse_status(b"\r\n"), Err(ResponseError::MalformedStatusLine));
}

#[test]
fn missing_line_end_is_an_error() {
    assert_eq!(parse_status(b"HTTP/1.1 200 OK"), Err(ResponseError::NoLineEnd));
}

#[test]
fn empty_response_counts_as_failure() {
    assert_eq!(parse_status(b""), Ok((false, 0)));
}

#[test]
fn whitespace_runs_separate_tokens() {
    assert_eq!(parse_status(b"HTTP/1.1 \t 404  \x0bNot Found\r\n"), Ok((false, 404)));
    assert_eq!(parse_status(b"HTTP/1.1\t200\tOK\r\n\r\n"), Ok((true, 200)));
}

#[test]
fn non_ascii_space_does_not_separate_tokens() {
    let line = "HTTP/1.1\u{a0}200 OK\r\n".as_bytes();
    assert_eq!(parse_status(line), Err(ResponseError::MalformedStatusLine));
}

#[test]
fn body_size_counts_bytes_after_blank_line() {
    assert_eq!(body_size_of(b"HTTP/1.1 200 OK\r\n\r\nhello"), 5);
    assert_eq!(body_start(b"HTTP/1.1 200 OK\r\n\r\nhello"), Some(19));
}

#[test]
fn no_blank_line_means_no_body() {
    assert_eq!(body_size_of(b"HTTP/1.1 200 OK\r\nContent-Length: 5\r\nhello"), 0);
    assert_eq!(body_start(b"HTTP/1.1 200 OK\r\nhello"), None);
    assert_eq!(body_size_of(b""), 0);
}

#[test]
fn blank_line_at_end_means_empty_body() {
    assert_eq!(body_size_of(b"HTTP/1.1 200 OK\r\n\r\n"), 0);
}

#[test]
fn body_size_counts_bytes_not_characters() {
    let r = "HTTP/1.1 200 OK\r\n\r\nh\u{e9}".as_bytes();
    assert_eq!(body_size_of(r), 3);
}

#[test]
fn find_bytes_finds_first_occurrence() {
    assert_eq!(find_bytes(b"abcabc", b"bc"), Some(1));
    assert_eq!(find_bytes(b"abc", b"x"), None);
    assert_eq!(find_bytes(b"ab", b"abc"), None);
    assert_eq!(find_bytes(b"ab", b""), Some(0));
}

#[test]
fn record_of_hello_response() {
    let r = RequestRecord::from_response(b"HTTP/1.1 200 OK\r\n\r\nhello", 2150);
    assert_eq!(
        r,
        Ok(RequestRecord { body_size_bytes: 5, elapsed_millis: 150, succeeded: true, status_code: 200 })
    );
}

#[test]
fn record_keeps_time_of_empty_response() {
    let r = RequestRecord::from_response(b"", 37);
    assert_eq!(
        r,
        Ok(RequestRecord { body_size_bytes: 0, elapsed_millis: 37, succeeded: false, status_code: 0 })
    );
}

#[test]
fn record_time_never_goes_below_zero() {
    let r = RequestRecord::from_response(b"HTTP/1.1 404 Not Found\r\n\r\n", 500).unwrap();
    assert_eq!(r.elapsed_millis, 0);
    assert!(!r.succeeded);
    assert_eq!(r.status_code, 404);
}

#[test]
fn record_of_malformed_response_is_an_error() {
    assert_eq!(RequestRecord::from_response(b"garbage", 2100), Err(ResponseError::NoLineEnd));
}
