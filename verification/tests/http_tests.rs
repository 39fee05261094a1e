use webserver::decimal::render_decimal;
use webserver::http::{
    build_response, classify, starts_with, Route, REQUEST_BUFFER_LEN, SLEEP_SECONDS,
};

fn padded(request: &[u8]) -> Vec<u8> {
    let mut buffer = vec![0u8; REQUEST_BUFFER_LEN];
    buffer[..request.len()].copy_from_slice(request);
    buffer
}

fn header_end(response: &[u8]) -> usize {
    let mut i = 0;
    while i + 4 <= response.len() {
        if &response[i..i + 4] == b"\r\n\r\n" {
            return i;
        }
        i += 1;
    }
    panic!("no empty line in the response");
}

fn content_length(response: &[u8]) -> usize {
    let head = std::str::from_utf8(&response[..header_end(response)]).unwrap();
    let line = head.split("\r\n").nth(1).unwrap();
    let digits = line.strip_prefix("Content-Length: ").unwrap();
    digits.parse().unwrap()
}

#[test]
fn decimal_of_single_digits() {
    assert_eq!(render_decimal(0), b"0".to_vec());
    assert_eq!(render_decimal(7), b"7".to_vec());
    assert_eq!(render_decimal(9), b"9".to_vec());
}

#[test]
fn decimal_of_larger_numbers() {
    assert_eq!(render_decimal(10), b"10".to_vec());
    assert_eq!(render_decimal(99), b"99".to_vec());
    assert_eq!(render_decimal(100), b"100".to_vec());
    assert_eq!(render_decimal(1024), b"1024".to_vec());
    assert_eq!(render_decimal(90210), b"90210".to_vec());
}

#[test]
fn decimal_of_the_largest_length() {
    assert_eq!(render_decimal(usize::MAX), format!("{}", usize::MAX).into_bytes());
}

#[test]
fn decimal_agrees_with_std_on_a_range() {
    let mut n: usize = 0;
    while n < 3000 {
        assert_eq!(render_decimal(n), format!("{}", n).into_bytes());
        n += 1;
    }
}

#[test]
fn decimal_reads_back() {
    for n in [0usize, 1, 9, 10, 11, 255, 1000, 65535, 123456789] {
        let digits = render_decimal(n);
        let text = std::str::from_utf8(&digits).unwrap();
        assert_eq!(text.parse::<usize>().unwrap(), n);
        assert!(digits.iter().all(|d| d.is_ascii_digit()));
        assert!(n == 0 || digits[0] != b'0');
    }
}

#[test]
fn starts_with_finds_a_prefix() {
    assert!(starts_with(b"GET / HTTP/1.1\r\nHost: x\r\n", b"GET / HTTP/1.1\r\n"));
    assert!(starts_with(b"abc", b"abc"));
    assert!(starts_with(b"abc", b""));
    assert!(starts_with(b"", b""));
}

#[test]
fn starts_with_rejects_what_is_no_prefix() {
    assert!(!starts_with(b"abc", b"abd"));
    assert!(!starts_with(b"ab", b"abc"));
    assert!(!starts_with(b"", b"a"));
    assert!(!starts_with(b"xabc", b"abc"));
}

#[test]
fn root_request_is_the_index_route() {
    assert_eq!(classify(b"GET / HTTP/1.1\r\n\r\n"), Route::Index);
    assert_eq!(classify(b"GET / HTTP/1.1\r\n"), Route::Index);
    assert_eq!(classify(b"GET / HTTP/1.1\r\nHost: localhost\r\n\r\n"), Route::Index);
}

#[test]
fn sleep_request_is_the_sleep_route() {
    assert_eq!(classify(b"GET /sleep HTTP/1.1\r\n\r\n"), Route::Sleep);
    assert_eq!(classify(b"GET /sleep HTTP/1.1\r\nAccept: */*\r\n\r\n"), Route::Sleep);
}

#[test]
fn any_other_request_is_not_found() {
    assert_eq!(classify(b"GET /missing HTTP/1.1\r\n\r\n"), Route::NotFound);
    assert_eq!(classify(b"POST / HTTP/1.1\r\n\r\n"), Route::NotFound);
    assert_eq!(classify(b"GET / HTTP/1.0\r\n\r\n"), Route::NotFound);
    assert_eq!(classify(b"GET /sleepy HTTP/1.1\r\n\r\n"), Route::NotFound);
    assert_eq!(classify(b"get / http/1.1\r\n\r\n"), Route::NotFound);
    assert_eq!(classify(b" GET / HTTP/1.1\r\n\r\n"), Route::NotFound);
    assert_eq!(classify(b"\x00\xff\xfe garbage"), Route::NotFound);
}

#[test]
fn truncated_or_empty_requests_are_not_found() {
    assert_eq!(classify(b""), Route::NotFound);
    assert_eq!(classify(b"GET / HTTP/1.1\r"), Route::NotFound);
    assert_eq!(classify(b"GET /sleep HTTP/1.1"), Route::NotFound);
    assert_eq!(classify(&[0u8; 1024]), Route::NotFound);
}

#[test]
fn zero_padded_buffers_are_classified_by_their_start() {
    assert_eq!(classify(&padded(b"GET / HTTP/1.1\r\n\r\n")), Route::Index);
    assert_eq!(classify(&padded(b"GET /sleep HTTP/1.1\r\n\r\n")), Route::Sleep);
    assert_eq!(classify(&padded(b"GET /missing HTTP/1.1\r\n\r\n")), Route::NotFound);
    assert_eq!(classify(&padded(b"GET / HTTP/1.1")), Route::NotFound);
}

#[test]
fn routes_name_their_status_page_and_delay() {
    assert_eq!(Route::Index.status_line(), "HTTP/1.1 200 OK");
    assert_eq!(Route::Sleep.status_line(), "HTTP/1.1 200 OK");
    assert_eq!(Route::NotFound.status_line(), "HTTP/1.1 404 NOT FOUND");
    assert_eq!(Route::Index.page_name(), "hello.html");
    assert_eq!(Route::Sleep.page_name(), "hello.html");
    assert_eq!(Route::NotFound.page_name(), "404.html");
    assert_eq!(Route::Index.delay_seconds(), 0);
    assert_eq!(Route::NotFound.delay_seconds(), 0);
    assert_eq!(Route::Sleep.delay_seconds(), 5);
    assert_eq!(SLEEP_SECONDS, 5);
    assert_eq!(REQUEST_BUFFER_LEN, 1024);
}

#[test]
fn response_has_the_exact_wire_form() {
    let body = b"<h1>Hello!</h1>\n";
    let expected = b"HTTP/1.1 200 OK\r\nContent-Length: 16\r\n\r\n<h1>Hello!</h1>\n";
    assert_eq!(build_response(Route::Index, body), expected.to_vec());
    let missing = b"<h1>Oops!</h1>";
    let expected = b"HTTP/1.1 404 NOT FOUND\r\nContent-Length: 14\r\n\r\n<h1>Oops!</h1>";
    assert_eq!(build_response(Route::NotFound, missing), expected.to_vec());
}

#[test]
fn response_with_an_empty_body() {
    assert_eq!(
        build_response(Route::Index, b""),
        b"HTTP/1.1 200 OK\r\nContent-Length: 0\r\n\r\n".to_vec()
    );
}

#[test]
fn response_agrees_with_the_format_string() {
    let contents = String::from("<!DOCTYPE html>\n<html lang=\"en\">\n<body>caf\u{e9} \u{2603}</body>\n</html>\n");
    for route in [Route::Index, Route::Sleep, Route::NotFound] {
        let expected = format!(
            "{}\r\nContent-Length: {}\r\n\r\n{}",
            route.status_line(),
            contents.len(),
            contents
        );
        assert_eq!(build_response(route, contents.as_bytes()), expected.into_bytes());
    }
}

#[test]
fn root_request_yields_ok_with_matching_length() {
    let body = b"<html><body><h1>Hello!</h1><p>Hi from Rust</p></body></html>";
    let route = classify(b"GET / HTTP/1.1\r\n\r\n");
    let response = build_response(route, body);
    assert!(response.starts_with(b"HTTP/1.1 200 OK"));
    let end = header_end(&response);
    assert_eq!(&response[end + 4..], body);
    assert_eq!(content_length(&response), body.len());
    assert_eq!(content_length(&response), response.len() - end - 4);
}

#[test]
fn missing_page_yields_not_found_with_its_body() {
    let body = b"<html><body><h1>Oops!</h1><p>Sorry, I don't know what you're asking for.</p></body></html>";
    let route = classify(b"GET /missing HTTP/1.1\r\n\r\n");
    assert_eq!(route.page_name(), "404.html");
    let response = build_response(route, body);
    assert!(response.starts_with(b"HTTP/1.1 404 NOT FOUND"));
    let end = header_end(&response);
    assert_eq!(&response[end + 4..], body);
    assert_eq!(content_length(&response), body.len());
}

#[test]
fn sleep_request_answers_as_root_after_its_delay() {
    let body = b"<h1>Hello!</h1>";
    let slow = classify(b"GET /sleep HTTP/1.1\r\n\r\n");
    let fast = classify(b"GET / HTTP/1.1\r\n\r\n");
    assert_eq!(slow.delay_seconds(), 5);
    assert_eq!(fast.delay_seconds(), 0);
    assert_eq!(slow.page_name(), fast.page_name());
    assert_eq!(build_response(slow, body), build_response(fast, body));
}

#[test]
fn long_bodies_keep_their_length() {
    let body = vec![b'x'; 100_000];
    let response = build_response(Route::Index, &body);
    assert_eq!(content_length(&response), 100_000);
    assert_eq!(response.len(), "HTTP/1.1 200 OK\r\nContent-Length: 100000\r\n\r\n".len() + 100_000);
    assert!(response.ends_with(&body));
}
