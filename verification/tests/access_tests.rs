use std::io::Read;
use waf::captcha::{
    challenge_response, find_access_cookie, starts_with_chars, trim_chars, CaptchaEndpoint,
    InboundRequest, ProxyResponse,
};
use waf::cookie_manager::{is_valid_format, store_cookie, CookieStorage};
use waf::dashboard::{
    format_duration, get_current_timestamp, increment_request_counter,
    increment_response_counter, push_padded, TrafficCounters,
};
use waf::headers::Headers;
use waf::module::ModuleRegistry;
use waf::proxy::{destination_uri, finish_response, init_all, proxy_service, UpstreamOutcome};
use waf::text::{
    chars_of, contains_lowered, decimal_string, equals_ignore_case, string_of, to_hex_lower,
    to_lower_char,
};

fn unbrotli(bytes: &[u8]) -> Vec<u8> {
    let mut out: Vec<u8> = Vec::new();
    let mut reader = brotli::Decompressor::new(bytes, 4096);
    reader.read_to_end(&mut out).unwrap();
    out
}

fn full_registry() -> ModuleRegistry {
    let mut registry: ModuleRegistry = ModuleRegistry::new();
    init_all(&mut registry);
    registry
}

fn request(path: &str, cookie: Option<&str>) -> InboundRequest {
    let mut headers: Headers = Headers::new();
    headers.append("host", "example.test");
    if let Some(value) = cookie {
        headers.append("Cookie", value);
    }
    InboundRequest { path: String::from(path), headers }
}

fn token_in(response: &ProxyResponse) -> String {
    let value: String = response.headers.get("set-cookie").unwrap();
    let rest: &str = value.strip_prefix("access=").unwrap();
    let end: usize = rest.find(';').unwrap();
    String::from(&rest[..end])
}

fn assert_redirect(response: &ProxyResponse) {
    assert_eq!(response.status, 302);
    assert_eq!(response.headers.len(), 1);
    assert_eq!(response.headers.get("location"), Some(String::from("/captcha")));
    assert!(response.body.is_empty());
}

#[test]
fn cookie_is_found_in_a_header() {
    assert_eq!(find_access_cookie("access=abc"), Some(String::from("abc")));
    assert_eq!(find_access_cookie("a=b; access=xyz ; c=d"), Some(String::from("xyz")));
    assert_eq!(find_access_cookie("a=b;access=xyz"), Some(String::from("xyz")));
    assert_eq!(find_access_cookie("  access="), Some(String::new()));
    assert_eq!(find_access_cookie("\taccess=q\t;"), Some(String::from("q")));
}

#[test]
fn first_cookie_of_the_name_wins() {
    assert_eq!(find_access_cookie("access=1; access=2"), Some(String::from("1")));
    assert_eq!(find_access_cookie("x=access=0; access=1"), Some(String::from("1")));
}

#[test]
fn cookie_is_absent() {
    assert_eq!(find_access_cookie(""), None);
    assert_eq!(find_access_cookie(";;;"), None);
    assert_eq!(find_access_cookie("xaccess=1"), None);
    assert_eq!(find_access_cookie("access"), None);
    assert_eq!(find_access_cookie("Access=1"), None);
    assert_eq!(find_access_cookie("a=b; c=d"), None);
}

#[test]
fn cookie_value_keeps_inner_text() {
    assert_eq!(find_access_cookie("access=a b=c"), Some(String::from("a b=c")));
    assert_eq!(find_access_cookie("access= x"), Some(String::from(" x")));
}

#[test]
fn extract_reads_the_first_cookie_header() {
    let endpoint: CaptchaEndpoint = CaptchaEndpoint::new();
    assert_eq!(endpoint.extract_cookie(&request("/", None)), None);
    assert_eq!(endpoint.extract_cookie(&request("/", Some("access=t1"))), Some(String::from("t1")));
    let mut two: InboundRequest = request("/", Some("other=1"));
    two.headers.append("cookie", "access=t2");
    assert_eq!(endpoint.extract_cookie(&two), None);
}

#[test]
fn trimming_and_prefixes() {
    assert_eq!(string_of(&trim_chars(&chars_of("  a b \t"))), "a b");
    assert_eq!(string_of(&trim_chars(&chars_of("   "))), "");
    assert_eq!(string_of(&trim_chars(&chars_of("\u{a0}x\u{3000}"))), "x");
    assert!(starts_with_chars(&chars_of("access=1"), &chars_of("access=")));
    assert!(!starts_with_chars(&chars_of("acces"), &chars_of("access=")));
    assert!(starts_with_chars(&chars_of("abc"), &chars_of("")));
}

#[test]
fn redirect_points_to_the_challenge() {
    let endpoint: CaptchaEndpoint = CaptchaEndpoint::new();
    assert_redirect(&endpoint.create_redirect_response());
}

#[test]
fn request_without_cookie_is_redirected() {
    let endpoint: CaptchaEndpoint = CaptchaEndpoint::new();
    let registry: ModuleRegistry = full_registry();
    let mut store: CookieStorage = CookieStorage::new();
    let out: Option<ProxyResponse> = endpoint.handle_request(&mut store, &registry, &request("/", None), 5);
    assert_redirect(&out.unwrap());
    let other: Option<ProxyResponse> =
        endpoint.handle_request(&mut store, &registry, &request("/captcha/more", None), 5);
    assert_redirect(&other.unwrap());
}

#[test]
fn malformed_cookie_is_redirected() {
    let endpoint: CaptchaEndpoint = CaptchaEndpoint::new();
    let registry: ModuleRegistry = full_registry();
    let mut store: CookieStorage = CookieStorage::new();
    store_cookie(&mut store, String::from("short"), 0);
    let out: Option<ProxyResponse> =
        endpoint.handle_request(&mut store, &registry, &request("/", Some("access=short")), 5);
    assert_redirect(&out.unwrap());
}

#[test]
fn unknown_token_is_redirected() {
    let endpoint: CaptchaEndpoint = CaptchaEndpoint::new();
    let registry: ModuleRegistry = full_registry();
    let mut store: CookieStorage = CookieStorage::new();
    let cookie: String = format!("access={}", "ab".repeat(32));
    let out: Option<ProxyResponse> =
        endpoint.handle_request(&mut store, &registry, &request("/x", Some(&cookie)), 5);
    assert_redirect(&out.unwrap());
}

#[test]
fn valid_token_is_let_through() {
    let endpoint: CaptchaEndpoint = CaptchaEndpoint::new();
    let registry: ModuleRegistry = full_registry();
    let mut store: CookieStorage = CookieStorage::new();
    let token: String = "0f".repeat(32);
    store_cookie(&mut store, token.clone(), 100);
    let cookie: String = format!("theme=dark; access={}", token);
    assert!(endpoint.handle_request(&mut store, &registry, &request("/", Some(&cookie)), 100).is_none());
    assert!(endpoint.handle_request(&mut store, &registry, &request("/a?b", Some(&cookie)), 699).is_none());
    let late: Option<ProxyResponse> =
        endpoint.handle_request(&mut store, &registry, &request("/", Some(&cookie)), 700);
    assert_redirect(&late.unwrap());
}

#[test]
fn challenge_page_sets_the_cookie() {
    let endpoint: CaptchaEndpoint = CaptchaEndpoint::new();
    let registry: ModuleRegistry = full_registry();
    let mut store: CookieStorage = CookieStorage::new();
    let page: ProxyResponse = endpoint.create_captcha_response(&mut store, &registry, 42);
    assert_eq!(page.status, 200);
    let token: String = token_in(&page);
    assert!(is_valid_format(&token));
    assert_eq!(
        page.headers.get("set-cookie"),
        Some(format!("access={}; Max-Age=600; Path=/; HttpOnly", token))
    );
    assert_eq!(page.headers.get("content-type"), Some(String::from("text/html; charset=utf-8")));
    assert_eq!(page.headers.get("content-encoding"), Some(String::from("br")));
    assert_eq!(page.headers.get("vary"), Some(String::from("Accept-Encoding")));
    assert_eq!(
        unbrotli(&page.body),
        b"<html><body><h1>captcha [REDACTED]</h1></body></html>".to_vec()
    );
    assert_eq!(store.len(), 1);
    assert!(store.is_valid(&token, 42));
}

#[test]
fn challenge_page_for_a_given_token() {
    let registry: ModuleRegistry = ModuleRegistry::new();
    let page: ProxyResponse = challenge_response(&registry, "tok");
    assert_eq!(page.status, 200);
    assert_eq!(
        page.headers.get("set-cookie"),
        Some(String::from("access=tok; Max-Age=600; Path=/; HttpOnly"))
    );
    assert_eq!(
        unbrotli(&page.body),
        b"<html><body><h1>captcha 192.168.0.1</h1></body></html>".to_vec()
    );
}

#[test]
fn challenge_then_forward_then_expiry() {
    let endpoint: CaptchaEndpoint = CaptchaEndpoint::new();
    let registry: ModuleRegistry = full_registry();
    let mut store: CookieStorage = CookieStorage::new();
    let page: ProxyResponse =
        endpoint.handle_request(&mut store, &registry, &request("/captcha", None), 1000).unwrap();
    assert_eq!(page.status, 200);
    let token: String = token_in(&page);
    assert_eq!(token.len(), 64);
    assert!(is_valid_format(&token));
    assert!(String::from_utf8(unbrotli(&page.body)).unwrap().contains("captcha [REDACTED]"));
    let cookie: String = format!("access={}", token);
    assert!(endpoint.handle_request(&mut store, &registry, &request("/", Some(&cookie)), 1001).is_none());
    assert!(endpoint.handle_request(&mut store, &registry, &request("/", Some(&cookie)), 1599).is_none());
    let late: Option<ProxyResponse> =
        endpoint.handle_request(&mut store, &registry, &request("/", Some(&cookie)), 1600);
    assert_redirect(&late.unwrap());
    let later: Option<ProxyResponse> =
        endpoint.handle_request(&mut store, &registry, &request("/", Some(&cookie)), 1601);
    assert_redirect(&later.unwrap());
}

#[test]
fn challenge_path_ignores_the_cookie() {
    let endpoint: CaptchaEndpoint = CaptchaEndpoint::new();
    let registry: ModuleRegistry = full_registry();
    let mut store: CookieStorage = CookieStorage::new();
    let token: String = "0f".repeat(32);
    store_cookie(&mut store, token.clone(), 0);
    let cookie: String = format!("access={}", token);
    let page: ProxyResponse =
        endpoint.handle_request(&mut store, &registry, &request("/captcha", Some(&cookie)), 1).unwrap();
    assert_eq!(page.status, 200);
    assert_ne!(token_in(&page), token);
    assert_eq!(store.len(), 2);
}

#[test]
fn destination_keeps_path_and_query() {
    assert_eq!(destination_uri(1337, "/a/b?c=1&d=2"), "http://127.0.0.1:1337/a/b?c=1&d=2");
    assert_eq!(destination_uri(0, ""), "http://127.0.0.1:0");
    assert_eq!(destination_uri(65535, "/"), "http://127.0.0.1:65535/");
}

#[test]
fn content_length_matches_a_compressed_body() {
    let registry: ModuleRegistry = full_registry();
    let body: String = "{\"client\": \"10.0.0.1\", \"pad\": \"xxxxxxxxxxxxxxxxxxxxxxxxxxxxxxxx\"}".repeat(8);
    let mut headers: Headers = Headers::new();
    headers.append("Content-Type", "application/json");
    headers.append("Content-Length", &body.len().to_string());
    let sent: Vec<u8> = finish_response(&registry, &mut headers, body.as_bytes());
    assert_ne!(sent, body.as_bytes().to_vec());
    assert_eq!(headers.get("content-length"), Some(sent.len().to_string()));
    assert_eq!(headers.get("content-encoding"), Some(String::from("br")));
    assert_eq!(headers.get("vary"), Some(String::from("Accept-Encoding")));
    assert_eq!(headers.get("content-type"), Some(String::from("application/json")));
    let plain: String = String::from_utf8(unbrotli(&sent)).unwrap();
    assert_eq!(plain, body.replace("10.0.0.1", "[REDACTED]"));
}

#[test]
fn content_length_matches_a_redacted_body() {
    let registry: ModuleRegistry = full_registry();
    let mut headers: Headers = Headers::new();
    headers.append("content-length", "21");
    headers.append("CONTENT-LENGTH", "21");
    let sent: Vec<u8> = finish_response(&registry, &mut headers, b"ip 10.0.0.1 connected");
    assert_eq!(sent, b"ip [REDACTED] connected".to_vec());
    assert_eq!(headers.len(), 2);
    assert_eq!(headers.value_at(0), "23");
    assert_eq!(headers.value_at(1), "23");
    assert_eq!(headers.name_at(1), "CONTENT-LENGTH");
    assert_eq!(headers.get("content-encoding"), None);
}

#[test]
fn png_response_is_forwarded_as_it_is() {
    let registry: ModuleRegistry = full_registry();
    let data: Vec<u8> = vec![0x89, 0x50, 0x4e, 0x47, 0x0d, 0x0a, 0x1a, 0x0a, 0xff];
    let mut headers: Headers = Headers::new();
    headers.append("content-type", "image/png");
    headers.append("content-length", "9");
    let sent: Vec<u8> = finish_response(&registry, &mut headers, &data);
    assert_eq!(sent, data);
    assert_eq!(headers.len(), 2);
    assert_eq!(headers.get("content-encoding"), None);
    assert_eq!(headers.get("vary"), None);
    assert_eq!(headers.get("content-length"), Some(String::from("9")));
}

#[test]
fn missing_content_length_is_not_added() {
    let registry: ModuleRegistry = full_registry();
    let mut headers: Headers = Headers::new();
    let sent: Vec<u8> = finish_response(&registry, &mut headers, b"hello");
    assert_eq!(sent, b"hello".to_vec());
    assert_eq!(headers.len(), 0);
}

#[test]
fn upstream_failure_gives_bad_gateway() {
    let registry: ModuleRegistry = full_registry();
    let out: ProxyResponse = proxy_service(
        &registry,
        UpstreamOutcome::Unreachable { detail: String::from("connection refused") },
    );
    assert_eq!(out.status, 502);
    assert_eq!(out.body, b"Proxy error: connection refused".to_vec());
    assert_eq!(out.headers.len(), 0);
}

#[test]
fn unreadable_body_gives_server_error() {
    let registry: ModuleRegistry = full_registry();
    let out: ProxyResponse = proxy_service(&registry, UpstreamOutcome::BodyUnreadable);
    assert_eq!(out.status, 500);
    assert_eq!(out.body, b"Error processing response".to_vec());
}

#[test]
fn upstream_answer_is_processed() {
    let registry: ModuleRegistry = full_registry();
    let mut headers: Headers = Headers::new();
    headers.append("content-type", "text/plain");
    headers.append("content-length", "12");
    let out: ProxyResponse = proxy_service(
        &registry,
        UpstreamOutcome::Received { status: 404, headers, body: b"no 127.0.0.1".to_vec() },
    );
    assert_eq!(out.status, 404);
    assert_eq!(unbrotli(&out.body), b"no [REDACTED]".to_vec());
    assert_eq!(out.headers.get("content-length"), Some(out.body.len().to_string()));
    assert_eq!(out.headers.get("content-encoding"), Some(String::from("br")));
}

#[test]
fn header_names_ignore_case() {
    let mut headers: Headers = Headers::new();
    headers.append("X-One", "1");
    headers.append("x-one", "2");
    headers.append("Other", "3");
    assert_eq!(headers.get("X-ONE"), Some(String::from("1")));
    headers.insert("x-ONE", "4");
    assert_eq!(headers.len(), 2);
    assert_eq!(headers.name_at(0), "Other");
    assert_eq!(headers.name_at(1), "x-ONE");
    assert_eq!(headers.get("x-one"), Some(String::from("4")));
    headers.replace_value("OTHER", "5");
    assert_eq!(headers.value_at(0), "5");
    assert_eq!(headers.get("missing"), None);
}

#[test]
fn counters_count() {
    let mut counters: TrafficCounters = TrafficCounters::new();
    increment_request_counter(&mut counters);
    increment_request_counter(&mut counters);
    increment_response_counter(&mut counters);
    assert_eq!(counters.requests, 2);
    assert_eq!(counters.responses, 1);
    counters.requests = u64::MAX;
    increment_request_counter(&mut counters);
    assert_eq!(counters.requests, 0);
}

#[test]
fn uptime_is_rendered() {
    assert_eq!(format_duration(0), "0d 0h 0m 0s");
    assert_eq!(format_duration(93784), "1d 2h 3m 4s");
    assert_eq!(format_duration(86399), "0d 23h 59m 59s");
}

#[test]
fn numbers_and_bytes_are_rendered() {
    assert_eq!(decimal_string(0), "0");
    assert_eq!(decimal_string(7), "7");
    assert_eq!(decimal_string(1203), "1203");
    assert_eq!(decimal_string(u64::MAX), "18446744073709551615");
    assert_eq!(to_hex_lower(&vec![0x00, 0x0f, 0xa5, 0xff]), "000fa5ff");
    assert_eq!(to_hex_lower(&Vec::new()), "");
}

#[test]
fn text_helpers() {
    assert_eq!(to_lower_char('A'), 'a');
    assert_eq!(to_lower_char('Z'), 'z');
    assert_eq!(to_lower_char('é'), 'é');
    assert_eq!(to_lower_char('1'), '1');
    assert!(contains_lowered(&chars_of("Say HELLO there"), &chars_of("hello")));
    assert!(!contains_lowered(&chars_of("Say HELLO there"), &chars_of("HELLO")));
    assert!(contains_lowered(&chars_of("abc"), &chars_of("")));
    assert!(!contains_lowered(&chars_of("ab"), &chars_of("abc")));
    assert!(equals_ignore_case(&chars_of("Content-Type"), &chars_of("content-type")));
    assert!(!equals_ignore_case(&chars_of("Content-Type"), &chars_of("content-typ")));
    assert_eq!(string_of(&chars_of("hé🙂")), "hé🙂");
}

#[test]
fn timestamp_is_rendered() {
    assert_eq!(get_current_timestamp(None), "----/--/-- --:--:--");
    assert_eq!(get_current_timestamp(Some(0)), "1970-01-01 00:00:00");
    assert_eq!(get_current_timestamp(Some(86400 * 31 + 3661)), "1970-02-01 01:01:01");
    assert_eq!(get_current_timestamp(Some(364 * 86400 + 86399)), "1970-12-31 23:59:59");
    assert_eq!(get_current_timestamp(Some(365 * 86400)), "1971-01-01 00:00:00");
}

#[test]
fn numbers_are_padded() {
    let mut text: String = String::from("n=");
    push_padded(&mut text, 7, 3);
    assert_eq!(text, "n=007");
    push_padded(&mut text, 1234, 2);
    assert_eq!(text, "n=0071234");
    push_padded(&mut text, 0, 0);
    assert_eq!(text, "n=00712340");
}
