use rgate::preprocessors::PreprocessorErr;
use rgate::response::build_response;
use rgate::response::plan_body;
use rgate::response::status_line;
use rgate::response::BodyPlan;
use rgate::strings::concat_str;
use rgate::strings::str_contains;
use rgate::strings::str_ends_with;
use rgate::strings::u64_dec;

#[test]
fn status_lines_are_exact() {
    assert_eq!(status_line(200), "HTTP/1.1 200 OK".to_string());
    assert_eq!(status_line(403), "HTTP/1.1 403 FORBIDDEN".to_string());
    assert_eq!(status_line(404), "HTTP/1.1 404 NOT FOUND".to_string());
    assert_eq!(status_line(418), "HTTP/1.1 418 IM A TEAPOT".to_string());
    assert_eq!(status_line(500), "HTTP/1.1 500 INTERNAL SERVER ERROR".to_string());
}

#[test]
fn response_carries_byte_length_and_body() {
    let status = status_line(200);
    let body = "hello".to_string();
    let r = build_response(&status, &body);
    assert_eq!(r, "HTTP/1.1 200 OK\r\nContent-Length: 5\r\n\r\nhello".to_string());
    let empty = build_response(&status_line(404), &"".to_string());
    assert_eq!(empty, "HTTP/1.1 404 NOT FOUND\r\nContent-Length: 0\r\n\r\n".to_string());
    // A multi-byte character counts by its bytes, not its characters.
    let wide = build_response(&status, &"é".to_string());
    assert_eq!(wide, "HTTP/1.1 200 OK\r\nContent-Length: 2\r\n\r\né".to_string());
}

#[test]
fn no_processor_is_never_an_error_response() {
    let (status, plan) = plan_body(Err(PreprocessorErr::NoProcessor), 418);
    assert_eq!(status, 200);
    assert_eq!(plan, BodyPlan::ReadResolved);
}

#[test]
fn failures_degrade_to_the_fixed_error_page() {
    let (s1, p1) = plan_body(Err(PreprocessorErr::ProcessorFailed), 200);
    assert_eq!((s1, p1), (500, BodyPlan::ReadErrorPage));
    let (s2, p2) = plan_body(Err(PreprocessorErr::FileError), 200);
    assert_eq!((s2, p2), (500, BodyPlan::ReadErrorPage));
}

#[test]
fn preprocessed_text_keeps_the_resolved_status() {
    let (status, plan) = plan_body(Ok("body".to_string()), 200);
    assert_eq!(status, 200);
    assert_eq!(plan, BodyPlan::Text("body".to_string()));
}

#[test]
fn decimal_rendering_is_exact() {
    assert_eq!(u64_dec(0), "0".to_string());
    assert_eq!(u64_dec(7), "7".to_string());
    assert_eq!(u64_dec(10), "10".to_string());
    assert_eq!(u64_dec(1024), "1024".to_string());
    assert_eq!(u64_dec(65535), "65535".to_string());
}

#[test]
fn string_helpers_behave() {
    assert!(str_ends_with("report.md", ".md"));
    assert!(!str_ends_with("md", ".md"));
    assert!(str_ends_with("anything", ""));
    assert!(str_contains("/brew/coffee", "/coffee"));
    assert!(!str_contains("/brew/tea", "/coffee"));
    assert!(str_contains("..", ".."));
    assert!(!str_contains("/a.b/c", ".."));
    assert_eq!(concat_str("public", "/index"), "public/index".to_string());
}
