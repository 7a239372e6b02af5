use ollama_rs::reducer::{format_http_response, format_body, stream_step, value_step, response_body};

#[test]
fn formats_json_body() {
    let resp = "HTTP/1.1 200 OK\r\nContent-Type: application/json\r\n\r\n{\"response\":\"hello world\"}";
    let out = format_http_response(resp);
    assert_eq!(out.trim(), "hello world");
}

#[test]
fn handles_line_separated_json() {
    let resp = "HTTP/1.1 200 OK\r\n\r\n{\"response\":\"Hello \"}\n{\"response\":\"world\"}\n";
    let out = format_http_response(resp);
    assert_eq!(out.trim(), "Hello world");
}

#[test]
fn single_object_gives_exact_text() {
    let resp = "HTTP/1.1 200 OK\r\n\r\n{\"response\":\"hello world\"}";
    assert_eq!(format_http_response(resp), "hello world");
}

#[test]
fn stream_keeps_fragments_exact() {
    let resp = "HTTP/1.1 200 OK\r\n\r\n{\"response\":\"Hello \"}\n{\"response\":\"world\"}\n";
    assert_eq!(format_http_response(resp), "Hello world");
}

#[test]
fn garbage_lines_are_skipped() {
    let resp = "HTTP/1.1 200 OK\r\n\r\n{\"response\":\"a\"}\nnot json\n{\"done\":true}\n\n   \n{\"response\":\"b\"}\n{\"response\":7}\n{\"response\":\"c\"}";
    assert_eq!(format_http_response(resp), "abc");
}

#[test]
fn crlf_lines_are_read() {
    let resp = "HTTP/1.1 200 OK\r\n\r\n{\"response\":\"x\"}\r\n{\"response\":\"y\"}\r\n";
    assert_eq!(format_http_response(resp), "xy");
}

#[test]
fn empty_fragments_still_count() {
    let resp = "HTTP/1.1 200 OK\r\n\r\n{\"response\":\"\"}\n";
    assert_eq!(format_http_response(resp), "");
}

#[test]
fn value_without_response_is_pretty_printed() {
    let resp = "HTTP/1.1 500 Internal Server Error\r\n\r\n{\"error\":\"model not found\"}";
    assert_eq!(format_http_response(resp), "{\n  \"error\": \"model not found\"\n}");
}

#[test]
fn multi_line_value_is_read_whole() {
    let resp = "HTTP/1.1 200 OK\r\n\r\n{\n\"response\": \"whole\"\n}";
    assert_eq!(format_http_response(resp), "whole");
}

#[test]
fn no_separator_returns_input() {
    let resp = "HTTP/1.1 200 OK\r\nContent-Type: text/plain\r\n{\"response\":\"x\"}";
    assert_eq!(format_http_response(resp), resp);
    assert_eq!(format_http_response(""), "");
}

#[test]
fn non_json_body_is_returned_raw() {
    let resp = "HTTP/1.1 200 OK\r\n\r\nplain text\nmore";
    assert_eq!(format_http_response(resp), "plain text\nmore");
}

#[test]
fn only_first_separator_splits() {
    let resp = "H\r\n\r\nbody\r\n\r\nrest";
    assert_eq!(response_body(resp), Some("body\r\n\r\nrest"));
    assert_eq!(response_body("no separator"), None);
}

#[test]
fn steps_report_their_own_outcome() {
    assert_eq!(stream_step("{\"response\":\"p\"}\n{\"response\":\"q\"}"), Some("pq".to_string()));
    assert_eq!(stream_step("{\"other\":1}\n"), None);
    assert_eq!(value_step("{\"response\":\"r\"}"), Some("r".to_string()));
    assert_eq!(value_step("[1,2]"), Some("[\n  1,\n  2\n]".to_string()));
    assert_eq!(value_step("nope"), None);
    assert_eq!(format_body("nope"), "nope");
}
