use ollama_rs::request::{ensure_host_port, address, generate_body, generate_request, models_request, DEFAULT_PORT};

#[test]
fn bare_host_gets_default_port() {
    assert_eq!(ensure_host_port("example.com"), "example.com:11434");
    assert_eq!(DEFAULT_PORT, 11434);
}

#[test]
fn host_with_port_is_kept() {
    assert_eq!(ensure_host_port("example.com:9000"), "example.com:9000");
}

#[test]
fn address_joins_host_and_port() {
    assert_eq!(address("127.0.0.1", 11434), "127.0.0.1:11434");
    assert_eq!(address("h", 0), "h:0");
    assert_eq!(address("h", 65535), "h:65535");
}

#[test]
fn generate_body_escapes_strings() {
    assert_eq!(generate_body("llama3.2", "say \"hi\"\n"), "{\"model\":\"llama3.2\",\"prompt\":\"say \\\"hi\\\"\\n\"}");
}

#[test]
fn generate_request_is_complete() {
    let r = generate_request("localhost", "m", "hi");
    let body = "{\"model\":\"m\",\"prompt\":\"hi\"}";
    let expected = format!(
        "POST /api/generate HTTP/1.1\r\nHost: localhost:11434\r\nContent-Type: application/json\r\nContent-Length: {}\r\nConnection: close\r\n\r\n{}",
        body.len(),
        body
    );
    assert_eq!(r, expected);
}

#[test]
fn content_length_counts_bytes() {
    let r = generate_request("h:1", "m", "é");
    assert!(r.contains("Content-Length: 27\r\n"));
    assert!(r.starts_with("POST /api/generate HTTP/1.1\r\nHost: h:1\r\n"));
}

#[test]
fn models_request_is_complete() {
    assert_eq!(
        models_request("127.0.0.1", 11434),
        "GET /api/tags HTTP/1.1\r\nHost: 127.0.0.1:11434\r\nConnection: close\r\n\r\n"
    );
}
