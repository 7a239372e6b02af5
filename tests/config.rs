use ollama_rs::config::{read_host_port_from_config, host_port_pair, config_host_and_port};
use ollama_rs::models::model_names;
use ollama_rs::text::{decimal, signed_decimal, parse_u16};

#[test]
fn config_values_are_read() {
    let t = "{\"ollama-host\":\"10.0.0.2\",\"ollama-port\":8080}";
    assert_eq!(read_host_port_from_config(t), Some("10.0.0.2:8080".to_string()));
    assert_eq!(config_host_and_port(t), Some(("10.0.0.2".to_string(), 8080)));
}

#[test]
fn missing_config_values_take_defaults() {
    assert_eq!(read_host_port_from_config("{}"), Some("127.0.0.1:11434".to_string()));
    assert_eq!(read_host_port_from_config("{\"ollama-host\":5,\"ollama-port\":\"x\"}"), Some("127.0.0.1:11434".to_string()));
    assert_eq!(config_host_and_port("{}"), Some(("127.0.0.1".to_string(), 11434)));
}

#[test]
fn invalid_config_text_gives_none() {
    assert_eq!(read_host_port_from_config("not json"), None);
    assert_eq!(config_host_and_port("not json"), None);
}

#[test]
fn out_of_range_port_gives_no_pair() {
    let t = "{\"ollama-port\":-1}";
    assert_eq!(read_host_port_from_config(t), Some("127.0.0.1:-1".to_string()));
    assert_eq!(config_host_and_port(t), None);
    assert_eq!(config_host_and_port("{\"ollama-port\":70000}"), None);
}

#[test]
fn host_port_pairs_split_on_one_colon() {
    assert_eq!(host_port_pair("a:1"), Some(("a".to_string(), 1)));
    assert_eq!(host_port_pair(":+80"), Some(("".to_string(), 80)));
    assert_eq!(host_port_pair("a"), None);
    assert_eq!(host_port_pair("a:1:2"), None);
    assert_eq!(host_port_pair("a:"), None);
    assert_eq!(host_port_pair("a:x"), None);
    assert_eq!(host_port_pair("a:65536"), None);
}

#[test]
fn numbers_format_and_parse() {
    assert_eq!(decimal(0), "0");
    assert_eq!(decimal(1234567890), "1234567890");
    assert_eq!(decimal(u64::MAX), u64::MAX.to_string());
    assert_eq!(signed_decimal(-42), "-42");
    assert_eq!(signed_decimal(i64::MIN), i64::MIN.to_string());
    assert_eq!(parse_u16("65535"), Some(65535));
    assert_eq!(parse_u16("007"), Some(7));
    assert_eq!(parse_u16("+"), None);
    assert_eq!(parse_u16("-1"), None);
    assert_eq!(parse_u16(""), None);
    assert_eq!(parse_u16("99999999999"), None);
}

#[test]
fn model_names_are_listed() {
    let resp = "HTTP/1.1 200 OK\r\n\r\n{\"models\":[{\"name\":\"llama3.2\",\"size\":1},{\"size\":2},{\"name\":\"qwen\"}]}";
    assert_eq!(model_names(resp), vec!["llama3.2".to_string(), "qwen".to_string()]);
}

#[test]
fn unreadable_model_lists_are_empty() {
    assert!(model_names("HTTP/1.1 200 OK\r\n\r\nnot json").is_empty());
    assert!(model_names("HTTP/1.1 200 OK\r\n\r\n{\"models\":5}").is_empty());
    assert!(model_names("{\"models\":[{\"name\":\"x\"}]}").is_empty());
    assert!(model_names("HTTP/1.1 200 OK\r\n\r\n{\"models\":[]}").is_empty());
}

#[test]
fn blank_texts_are_told_apart() {
    assert!(ollama_rs::text::blank(""));
    assert!(ollama_rs::text::blank(" \t\r\n\u{3000}"));
    assert!(!ollama_rs::text::blank("  a "));
}
