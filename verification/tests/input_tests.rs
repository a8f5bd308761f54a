use ai_cli::input::compose_input;
use ai_cli::request::{build_request, endpoint_url};
use ai_cli::config::{AppConfig, Temperature};

#[test]
fn test_aggregate_two_files_without_prompt() {
    let files = vec!["foo".to_string(), "bar".to_string()];
    let out = compose_input(&files, "", &None);
    assert_eq!(out, "foo\nbar\n");
}

#[test]
fn test_aggregate_two_files_with_prompt() {
    let files = vec!["foo".to_string(), "bar".to_string()];
    let out = compose_input(&files, "", &Some("Q".to_string()));
    assert_eq!(out, "Prompt: Q\nfoo\nbar\n");
}

#[test]
fn test_stdin_used_when_no_files() {
    let files: Vec<String> = vec![];
    let out = compose_input(&files, "piped text", &None);
    assert_eq!(out, "piped text");
}

#[test]
fn test_stdin_ignored_when_files_named() {
    let files = vec!["abc".to_string()];
    let out = compose_input(&files, "piped text", &None);
    assert_eq!(out, "abc\n");
}

#[test]
fn test_prompt_prepended_to_stdin() {
    let files: Vec<String> = vec![];
    let out = compose_input(&files, "body", &Some("context".to_string()));
    assert_eq!(out, "Prompt: context\nbody");
}

#[test]
fn test_empty_everything() {
    let files: Vec<String> = vec![];
    let out = compose_input(&files, "", &None);
    assert_eq!(out, "");
}

#[test]
fn test_endpoint_url_plain() {
    assert_eq!(
        endpoint_url("http://localhost:11434/v1"),
        "http://localhost:11434/v1/chat/completions"
    );
}

#[test]
fn test_endpoint_url_trailing_slash() {
    assert_eq!(endpoint_url("http://host/v1/"), "http://host/v1/chat/completions");
}

#[test]
fn test_endpoint_url_many_trailing_slashes() {
    assert_eq!(endpoint_url("http://host/v1///"), "http://host/v1/chat/completions");
}

#[test]
fn test_build_request_shape() {
    let config = AppConfig {
        model: "m1".to_string(),
        temperature: Some(Temperature { ten_thousandths: 7000 }),
        ..AppConfig::default()
    };
    let req = build_request(&config, "hello there".to_string());
    assert_eq!(req.model, "m1");
    assert_eq!(req.messages.len(), 1);
    assert_eq!(req.messages[0].role, "user");
    assert_eq!(req.messages[0].content, "hello there");
    assert!(req.stream);
    assert_eq!(req.temperature, Some(Temperature { ten_thousandths: 7000 }));
}
