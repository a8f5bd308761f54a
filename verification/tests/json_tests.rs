use ai_cli::json::parse_frame_chars;

fn parse(s: &str) -> Option<Vec<Option<String>>> {
    let chars: Vec<char> = s.chars().collect();
    parse_frame_chars(&chars)
        .map(|v| v.into_iter().map(|o| o.map(|c| c.into_iter().collect())).collect())
}

#[test]
fn test_minimal_frame() {
    assert_eq!(parse("{\"choices\":[]}"), Some(vec![]));
}

#[test]
fn test_whitespace_everywhere() {
    let r = parse(" \t{ \"choices\" : [ { \"delta\" : { \"content\" : \"x\" } } ] }\r ");
    assert_eq!(r, Some(vec![Some("x".to_string())]));
}

#[test]
fn test_content_null_and_absent() {
    assert_eq!(
        parse("{\"choices\":[{\"delta\":{\"content\":null}},{\"delta\":{}}]}"),
        Some(vec![None, None])
    );
}

#[test]
fn test_duplicate_choices_rejected() {
    assert_eq!(parse("{\"choices\":[],\"choices\":[]}"), None);
}

#[test]
fn test_duplicate_content_rejected() {
    assert_eq!(
        parse("{\"choices\":[{\"delta\":{\"content\":\"a\",\"content\":\"b\"}}]}"),
        None
    );
}

#[test]
fn test_missing_delta_rejected() {
    assert_eq!(parse("{\"choices\":[{\"index\":0}]}"), None);
}

#[test]
fn test_wrong_types_rejected() {
    assert_eq!(parse("{\"choices\":{}}"), None);
    assert_eq!(parse("{\"choices\":[{\"delta\":[]}]}"), None);
    assert_eq!(parse("{\"choices\":[{\"delta\":{\"content\":5}}]}"), None);
    assert_eq!(parse("[]"), None);
    assert_eq!(parse("null"), None);
}

#[test]
fn test_unknown_fields_of_every_kind() {
    let r = parse(
        "{\"a\":-12.5e-3,\"b\":[true,false,null],\"c\":{\"d\":\"s\",\"e\":{}},\"choices\":[{\"delta\":{\"content\":\"k\"},\"z\":0}],\"f\":\"tail\"}",
    );
    assert_eq!(r, Some(vec![Some("k".to_string())]));
}

#[test]
fn test_number_syntax() {
    // Leading zeros are not JSON.
    assert_eq!(parse("{\"n\":01,\"choices\":[]}"), None);
    // A dot needs digits after it.
    assert_eq!(parse("{\"n\":1.,\"choices\":[]}"), None);
    // A bare minus is not a number.
    assert_eq!(parse("{\"n\":-,\"choices\":[]}"), None);
    // Well-formed numbers pass.
    assert_eq!(parse("{\"n\":-0.25E+10,\"choices\":[]}"), Some(vec![]));
}

#[test]
fn test_lone_surrogate_rejected() {
    assert_eq!(parse("{\"choices\":[{\"delta\":{\"content\":\"\\uD800\"}}]}"), None);
    assert_eq!(parse("{\"choices\":[{\"delta\":{\"content\":\"\\uDC00x\"}}]}"), None);
}

#[test]
fn test_surrogate_pair_accepted() {
    let r = parse("{\"choices\":[{\"delta\":{\"content\":\"\\uD83D\\uDE00\"}}]}");
    assert_eq!(r, Some(vec![Some("\u{1F600}".to_string())]));
}

#[test]
fn test_unescaped_control_char_rejected() {
    assert_eq!(parse("{\"choices\":[{\"delta\":{\"content\":\"a\u{0001}b\"}}]}"), None);
}

#[test]
fn test_unterminated_string_rejected() {
    assert_eq!(parse("{\"choices\":[{\"delta\":{\"content\":\"abc"), None);
}

#[test]
fn test_trailing_comma_rejected() {
    assert_eq!(parse("{\"choices\":[],}"), None);
    assert_eq!(parse("{\"choices\":[{\"delta\":{}},]}"), None);
}

#[test]
fn test_nesting_budget() {
    // An unknown field may nest deeply, up to the budget.
    let mut deep = String::from("{\"a\":");
    deep.push_str(&"[".repeat(100));
    deep.push_str(&"]".repeat(100));
    deep.push_str(",\"choices\":[]}");
    assert_eq!(parse(&deep), Some(vec![]));

    let mut too_deep = String::from("{\"a\":");
    too_deep.push_str(&"[".repeat(200));
    too_deep.push_str(&"]".repeat(200));
    too_deep.push_str(",\"choices\":[]}");
    assert_eq!(parse(&too_deep), None);
}

#[test]
fn test_escaped_key_matches() {
    // Keys are compared after escape decoding.
    let r = parse("{\"\\u0063hoices\":[{\"delta\":{\"content\":\"e\"}}]}");
    assert_eq!(r, Some(vec![Some("e".to_string())]));
}
