use ai_cli::sse::SseDecoder;

#[test]
fn test_single_event_one_chunk() {
    let mut d = SseDecoder::new();
    let evs = d.push("data: {\"choices\":[{\"delta\":{\"content\":\"Hi\"}}]}\n");
    assert_eq!(evs, vec!["Hi".to_string()]);
}

#[test]
fn test_two_chunks_concatenate_to_hello() {
    let mut d = SseDecoder::new();
    let mut out = String::new();
    for ev in d.push("data: {\"choices\":[{\"delta\":{\"content\":\"He\"}}]}\n") {
        out.push_str(&ev);
    }
    for ev in d.push("data: {\"choices\":[{\"delta\":{\"content\":\"llo\"}}]}\n") {
        out.push_str(&ev);
    }
    assert_eq!(out, "Hello");
}

#[test]
fn test_chunk_boundary_independence_every_split() {
    let s = "data: {\"choices\":[{\"delta\":{\"content\":\"Hi\"}}]}\n";
    for cut in 0..=s.len() {
        let mut d = SseDecoder::new();
        let mut evs = d.push(&s[..cut]);
        evs.extend(d.push(&s[cut..]));
        assert_eq!(evs, vec!["Hi".to_string()], "split at {cut}");
    }
}

#[test]
fn test_done_marker_emits_nothing() {
    let mut d = SseDecoder::new();
    let evs = d.push("data: [DONE]\n");
    assert!(evs.is_empty());
    // Decoding continues after the marker.
    let evs = d.push("data: {\"choices\":[{\"delta\":{\"content\":\"x\"}}]}\n");
    assert_eq!(evs, vec!["x".to_string()]);
}

#[test]
fn test_invalid_json_skipped_and_stream_continues() {
    let mut d = SseDecoder::new();
    let evs = d.push("data: {not json}\n");
    assert!(evs.is_empty());
    let evs = d.push("data: {\"choices\":[{\"delta\":{\"content\":\"ok\"}}]}\n");
    assert_eq!(evs, vec!["ok".to_string()]);
}

#[test]
fn test_unterminated_tail_discarded() {
    let mut d = SseDecoder::new();
    // Valid JSON, but the line never completes: no event may be emitted.
    let evs = d.push("data: {\"choices\":[{\"delta\":{\"content\":\"lost\"}}]}");
    assert!(evs.is_empty());
}

#[test]
fn test_tail_completed_by_later_chunk() {
    let mut d = SseDecoder::new();
    assert!(d.push("data: {\"choices\":[{\"delta\":{\"conte").is_empty());
    let evs = d.push("nt\":\"joined\"}}]}\n");
    assert_eq!(evs, vec!["joined".to_string()]);
}

#[test]
fn test_blank_and_other_lines_ignored() {
    let mut d = SseDecoder::new();
    assert!(d.push("\n").is_empty());
    assert!(d.push("event: message\n").is_empty());
    assert!(d.push(": comment\n").is_empty());
    // `data:` without the following space is ignored.
    assert!(d.push("data:{\"choices\":[{\"delta\":{\"content\":\"x\"}}]}\n").is_empty());
}

#[test]
fn test_crlf_line_tolerated() {
    let mut d = SseDecoder::new();
    let evs = d.push("data: {\"choices\":[{\"delta\":{\"content\":\"crlf\"}}]}\r\n");
    assert_eq!(evs, vec!["crlf".to_string()]);
}

#[test]
fn test_empty_payload_ignored() {
    let mut d = SseDecoder::new();
    assert!(d.push("data: \n").is_empty());
}

#[test]
fn test_multiple_choices_emit_in_order() {
    let mut d = SseDecoder::new();
    let evs = d.push(
        "data: {\"choices\":[{\"delta\":{\"content\":\"a\"}},{\"delta\":{\"content\":\"b\"}}]}\n",
    );
    assert_eq!(evs, vec!["a".to_string(), "b".to_string()]);
}

#[test]
fn test_null_and_empty_content_emit_nothing() {
    let mut d = SseDecoder::new();
    let evs = d.push(
        "data: {\"choices\":[{\"delta\":{\"content\":null}},{\"delta\":{\"content\":\"\"}},{\"delta\":{}}]}\n",
    );
    assert!(evs.is_empty());
}

#[test]
fn test_unknown_fields_tolerated() {
    let mut d = SseDecoder::new();
    let evs = d.push(
        "data: {\"id\":\"c-1\",\"created\":171111,\"choices\":[{\"index\":0,\"delta\":{\"role\":\"assistant\",\"content\":\"ok\"},\"finish_reason\":null}],\"extra\":[1,-2.5e3,true,{\"k\":[]}]}\n",
    );
    assert_eq!(evs, vec!["ok".to_string()]);
}

#[test]
fn test_string_escapes_decoded() {
    let mut d = SseDecoder::new();
    let evs = d.push(
        "data: {\"choices\":[{\"delta\":{\"content\":\"a\\nb\\t\\\"q\\\" \\u0041 \\uD83D\\uDE00\"}}]}\n",
    );
    assert_eq!(evs, vec!["a\nb\t\"q\" A \u{1F600}".to_string()]);
}

#[test]
fn test_missing_choices_is_invalid() {
    let mut d = SseDecoder::new();
    assert!(d.push("data: {\"id\":\"x\"}\n").is_empty());
}

#[test]
fn test_trailing_garbage_is_invalid() {
    let mut d = SseDecoder::new();
    assert!(d.push("data: {\"choices\":[]} extra\n").is_empty());
}

#[test]
fn test_frame_count_counts_decoded_frames_only() {
    let mut d = SseDecoder::new();
    d.push("data: {\"choices\":[{\"delta\":{\"content\":\"a\"}}]}\n");
    d.push("data: nonsense\n");
    d.push("other line\n");
    d.push("data: {\"choices\":[]}\n");
    assert_eq!(d.frame_count(), 2);
}
