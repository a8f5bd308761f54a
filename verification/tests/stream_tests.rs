use ai_cli::errors::StreamError;
use ai_cli::stream::{check_status, StepOutcome, StreamSession, TransportEvent};

#[test]
fn test_timeout_before_first_chunk_fails() {
    let mut s = StreamSession::new();
    assert!(s.awaiting_first_chunk());
    let out = s.step(TransportEvent::TimedOut);
    assert!(matches!(out, StepOutcome::Failed(StreamError::FirstChunkTimeout)));
}

#[test]
fn test_timeout_after_first_chunk_is_ignored() {
    let mut s = StreamSession::new();
    let out = s.step(TransportEvent::Chunk(b"data: x\n".to_vec()));
    assert!(matches!(out, StepOutcome::Deltas(_)));
    assert!(!s.awaiting_first_chunk());
    let out = s.step(TransportEvent::TimedOut);
    match out {
        StepOutcome::Deltas(evs) => assert!(evs.is_empty()),
        _ => panic!("a late timeout must not fail the stream"),
    }
}

#[test]
fn test_end_before_any_chunk_is_empty_stream() {
    let mut s = StreamSession::new();
    let out = s.step(TransportEvent::Ended);
    assert!(matches!(out, StepOutcome::Failed(StreamError::EmptyStream)));
}

#[test]
fn test_end_after_data_finishes() {
    let mut s = StreamSession::new();
    s.step(TransportEvent::Chunk(b"data: [DONE]\n".to_vec()));
    let out = s.step(TransportEvent::Ended);
    assert!(matches!(out, StepOutcome::Finished));
}

#[test]
fn test_invalid_utf8_chunk_fails_encoding() {
    let mut s = StreamSession::new();
    let out = s.step(TransportEvent::Chunk(vec![0xff, 0xfe, 0x20]));
    assert!(matches!(out, StepOutcome::Failed(StreamError::EncodingError)));
}

#[test]
fn test_chunks_stream_deltas_end_to_end() {
    let mut s = StreamSession::new();
    let mut out = String::new();
    let chunks: Vec<&[u8]> = vec![
        b"data: {\"choices\":[{\"delta\":{\"content\":\"He\"}}]}\n",
        b"data: {\"choices\":[{\"delta\":{\"content\":\"llo\"}}]}\ndata: [DONE]\n",
    ];
    for c in chunks {
        match s.step(TransportEvent::Chunk(c.to_vec())) {
            StepOutcome::Deltas(evs) => {
                for ev in evs {
                    out.push_str(&ev);
                }
            },
            _ => panic!("chunks must stream"),
        }
    }
    assert!(matches!(s.step(TransportEvent::Ended), StepOutcome::Finished));
    assert_eq!(out, "Hello");
}

#[test]
fn test_status_2xx_ok() {
    assert!(check_status(200, String::new()).is_ok());
    assert!(check_status(204, String::new()).is_ok());
    assert!(check_status(299, String::new()).is_ok());
}

#[test]
fn test_status_failure_keeps_code_and_body() {
    match check_status(404, "not found".to_string()) {
        Err(StreamError::HttpStatusError { code, body }) => {
            assert_eq!(code, 404);
            assert_eq!(body, "not found");
        },
        _ => panic!("a 404 must fail"),
    }
    assert!(check_status(199, String::new()).is_err());
    assert!(check_status(300, String::new()).is_err());
    assert!(check_status(500, String::new()).is_err());
}
