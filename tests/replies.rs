use commit_analyzer::reply::{clean_response, decide_attempt, ErrorKind, GenerationError, RetryDecision};

fn err(kind: ErrorKind, detail: &str) -> GenerationError {
    GenerationError { kind, detail: detail.to_string() }
}

#[test]
fn closing_tag_keeps_what_follows() {
    assert_eq!(clean_response("<think>internal</think>kept text"), "kept text");
    assert_eq!(clean_response("<think>internal</think>\n\n   kept text  \n"), "kept text");
}

#[test]
fn opening_tag_keeps_what_precedes() {
    assert_eq!(clean_response("prefix<think>dropped"), "prefix");
    assert_eq!(clean_response("prefix   <think>dropped"), "prefix");
}

#[test]
fn thinking_tags_are_stripped_too() {
    assert_eq!(clean_response("<thinking>x</thinking> answer"), "answer");
    assert_eq!(clean_response("answer <thinking>unfinished"), "answer");
}

#[test]
fn plain_reply_is_trimmed() {
    assert_eq!(clean_response("  \n plain text \t"), "plain text");
    assert_eq!(clean_response(""), "");
}

#[test]
fn reply_with_text_is_accepted() {
    match decide_attempt(1, 3, Ok("hi".to_string())) {
        RetryDecision::Accept(t) => assert_eq!(t, "hi"),
        _ => panic!("should be accepted"),
    }
}

#[test]
fn blank_reply_is_retried_then_fails() {
    match decide_attempt(1, 3, Ok("  \n".to_string())) {
        RetryDecision::Retry(e) => assert_eq!(e.kind, ErrorKind::EmptyResponse),
        _ => panic!("should be retried"),
    }
    match decide_attempt(3, 3, Ok(String::new())) {
        RetryDecision::Fail(e) => assert_eq!(e.kind, ErrorKind::EmptyResponse),
        _ => panic!("should fail"),
    }
}

#[test]
fn each_error_is_retried_while_attempts_remain() {
    for kind in [ErrorKind::Transport, ErrorKind::BadStatus, ErrorKind::Decode] {
        match decide_attempt(2, 3, Err(err(kind, "x"))) {
            RetryDecision::Retry(e) => assert_eq!(e.kind, kind),
            _ => panic!("should be retried"),
        }
        match decide_attempt(3, 3, Err(err(kind, "x"))) {
            RetryDecision::Fail(e) => {
                assert_eq!(e.kind, kind);
                assert_eq!(e.detail, "x");
            }
            _ => panic!("should fail"),
        }
    }
}

#[test]
fn errors_in_words() {
    assert_eq!(err(ErrorKind::Transport, "refused").describe(), "connection error: refused");
    assert_eq!(err(ErrorKind::BadStatus, "500").describe(), "service error: 500");
    assert_eq!(err(ErrorKind::Decode, "eof").describe(), "undecodable reply: eof");
    assert_eq!(err(ErrorKind::EmptyResponse, "").describe(), "empty reply");
}

#[test]
fn accepted_reply_is_cleaned() {
    match decide_attempt(1, 3, Ok("<think>x</think>\n answer ".to_string())) {
        RetryDecision::Accept(t) => assert_eq!(t, "answer"),
        _ => panic!("should be accepted"),
    }
}

#[test]
fn markup_only_reply_is_accepted_and_cleans_to_nothing() {
    match decide_attempt(1, 3, Ok("<think>pondering</think>  ".to_string())) {
        RetryDecision::Accept(t) => assert_eq!(t, ""),
        _ => panic!("should be accepted"),
    }
    match decide_attempt(3, 3, Ok("<think>".to_string())) {
        RetryDecision::Accept(t) => assert_eq!(t, ""),
        _ => panic!("should be accepted"),
    }
}
