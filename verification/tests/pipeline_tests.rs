use content_safety::pagination::PaginationParams;
use content_safety::pipeline::{
    reload_filter, run_pipeline, sanitize_stored, submit, test_filter, validate_content,
    ContentError, ContentSubmission, CreateCommentRequest, CreatePostRequest, TestFilterRequest,
    COMMENT_MAX_LEN, POST_MAX_LEN,
};
use content_safety::terms::{parse_term_list, SourceUnavailable, TermListStore};

#[test]
fn pipeline_masks_then_sanitizes() {
    let terms = parse_term_list("国家\n国家机密");
    let out = run_pipeline("这里有<b>国家机密</b>\n<script>alert(1)</script>", Some(&terms));
    assert_eq!(out.as_str(), "这里有<b>****</b><br>");
}

#[test]
fn pipeline_finds_terms_that_hold_markup_characters() {
    // Masking sees the text as the user wrote it, before "<" is escaped.
    let terms = parse_term_list("a<b");
    assert_eq!(run_pipeline("x a<b y", Some(&terms)).as_str(), "x *** y");
}

#[test]
fn pipeline_without_snapshot_still_sanitizes() {
    let out = run_pipeline("国家机密<script>x</script>", None);
    assert_eq!(out.as_str(), "国家机密");
}

#[test]
fn submit_runs_the_pipeline_on_the_submission() {
    let terms = parse_term_list("bad");
    let submission = match ContentSubmission::new("a bad <i>word</i>".to_string(), POST_MAX_LEN) {
        Ok(submission) => submission,
        Err(_) => panic!("acceptable content was rejected"),
    };
    assert_eq!(submission.as_str(), "a bad <i>word</i>");
    assert_eq!(submit(&submission, Some(&terms)).into_string(), "a *** <i>word</i>");
}

#[test]
fn stored_text_is_sanitized_again() {
    assert_eq!(sanitize_stored("ok<script>x</script>").as_str(), "ok");
    assert_eq!(sanitize_stored("a<br>b").as_str(), "a<br>b");
}

#[test]
fn blank_content_is_rejected() {
    assert_eq!(validate_content("", 10), Err(ContentError::Empty));
    assert_eq!(validate_content("   \n\t", 10), Err(ContentError::Empty));
    assert_eq!(validate_content("\u{3000}", 10), Err(ContentError::Empty));
    // Blank content is reported as empty also where it is too long.
    assert_eq!(validate_content("     ", 2), Err(ContentError::Empty));
}

#[test]
fn long_content_is_rejected() {
    assert_eq!(validate_content("abc", 2), Err(ContentError::TooLong));
    assert_eq!(validate_content("abc", 3), Ok(()));
    assert_eq!(validate_content(" a ", 3), Ok(()));
    assert_eq!(validate_content(" a  ", 3), Err(ContentError::TooLong));
}

#[test]
fn length_is_counted_in_scalar_values() {
    // Three characters, nine bytes.
    assert_eq!(validate_content("国家机", 3), Ok(()));
    assert_eq!(validate_content("国家机密", 3), Err(ContentError::TooLong));
}

#[test]
fn post_and_comment_limits() {
    assert_eq!(POST_MAX_LEN, 5000);
    assert_eq!(COMMENT_MAX_LEN, 1000);
    let post = CreatePostRequest { content: "国".repeat(5000) };
    assert!(post.into_submission().is_ok());
    let post = CreatePostRequest { content: "国".repeat(5001) };
    assert_eq!(post.into_submission().err(), Some(ContentError::TooLong));
    let post = CreatePostRequest { content: "  ".to_string() };
    assert_eq!(post.into_submission().err(), Some(ContentError::Empty));
    let comment = CreateCommentRequest { content: "a".repeat(1000) };
    assert!(comment.into_submission().is_ok());
    let comment = CreateCommentRequest { content: "a".repeat(1001) };
    assert_eq!(comment.into_submission().err(), Some(ContentError::TooLong));
    let comment = CreateCommentRequest { content: String::new() };
    assert_eq!(comment.into_submission().err(), Some(ContentError::Empty));
}

#[test]
fn probe_returns_the_original_and_the_pipeline_result() {
    let terms = parse_term_list("国家\n国家机密");
    let response = test_filter(
        TestFilterRequest { content: "这里有国家机密和<u>国家</u>信息".to_string() },
        Some(&terms),
    );
    assert_eq!(response.original, "这里有国家机密和<u>国家</u>信息");
    assert_eq!(response.filtered, "这里有****和**信息");
}

#[test]
fn reload_filter_answers_with_the_count() {
    let mut store = TermListStore::start(Ok(String::new()));
    let answer = reload_filter(&mut store, Ok("a\nb\n# c\n\nb".to_string()));
    match answer {
        Ok(response) => {
            assert!(response.success);
            assert_eq!(response.message, "成功重新加载敏感词列表");
            assert_eq!(response.count, Some(2));
        },
        Err(_) => panic!("a successful read gave a failure"),
    }
    assert_eq!(store.current().len(), 2);
}

#[test]
fn reload_filter_answers_with_the_failure() {
    let mut store = TermListStore::start(Ok("kept".to_string()));
    let answer = reload_filter(
        &mut store,
        Err(SourceUnavailable { reason: "No such file or directory (os error 2)".to_string() }),
    );
    match answer {
        Ok(_) => panic!("a failed read gave an answer of success"),
        Err(message) => {
            assert_eq!(message, "加载敏感词列表失败: No such file or directory (os error 2)")
        },
    }
    assert_eq!(store.current().len(), 1);
    assert!(store.current().contains("kept"));
}

#[test]
fn pagination_defaults() {
    let params = PaginationParams::default();
    assert_eq!(params.page, Some(1));
    assert_eq!(params.per_page, Some(20));
    let unset = PaginationParams { page: None, per_page: None };
    assert_eq!(unset.page(), 1);
    assert_eq!(unset.page_size(), 20);
    assert_eq!(unset.offset(), Some(0));
}

#[test]
fn pagination_offset() {
    let params = PaginationParams { page: Some(3), per_page: Some(20) };
    assert_eq!(params.page(), 3);
    assert_eq!(params.page_size(), 20);
    assert_eq!(params.offset(), Some(40));
    let params = PaginationParams { page: Some(0), per_page: Some(7) };
    assert_eq!(params.offset(), Some(-7));
    let params = PaginationParams { page: Some(i64::MAX), per_page: Some(2) };
    assert_eq!(params.offset(), None);
    let params = PaginationParams { page: Some(i64::MIN), per_page: Some(0) };
    assert_eq!(params.offset(), Some(0));
    let params = PaginationParams { page: Some(i64::MIN), per_page: Some(1) };
    assert_eq!(params.offset(), None);
}
