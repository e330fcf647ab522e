//! The safety pipeline: what every piece of user text goes through before it is
//! stored, and once more before it is sent out.
//!
//! Inbound text is masked first, so that banned terms are found in what the
//! user wrote, and sanitized last, so that what is stored is safe markup.

use crate::masker::{filter_sensitive_words, lemma_mask_of_empty, mask_all};
use crate::sanitizer::{sanitize_content, sanitized};
use crate::terms::{
    listed_terms, reload_sensitive_words, SourceUnavailable, TermListStore, TermSet,
};
use crate::text::{chars_of, trim, trim_bounds};
use vstd::prelude::*;
use vstd::string::StringExecFns;

verus! {

/// The most scalar values that the body of a post may have.
pub const POST_MAX_LEN: usize = 5000;

/// The most scalar values that the body of a comment may have.
pub const COMMENT_MAX_LEN: usize = 1000;

/// Why content is not accepted.
#[derive(Clone, Copy, Debug, PartialEq, Eq, Structural)]
pub enum ContentError {
    /// The content is empty or holds whitespace only.
    Empty,
    /// The content is longer than its kind allows.
    TooLong,
}

/// `text` is empty or holds whitespace only.
pub open spec fn is_blank(text: Seq<char>) -> bool {
    trim(text).len() == 0
}

/// Whether content of at most `max_len` scalar values may be `text`.
pub open spec fn content_verdict(text: Seq<char>, max_len: int) -> Result<(), ContentError> {
    if is_blank(text) {
        Err(ContentError::Empty)
    } else if text.len() > max_len {
        Err(ContentError::TooLong)
    } else {
        Ok(())
    }
}

/// Checks content against the rules for its kind: it must not be blank, and it
/// must not be longer than `max_len` scalar values.
pub fn validate_content(content: &str, max_len: usize) -> (verdict: Result<(), ContentError>)
    ensures
        verdict == content_verdict(content@, max_len as int),
{
    let text = chars_of(content);
    let (from, to) = trim_bounds(&text, 0, text.len());
    assert(text@.subrange(0, text.len() as int) =~= text@);
    if from == to {
        Err(ContentError::Empty)
    } else if text.len() > max_len {
        Err(ContentError::TooLong)
    } else {
        Ok(())
    }
}

/// User text on its way into the pipeline, with the length limit of its kind.
pub struct ContentSubmission {
    text: String,
    max_len: usize,
}

impl ContentSubmission {
    /// The text as the user wrote it.
    pub closed spec fn text(&self) -> Seq<char> {
        self.text@
    }

    /// The most scalar values that the text may have.
    pub closed spec fn max_len(&self) -> int {
        self.max_len as int
    }

    /// The text is not blank and not longer than its limit. This holds of every
    /// submission that executable code can hold.
    #[verifier::type_invariant]
    pub open spec fn accepted(&self) -> bool {
        content_verdict(self.text(), self.max_len()) is Ok
    }

    /// Accepts `text` as a submission, unless it is blank or longer than
    /// `max_len` scalar values.
    pub fn new(text: String, max_len: usize) -> (made: Result<ContentSubmission, ContentError>)
        ensures
            match made {
                Ok(submission) => {
                    &&& submission.accepted()
                    &&& submission.text() == text@
                    &&& submission.max_len() == max_len
                },
                Err(error) => content_verdict(text@, max_len as int) == Err::<(), ContentError>(
                    error,
                ),
            },
    {
        match validate_content(text.as_str(), max_len) {
            Ok(()) => Ok(ContentSubmission { text, max_len }),
            Err(error) => Err(error),
        }
    }

    /// The text as the user wrote it.
    pub fn as_str(&self) -> (text: &str)
        ensures
            text@ == self.text(),
    {
        self.text.as_str()
    }
}

/// Text that has gone through the sanitizer.
pub struct SanitizedContent {
    text: String,
}

impl SanitizedContent {
    /// The sanitized text.
    pub closed spec fn text(&self) -> Seq<char> {
        self.text@
    }

    /// The sanitized text.
    pub fn as_str(&self) -> (text: &str)
        ensures
            text@ == self.text(),
    {
        self.text.as_str()
    }

    /// The sanitized text, owned.
    pub fn into_string(self) -> (text: String)
        ensures
            text@ == self.text(),
    {
        self.text
    }
}

/// `raw` as masking leaves it: masked by the terms of the snapshot in their
/// order, or unchanged where there is no snapshot.
pub open spec fn masked(raw: Seq<char>, snapshot: Option<&TermSet>) -> Seq<char> {
    match snapshot {
        Some(terms) => mask_all(raw, terms.order()),
        None => raw,
    }
}

/// What the pipeline makes of `raw`: masked first, then sanitized.
pub open spec fn pipeline_output(raw: Seq<char>, snapshot: Option<&TermSet>) -> Seq<char> {
    sanitized(masked(raw, snapshot))
}

/// The pipeline makes the empty text of the empty text, whatever the terms.
pub proof fn lemma_pipeline_of_empty(snapshot: Option<&TermSet>)
    ensures
        pipeline_output(Seq::<char>::empty(), snapshot) == Seq::<char>::empty(),
{
    if let Some(terms) = snapshot {
        lemma_mask_of_empty(terms.order());
    }
}

/// Runs text through the pipeline: banned terms are masked, then the markup is
/// sanitized.
pub fn run_pipeline(raw: &str, snapshot: Option<&TermSet>) -> (out: SanitizedContent)
    ensures
        out.text() == pipeline_output(raw@, snapshot),
{
    let masked = filter_sensitive_words(raw, snapshot);
    SanitizedContent { text: sanitize_content(masked.as_str()) }
}

/// Takes a submission through the pipeline, ready to be stored.
pub fn submit(raw: &ContentSubmission, snapshot: Option<&TermSet>) -> (out: SanitizedContent)
    ensures
        out.text() == pipeline_output(raw.text(), snapshot),
{
    run_pipeline(raw.as_str(), snapshot)
}

/// Sanitizes stored text once more on its way out, whatever it went through
/// when it was stored.
pub fn sanitize_stored(stored: &str) -> (out: SanitizedContent)
    ensures
        out.text() == sanitized(stored@),
{
    SanitizedContent { text: sanitize_content(stored) }
}

/// A request to create a post.
pub struct CreatePostRequest {
    /// The body of the post.
    pub content: String,
}

impl CreatePostRequest {
    /// The request as a submission, if its content is acceptable for a post.
    pub fn into_submission(self) -> (made: Result<ContentSubmission, ContentError>)
        ensures
            match made {
                Ok(submission) => {
                    &&& submission.accepted()
                    &&& submission.text() == self.content@
                    &&& submission.max_len() == POST_MAX_LEN
                },
                Err(error) => content_verdict(self.content@, POST_MAX_LEN as int) == Err::<
                    (),
                    ContentError,
                >(error),
            },
    {
        ContentSubmission::new(self.content, POST_MAX_LEN)
    }

    /// Why a post is rejected, in words.
    pub fn rejection_message(error: ContentError) -> (message: String)
        ensures
            message@ == post_rejection(error),
    {
        match error {
            ContentError::Empty => "Post content cannot be empty".to_owned(),
            ContentError::TooLong => "Post content is too long (max 5000 characters)".to_owned(),
        }
    }
}

/// Why a post is rejected, in words.
pub open spec fn post_rejection(error: ContentError) -> Seq<char> {
    match error {
        ContentError::Empty => "Post content cannot be empty"@,
        ContentError::TooLong => "Post content is too long (max 5000 characters)"@,
    }
}

/// Why a comment is rejected, in words.
pub open spec fn comment_rejection(error: ContentError) -> Seq<char> {
    match error {
        ContentError::Empty => "Comment content cannot be empty"@,
        ContentError::TooLong => "Comment content is too long (max 1000 characters)"@,
    }
}

/// A request to create a comment.
pub struct CreateCommentRequest {
    /// The body of the comment.
    pub content: String,
}

impl CreateCommentRequest {
    /// The request as a submission, if its content is acceptable for a comment.
    pub fn into_submission(self) -> (made: Result<ContentSubmission, ContentError>)
        ensures
            match made {
                Ok(submission) => {
                    &&& submission.accepted()
                    &&& submission.text() == self.content@
                    &&& submission.max_len() == COMMENT_MAX_LEN
                },
                Err(error) => content_verdict(self.content@, COMMENT_MAX_LEN as int) == Err::<
                    (),
                    ContentError,
                >(error),
            },
    {
        ContentSubmission::new(self.content, COMMENT_MAX_LEN)
    }

    /// Why a comment is rejected, in words.
    pub fn rejection_message(error: ContentError) -> (message: String)
        ensures
            message@ == comment_rejection(error),
    {
        match error {
            ContentError::Empty => "Comment content cannot be empty".to_owned(),
            ContentError::TooLong => "Comment content is too long (max 1000 characters)".to_owned(),
        }
    }
}

/// A request to try the pipeline on a text without storing anything.
pub struct TestFilterRequest {
    /// The text to try.
    pub content: String,
}

/// The answer to a `TestFilterRequest`.
pub struct TestFilterResponse {
    /// The text as it came.
    pub original: String,
    /// The text as the pipeline leaves it.
    pub filtered: String,
}

/// Tries the pipeline on the text of `request`, under the live term list.
pub fn test_filter(request: TestFilterRequest, snapshot: Option<&TermSet>) -> (response:
    TestFilterResponse)
    ensures
        response.original@ == request.content@,
        response.filtered@ == pipeline_output(request.content@, snapshot),
{
    let filtered = run_pipeline(request.content.as_str(), snapshot).into_string();
    TestFilterResponse { original: request.content, filtered }
}

/// The answer to a successful reload of the term list.
pub struct ReloadResponse {
    /// Whether the reload succeeded.
    pub success: bool,
    /// What happened, in words.
    pub message: String,
    /// The number of terms now in the list.
    pub count: Option<usize>,
}

/// The message of a successful reload.
pub open spec fn reload_succeeded_message() -> Seq<char> {
    "成功重新加载敏感词列表"@
}

/// The message of a failed reload: a fixed opening, then what the source
/// reported.
pub open spec fn reload_failed_message(reason: Seq<char>) -> Seq<char> {
    "加载敏感词列表失败: "@ + reason
}

/// Reloads the term list and answers the administrator.
///
/// If the source was read, the store takes the new set and the answer carries
/// the number of its terms. If not, the store keeps its set and the answer is
/// the failure message.
pub fn reload_filter(store: &mut TermListStore, source: Result<String, SourceUnavailable>) -> (answer:
    Result<ReloadResponse, String>)
    ensures
        final(store).snapshot().wf(),
        match source {
            Ok(text) => {
                &&& final(store)@ == listed_terms(text@)
                &&& answer is Ok
                &&& answer->Ok_0.success
                &&& answer->Ok_0.message@ == reload_succeeded_message()
                &&& answer->Ok_0.count == Some(listed_terms(text@).len() as usize)
            },
            Err(failure) => {
                &&& *final(store) == *old(store)
                &&& answer is Err
                &&& answer->Err_0@ == reload_failed_message(failure.reason@)
            },
        },
{
    match reload_sensitive_words(store, source) {
        Ok(count) => Ok(
            ReloadResponse {
                success: true,
                message: "成功重新加载敏感词列表".to_owned(),
                count: Some(count),
            },
        ),
        Err(failure) => {
            let mut message = "加载敏感词列表失败: ".to_owned();
            message.append(failure.reason.as_str());
            Err(message)
        },
    }
}

} // verus!
