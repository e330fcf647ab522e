//! Content-safety pipeline for free-text user input.
//!
//! Every piece of user text goes through two steps before it is stored: banned
//! terms are masked (`masker`, over the term list of `terms`), then the markup
//! is sanitized against an allow-list (`sanitizer`). `pipeline` puts the two
//! together. Stored text is sanitized once more on its way out.
//!
//! All functions here are pure: reading the term list from its source, sharing
//! the store between requests and talking to clients are left to the caller.

pub mod headers;
pub mod masker;
pub mod pagination;
pub mod patterns;
pub mod pipeline;
pub mod sanitizer;
pub mod terms;
pub mod text;

pub use crate::masker::filter_sensitive_words;
pub use crate::pagination::PaginationParams;
pub use crate::patterns::filter_xss_patterns;
pub use crate::pipeline::{
    reload_filter, submit, test_filter, ContentError, ContentSubmission, CreateCommentRequest,
    CreatePostRequest, ReloadResponse, SanitizedContent, TestFilterRequest, TestFilterResponse,
};
pub use crate::sanitizer::{sanitize_content, sanitize_for_db, AllowListPolicy};
pub use crate::terms::{
    load_sensitive_words, parse_term_list, reload_sensitive_words, SourceUnavailable,
    TermListStore, TermSet,
};
