use vstd::prelude::*;

mod errors;
mod laws;
mod message;
mod subject;
mod text;
mod types;

pub use errors::ErrorModel;
pub use errors::ValidationError;
pub use message::has_non_empty_body;
pub use message::is_autosquash_subject;
pub use message::new_commit_message;
pub use message::parse_subject_line;
pub use message::split_body_and_breaking_footer;
pub use message::validate_commit_message;
pub use message::validate_subject_length;
pub use subject::CommitSubject;
pub use types::BreakingNote;
pub use types::CommitBody;
pub use types::CommitScope;
pub use types::CommitSummary;
pub use types::CommitType;
