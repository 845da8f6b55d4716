//! The error taxonomy: one variant per violated rule, each carrying the
//! context a caller needs to render it, together with its mathematical model.
use vstd::prelude::*;

verus! {

/// Every way validation can fail. Variants carry the raw snippets, computed
/// lengths and budgets callers may depend on.
#[derive(Debug)]
pub enum ValidationError {
    CommitTypeInvalid { raw: String, allowed: String },
    SummaryEmpty,
    SummaryMultiline,
    SummaryEndsWithPeriod,
    ScopeMultiline,
    ScopeHasClosingParen,
    ScopeEmpty,
    BodyEmpty,
    BreakingNoteEmpty,
    BreakingNoteMultiline,
    BodyLineTooLong { len: usize, line: String },
    SubjectTooLong { len: usize, budget: usize, subject: String },
    MessageSubjectMissing,
    MessageSubjectInvalidFormat { subject: String },
    MessageMissingBlankLineAfterSubject,
    MessageBreakingFooterNotLast,
    MessageBreakingFooterMissingBang,
    MessageBangWithoutBreakingFooter,
}

/// The model of a `ValidationError`: the same variants over character
/// sequences and unbounded integers.
pub enum ErrorModel {
    CommitTypeInvalid { raw: Seq<char>, allowed: Seq<char> },
    SummaryEmpty,
    SummaryMultiline,
    SummaryEndsWithPeriod,
    ScopeMultiline,
    ScopeHasClosingParen,
    ScopeEmpty,
    BodyEmpty,
    BreakingNoteEmpty,
    BreakingNoteMultiline,
    BodyLineTooLong { len: nat, line: Seq<char> },
    SubjectTooLong { len: nat, budget: nat, subject: Seq<char> },
    MessageSubjectMissing,
    MessageSubjectInvalidFormat { subject: Seq<char> },
    MessageMissingBlankLineAfterSubject,
    MessageBreakingFooterNotLast,
    MessageBreakingFooterMissingBang,
    MessageBangWithoutBreakingFooter,
}

impl View for ValidationError {
    type V = ErrorModel;

    open spec fn view(&self) -> ErrorModel {
        match self {
            ValidationError::CommitTypeInvalid { raw, allowed } => ErrorModel::CommitTypeInvalid {
                raw: raw@,
                allowed: allowed@,
            },
            ValidationError::SummaryEmpty => ErrorModel::SummaryEmpty,
            ValidationError::SummaryMultiline => ErrorModel::SummaryMultiline,
            ValidationError::SummaryEndsWithPeriod => ErrorModel::SummaryEndsWithPeriod,
            ValidationError::ScopeMultiline => ErrorModel::ScopeMultiline,
            ValidationError::ScopeHasClosingParen => ErrorModel::ScopeHasClosingParen,
            ValidationError::ScopeEmpty => ErrorModel::ScopeEmpty,
            ValidationError::BodyEmpty => ErrorModel::BodyEmpty,
            ValidationError::BreakingNoteEmpty => ErrorModel::BreakingNoteEmpty,
            ValidationError::BreakingNoteMultiline => ErrorModel::BreakingNoteMultiline,
            ValidationError::BodyLineTooLong { len, line } => ErrorModel::BodyLineTooLong {
                len: *len as nat,
                line: line@,
            },
            ValidationError::SubjectTooLong { len, budget, subject } => ErrorModel::SubjectTooLong {
                len: *len as nat,
                budget: *budget as nat,
                subject: subject@,
            },
            ValidationError::MessageSubjectMissing => ErrorModel::MessageSubjectMissing,
            ValidationError::MessageSubjectInvalidFormat { subject } => (
            ErrorModel::MessageSubjectInvalidFormat { subject: subject@ }),
            ValidationError::MessageMissingBlankLineAfterSubject => (
            ErrorModel::MessageMissingBlankLineAfterSubject),
            ValidationError::MessageBreakingFooterNotLast => ErrorModel::MessageBreakingFooterNotLast,
            ValidationError::MessageBreakingFooterMissingBang => (
            ErrorModel::MessageBreakingFooterMissingBang),
            ValidationError::MessageBangWithoutBreakingFooter => (
            ErrorModel::MessageBangWithoutBreakingFooter),
        }
    }
}

/// An executable result models a specified one: success values agree through
/// their views and errors agree through theirs.
pub open spec fn res_models<T: View>(
    r: Result<T, ValidationError>,
    m: Result<<T as View>::V, ErrorModel>,
) -> bool {
    match (r, m) {
        (Ok(v), Ok(mv)) => v@ == mv,
        (Err(e), Err(me)) => e@ == me,
        _ => false,
    }
}

/// As `res_models`, for results that carry no value.
pub open spec fn unit_res_models(r: Result<(), ValidationError>, m: Result<(), ErrorModel>) -> bool {
    match (r, m) {
        (Ok(_), Ok(_)) => true,
        (Err(e), Err(me)) => e@ == me,
        _ => false,
    }
}

} // verus!
