//! The subject assembler: composes type, optional scope, bang and summary
//! into the canonical subject line and enforces the length ceiling.
use vstd::prelude::*;

use crate::errors::{ErrorModel, ValidationError, res_models, unit_res_models};
use crate::text::{chars_of, push_all, remove_all, remove_all_vec, string_from_chars};
use crate::types::{BreakingNote, CommitScope, CommitSummary, CommitType};

verus! {

/// Characters allowed in a subject line.
pub const SUBJECT_MAX_LEN: usize = 50;

/// The canonical subject text: `type(scope)!: summary` when a scope is
/// present, else `type!: summary`, the bang present iff `bang` holds.
pub open spec fn subject_text(
    t: CommitType,
    scope: Option<Seq<char>>,
    summary: Seq<char>,
    bang: bool,
) -> Seq<char> {
    let b: Seq<char> = if bang {
        seq!['!']
    } else {
        Seq::empty()
    };
    match scope {
        Some(sc) => t.spec_str() + seq!['('] + sc + seq![')'] + b + seq![':', ' '] + summary,
        None => t.spec_str() + b + seq![':', ' '] + summary,
    }
}

/// The characters left for the summary in an over-long subject: the limit
/// less the length of the subject with every occurrence of the summary text
/// removed, saturating at zero.
pub open spec fn subject_budget(subject: Seq<char>, summary: Seq<char>) -> nat {
    let p = remove_all(subject, summary).len();
    if p <= SUBJECT_MAX_LEN {
        (SUBJECT_MAX_LEN - p) as nat
    } else {
        0
    }
}

/// A subject within the length ceiling passes; a longer one fails with its
/// length, the remaining summary budget, and the subject itself.
pub open spec fn spec_subject_len_check(subject: Seq<char>, summary: Seq<char>) -> Result<
    (),
    ErrorModel,
> {
    if subject.len() <= SUBJECT_MAX_LEN {
        Ok(())
    } else {
        Err(
            ErrorModel::SubjectTooLong {
                len: subject.len(),
                budget: subject_budget(subject, summary),
                subject,
            },
        )
    }
}

/// Subject construction: the canonical text when it fits, `SubjectTooLong`
/// otherwise.
pub open spec fn spec_subject_new(
    t: CommitType,
    scope: Option<Seq<char>>,
    summary: Seq<char>,
    bang: bool,
) -> Result<Seq<char>, ErrorModel> {
    let s = subject_text(t, scope, summary, bang);
    match spec_subject_len_check(s, summary) {
        Ok(_) => Ok(s),
        Err(e) => Err(e),
    }
}

/// The view of an optional scope argument.
pub open spec fn scope_views(scope: Option<&CommitScope>) -> Option<Seq<char>> {
    match scope {
        Some(sc) => Some(sc@),
        None => None,
    }
}

/// A validated subject line.
#[derive(Debug, Clone)]
pub struct CommitSubject(String);

impl View for CommitSubject {
    type V = Seq<char>;

    closed spec fn view(&self) -> Seq<char> {
        self.0@
    }
}

pub(crate) fn subject_from_parts(
    commit_type: CommitType,
    scope: Option<&Vec<char>>,
    summary: &Vec<char>,
    bang: bool,
) -> (r: Result<Vec<char>, ValidationError>)
    ensures
        res_models(
            r,
            spec_subject_new(
                commit_type,
                match scope {
                    Some(sc) => Some(sc@),
                    None => None,
                },
                summary@,
                bang,
            ),
        ),
{
    let mut v: Vec<char> = chars_of(commit_type.as_str());
    match scope {
        Some(sc) => {
            v.push('(');
            push_all(&mut v, sc);
            v.push(')');
        },
        None => {},
    }
    if bang {
        v.push('!');
    }
    v.push(':');
    v.push(' ');
    push_all(&mut v, summary);
    proof {
        assert(v@ =~= subject_text(
            commit_type,
            match scope {
                Some(sc) => Some(sc@),
                None => None,
            },
            summary@,
            bang,
        ));
    }
    if v.len() > SUBJECT_MAX_LEN {
        let p = remove_all_vec(&v, summary);
        let budget = if p.len() <= SUBJECT_MAX_LEN {
            SUBJECT_MAX_LEN - p.len()
        } else {
            0
        };
        return Err(
            ValidationError::SubjectTooLong {
                len: v.len(),
                budget,
                subject: string_from_chars(&v),
            },
        );
    }
    Ok(v)
}

impl CommitSubject {
    /// Compose a subject from validated parts; the bang appears iff a
    /// breaking note is present.
    pub fn new(
        commit_type: CommitType,
        scope: Option<&CommitScope>,
        summary: &CommitSummary,
        breaking_note: Option<&BreakingNote>,
    ) -> (r: Result<CommitSubject, ValidationError>)
        ensures
            res_models(
                r,
                spec_subject_new(
                    commit_type,
                    scope_views(scope),
                    summary@,
                    breaking_note is Some,
                ),
            ),
    {
        let scope_chars = match scope {
            Some(sc) => Some(chars_of(sc.as_str())),
            None => None,
        };
        let summary_chars = chars_of(summary.as_str());
        let bang = breaking_note.is_some();
        match subject_from_parts(
            commit_type,
            match &scope_chars {
                Some(sc) => Some(sc),
                None => None,
            },
            &summary_chars,
            bang,
        ) {
            Ok(v) => Ok(CommitSubject(string_from_chars(&v))),
            Err(e) => Err(e),
        }
    }

    pub fn as_str(&self) -> (r: &str)
        ensures
            r@ == self@,
    {
        self.0.as_str()
    }
}

} // verus!
