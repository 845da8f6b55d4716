//! The validated value types: commit type, summary, scope, body and breaking
//! note. Construction is the sole validation gate; no later mutation can
//! violate an invariant.
use vstd::prelude::*;
use vstd::string::StringExecFns;

use crate::errors::{ErrorModel, ValidationError, res_models};
use crate::text::{
    chars_of, collapse_vec, collapse_ws, contains_char, contains_vec, is_blank, is_ws,
    split_lines, split_vec, string_from_chars, trim, trim_vec, views_of,
};

verus! {

/// Characters allowed per body line.
pub const BODY_LINE_MAX_LEN: usize = 72;

/// The closed set of commit types.
#[derive(Debug, Clone, Copy)]
pub enum CommitType {
    Fix,
    Feat,
    Docs,
    Style,
    Refactor,
    Perf,
    Test,
    Build,
    Chore,
    Ci,
    Revert,
}

impl View for CommitType {
    type V = CommitType;

    open spec fn view(&self) -> CommitType {
        *self
    }
}

/// The fixed space-joined list of allowed commit types, in declaration order.
pub open spec fn allowed_list_spec() -> Seq<char> {
    "fix feat docs style refactor perf test build chore ci revert"@
}

/// A commit type parses from its trimmed literal form; anything else is
/// `CommitTypeInvalid` carrying the trimmed input and the allowed list.
pub open spec fn spec_commit_type(raw: Seq<char>) -> Result<CommitType, ErrorModel> {
    let t = trim(raw);
    if t == "fix"@ {
        Ok(CommitType::Fix)
    } else if t == "feat"@ {
        Ok(CommitType::Feat)
    } else if t == "docs"@ {
        Ok(CommitType::Docs)
    } else if t == "style"@ {
        Ok(CommitType::Style)
    } else if t == "refactor"@ {
        Ok(CommitType::Refactor)
    } else if t == "perf"@ {
        Ok(CommitType::Perf)
    } else if t == "test"@ {
        Ok(CommitType::Test)
    } else if t == "build"@ {
        Ok(CommitType::Build)
    } else if t == "chore"@ {
        Ok(CommitType::Chore)
    } else if t == "ci"@ {
        Ok(CommitType::Ci)
    } else if t == "revert"@ {
        Ok(CommitType::Revert)
    } else {
        Err(ErrorModel::CommitTypeInvalid { raw: t, allowed: allowed_list_spec() })
    }
}

impl CommitType {
    /// The literal string form of this commit type.
    pub open spec fn spec_str(self) -> Seq<char> {
        match self {
            CommitType::Fix => "fix"@,
            CommitType::Feat => "feat"@,
            CommitType::Docs => "docs"@,
            CommitType::Style => "style"@,
            CommitType::Refactor => "refactor"@,
            CommitType::Perf => "perf"@,
            CommitType::Test => "test"@,
            CommitType::Build => "build"@,
            CommitType::Chore => "chore"@,
            CommitType::Ci => "ci"@,
            CommitType::Revert => "revert"@,
        }
    }

    pub fn as_str(&self) -> (r: &'static str)
        ensures
            r@ == self.spec_str(),
    {
        match self {
            CommitType::Fix => "fix",
            CommitType::Feat => "feat",
            CommitType::Docs => "docs",
            CommitType::Style => "style",
            CommitType::Refactor => "refactor",
            CommitType::Perf => "perf",
            CommitType::Test => "test",
            CommitType::Build => "build",
            CommitType::Chore => "chore",
            CommitType::Ci => "ci",
            CommitType::Revert => "revert",
        }
    }

    /// The space-joined list of allowed commit types.
    pub fn allowed_list() -> (r: String)
        ensures
            r@ == allowed_list_spec(),
    {
        String::from_str("fix feat docs style refactor perf test build chore ci revert")
    }

    /// Parse a commit type from raw text.
    pub fn new(raw: &str) -> (r: Result<CommitType, ValidationError>)
        ensures
            res_models(r, spec_commit_type(raw@)),
    {
        let v = chars_of(raw);
        commit_type_from_chars(&v)
    }
}

pub(crate) fn commit_type_from_chars(raw: &Vec<char>) -> (r: Result<CommitType, ValidationError>)
    ensures
        res_models(r, spec_commit_type(raw@)),
{
    let t = trim_vec(raw);
    if crate::text::eq_str(&t, "fix") {
        Ok(CommitType::Fix)
    } else if crate::text::eq_str(&t, "feat") {
        Ok(CommitType::Feat)
    } else if crate::text::eq_str(&t, "docs") {
        Ok(CommitType::Docs)
    } else if crate::text::eq_str(&t, "style") {
        Ok(CommitType::Style)
    } else if crate::text::eq_str(&t, "refactor") {
        Ok(CommitType::Refactor)
    } else if crate::text::eq_str(&t, "perf") {
        Ok(CommitType::Perf)
    } else if crate::text::eq_str(&t, "test") {
        Ok(CommitType::Test)
    } else if crate::text::eq_str(&t, "build") {
        Ok(CommitType::Build)
    } else if crate::text::eq_str(&t, "chore") {
        Ok(CommitType::Chore)
    } else if crate::text::eq_str(&t, "ci") {
        Ok(CommitType::Ci)
    } else if crate::text::eq_str(&t, "revert") {
        Ok(CommitType::Revert)
    } else {
        Err(
            ValidationError::CommitTypeInvalid {
                raw: string_from_chars(&t),
                allowed: CommitType::allowed_list(),
            },
        )
    }
}

/// Single-line summary text: non-empty after trimming, internal whitespace
/// collapsed, not ending with a period.
#[derive(Debug, Clone)]
pub struct CommitSummary(String);

impl View for CommitSummary {
    type V = Seq<char>;

    closed spec fn view(&self) -> Seq<char> {
        self.0@
    }
}

/// Trim; reject empty and multi-line input; collapse whitespace runs; reject
/// a trailing period.
pub open spec fn spec_summary(raw: Seq<char>) -> Result<Seq<char>, ErrorModel> {
    let t = trim(raw);
    if t.len() == 0 {
        Err(ErrorModel::SummaryEmpty)
    } else if contains_char(t, '\n') || contains_char(t, '\r') {
        Err(ErrorModel::SummaryMultiline)
    } else {
        let s = collapse_ws(t);
        if s.len() > 0 && s.last() == '.' {
            Err(ErrorModel::SummaryEndsWithPeriod)
        } else {
            Ok(s)
        }
    }
}

pub(crate) fn summary_from_chars(raw: &Vec<char>) -> (r: Result<Vec<char>, ValidationError>)
    ensures
        res_models(r, spec_summary(raw@)),
{
    let t = trim_vec(raw);
    if t.len() == 0 {
        return Err(ValidationError::SummaryEmpty);
    }
    if contains_vec(&t, '\n') || contains_vec(&t, '\r') {
        return Err(ValidationError::SummaryMultiline);
    }
    let s = collapse_vec(&t);
    if s.len() > 0 && s[s.len() - 1] == '.' {
        return Err(ValidationError::SummaryEndsWithPeriod);
    }
    Ok(s)
}

impl CommitSummary {
    /// Parse a summary from raw text.
    pub fn new(raw: &str) -> (r: Result<CommitSummary, ValidationError>)
        ensures
            res_models(r, spec_summary(raw@)),
    {
        let v = chars_of(raw);
        match summary_from_chars(&v) {
            Ok(s) => Ok(CommitSummary(string_from_chars(&s))),
            Err(e) => Err(e),
        }
    }

    pub fn as_str(&self) -> (r: &str)
        ensures
            r@ == self@,
    {
        self.0.as_str()
    }
}

/// Single-line scope text: non-empty, without a closing parenthesis.
#[derive(Debug, Clone)]
pub struct CommitScope(String);

impl View for CommitScope {
    type V = Seq<char>;

    closed spec fn view(&self) -> Seq<char> {
        self.0@
    }
}

pub open spec fn spec_scope(raw: Seq<char>) -> Result<Seq<char>, ErrorModel> {
    let t = trim(raw);
    if t.len() == 0 {
        Err(ErrorModel::ScopeEmpty)
    } else if contains_char(t, '\n') || contains_char(t, '\r') {
        Err(ErrorModel::ScopeMultiline)
    } else if contains_char(t, ')') {
        Err(ErrorModel::ScopeHasClosingParen)
    } else {
        Ok(t)
    }
}

pub(crate) fn scope_from_chars(raw: &Vec<char>) -> (r: Result<Vec<char>, ValidationError>)
    ensures
        res_models(r, spec_scope(raw@)),
{
    let t = trim_vec(raw);
    if t.len() == 0 {
        return Err(ValidationError::ScopeEmpty);
    }
    if contains_vec(&t, '\n') || contains_vec(&t, '\r') {
        return Err(ValidationError::ScopeMultiline);
    }
    if contains_vec(&t, ')') {
        return Err(ValidationError::ScopeHasClosingParen);
    }
    Ok(t)
}

impl CommitScope {
    /// Parse a scope from raw text.
    pub fn new(raw: &str) -> (r: Result<CommitScope, ValidationError>)
        ensures
            res_models(r, spec_scope(raw@)),
    {
        let v = chars_of(raw);
        match scope_from_chars(&v) {
            Ok(s) => Ok(CommitScope(string_from_chars(&s))),
            Err(e) => Err(e),
        }
    }

    pub fn as_str(&self) -> (r: &str)
        ensures
            r@ == self@,
    {
        self.0.as_str()
    }
}

/// The index of the first line longer than the body-line limit, or -1.
pub open spec fn first_long_line(ls: Seq<Seq<char>>) -> int
    decreases ls.len(),
{
    if ls.len() == 0 {
        -1
    } else if ls[0].len() > BODY_LINE_MAX_LEN {
        0
    } else {
        let r = first_long_line(ls.drop_first());
        if r < 0 {
            -1
        } else {
            r + 1
        }
    }
}

pub proof fn lemma_first_long_line(ls: Seq<Seq<char>>)
    ensures
        first_long_line(ls) < 0 ==> forall|i: int|
            0 <= i < ls.len() ==> (#[trigger] ls[i]).len() <= BODY_LINE_MAX_LEN,
        first_long_line(ls) >= 0 ==> 0 <= first_long_line(ls) < ls.len() && ls[first_long_line(
            ls,
        )].len() > BODY_LINE_MAX_LEN && forall|i: int|
            0 <= i < first_long_line(ls) ==> (#[trigger] ls[i]).len() <= BODY_LINE_MAX_LEN,
    decreases ls.len(),
{
    if ls.len() == 0 {
    } else if ls[0].len() > BODY_LINE_MAX_LEN {
    } else {
        lemma_first_long_line(ls.drop_first());
        let r = first_long_line(ls.drop_first());
        if r < 0 {
            assert forall|i: int| 0 <= i < ls.len() implies (#[trigger] ls[i]).len()
                <= BODY_LINE_MAX_LEN by {
                if i > 0 {
                    assert(ls[i] == ls.drop_first()[i - 1]);
                }
            }
        } else {
            assert(ls[r + 1] == ls.drop_first()[r]);
            assert forall|i: int| 0 <= i < r + 1 implies (#[trigger] ls[i]).len()
                <= BODY_LINE_MAX_LEN by {
                if i > 0 {
                    assert(ls[i] == ls.drop_first()[i - 1]);
                }
            }
        }
    }
}

/// Body text: non-empty after trimming, with every line within the length
/// limit; the first offending line is reported.
pub open spec fn spec_body(raw: Seq<char>) -> Result<Seq<char>, ErrorModel> {
    let b = trim(raw);
    if b.len() == 0 {
        Err(ErrorModel::BodyEmpty)
    } else {
        let ls = split_lines(b);
        let i = first_long_line(ls);
        if 0 <= i < ls.len() {
            Err(ErrorModel::BodyLineTooLong { len: ls[i].len(), line: ls[i] })
        } else {
            Ok(b)
        }
    }
}

#[derive(Debug, Clone)]
pub struct CommitBody(String);

impl View for CommitBody {
    type V = Seq<char>;

    closed spec fn view(&self) -> Seq<char> {
        self.0@
    }
}

pub(crate) fn body_from_chars(raw: &Vec<char>) -> (r: Result<Vec<char>, ValidationError>)
    ensures
        res_models(r, spec_body(raw@)),
{
    let b = trim_vec(raw);
    if b.len() == 0 {
        return Err(ValidationError::BodyEmpty);
    }
    let ls = split_vec(&b);
    let mut i: usize = 0;
    while i < ls.len()
        invariant
            0 <= i <= ls@.len(),
            b@ == trim(raw@),
            b@.len() > 0,
            views_of(ls@) == split_lines(b@),
            forall|j: int| 0 <= j < i ==> (#[trigger] views_of(ls@)[j]).len() <= BODY_LINE_MAX_LEN,
        decreases ls@.len() - i,
    {
        let line = &ls[i];
        if line.len() > BODY_LINE_MAX_LEN {
            proof {
                assert(line@ == views_of(ls@)[i as int]);
                lemma_first_long_line(views_of(ls@));
                let r = first_long_line(views_of(ls@));
                if r < 0 {
                    assert(views_of(ls@)[i as int].len() <= BODY_LINE_MAX_LEN);
                } else if r < i {
                    assert(views_of(ls@)[r].len() <= BODY_LINE_MAX_LEN);
                } else if r > i {
                    assert(views_of(ls@)[i as int].len() <= BODY_LINE_MAX_LEN);
                }
                assert(first_long_line(views_of(ls@)) == i as int);
            }
            return Err(
                ValidationError::BodyLineTooLong { len: line.len(), line: string_from_chars(line) },
            );
        }
        i = i + 1;
    }
    proof {
        lemma_first_long_line(views_of(ls@));
        let r = first_long_line(views_of(ls@));
        if r >= 0 {
            assert(views_of(ls@)[r].len() <= BODY_LINE_MAX_LEN);
        }
    }
    Ok(b)
}

impl CommitBody {
    /// Parse a body from raw text.
    pub fn new(raw: &str) -> (r: Result<CommitBody, ValidationError>)
        ensures
            res_models(r, spec_body(raw@)),
    {
        let v = chars_of(raw);
        match body_from_chars(&v) {
            Ok(b) => Ok(CommitBody(string_from_chars(&b))),
            Err(e) => Err(e),
        }
    }

    pub fn as_str(&self) -> (r: &str)
        ensures
            r@ == self@,
    {
        self.0.as_str()
    }
}

/// Single-line breaking-change note text.
#[derive(Debug, Clone)]
pub struct BreakingNote(String);

impl View for BreakingNote {
    type V = Seq<char>;

    closed spec fn view(&self) -> Seq<char> {
        self.0@
    }
}

pub open spec fn spec_note(raw: Seq<char>) -> Result<Seq<char>, ErrorModel> {
    let t = trim(raw);
    if t.len() == 0 {
        Err(ErrorModel::BreakingNoteEmpty)
    } else if contains_char(t, '\n') || contains_char(t, '\r') {
        Err(ErrorModel::BreakingNoteMultiline)
    } else {
        Ok(t)
    }
}

pub(crate) fn note_from_chars(raw: &Vec<char>) -> (r: Result<Vec<char>, ValidationError>)
    ensures
        res_models(r, spec_note(raw@)),
{
    let t = trim_vec(raw);
    if t.len() == 0 {
        return Err(ValidationError::BreakingNoteEmpty);
    }
    if contains_vec(&t, '\n') || contains_vec(&t, '\r') {
        return Err(ValidationError::BreakingNoteMultiline);
    }
    Ok(t)
}

impl BreakingNote {
    /// Parse a breaking note from raw text.
    pub fn new(raw: &str) -> (r: Result<BreakingNote, ValidationError>)
        ensures
            res_models(r, spec_note(raw@)),
    {
        let v = chars_of(raw);
        match note_from_chars(&v) {
            Ok(n) => Ok(BreakingNote(string_from_chars(&n))),
            Err(e) => Err(e),
        }
    }

    pub fn as_str(&self) -> (r: &str)
        ensures
            r@ == self@,
    {
        self.0.as_str()
    }
}


/// A lowercase ASCII letter.
pub open spec fn lower_alpha(c: char) -> bool {
    'a' <= c && c <= 'z'
}

/// Lowercase letters are none of the characters the grammar gives meaning.
pub proof fn lemma_lower_alpha_props(c: char)
    requires
        lower_alpha(c),
    ensures
        !is_ws(c),
        c != ':',
        c != ' ',
        c != '(',
        c != ')',
        c != '!',
        c != '#',
        c != '\n',
        c != '\r',
{
}

/// Every commit-type literal is two to eight lowercase letters.
pub proof fn lemma_type_str_chars(t: CommitType)
    ensures
        2 <= t.spec_str().len() <= 8,
        forall|i: int| 0 <= i < t.spec_str().len() ==> lower_alpha(#[trigger] t.spec_str()[i]),
{
    match t {
        CommitType::Fix => {
            reveal_strlit("fix");
            assert(t.spec_str().len() == 3);
            assert forall|i: int| 0 <= i < t.spec_str().len() implies lower_alpha(
                #[trigger] t.spec_str()[i],
            ) by {
                if i == 0 {
                    assert(t.spec_str()[0] == 'f');
                }
                else if i == 1 {
                    assert(t.spec_str()[1] == 'i');
                }
                else {
                    assert(t.spec_str()[2] == 'x');
                }
            }
        },
        CommitType::Feat => {
            reveal_strlit("feat");
            assert(t.spec_str().len() == 4);
            assert forall|i: int| 0 <= i < t.spec_str().len() implies lower_alpha(
                #[trigger] t.spec_str()[i],
            ) by {
                if i == 0 {
                    assert(t.spec_str()[0] == 'f');
                }
                else if i == 1 {
                    assert(t.spec_str()[1] == 'e');
                }
                else if i == 2 {
                    assert(t.spec_str()[2] == 'a');
                }
                else {
                    assert(t.spec_str()[3] == 't');
                }
            }
        },
        CommitType::Docs => {
            reveal_strlit("docs");
            assert(t.spec_str().len() == 4);
            assert forall|i: int| 0 <= i < t.spec_str().len() implies lower_alpha(
                #[trigger] t.spec_str()[i],
            ) by {
                if i == 0 {
                    assert(t.spec_str()[0] == 'd');
                }
                else if i == 1 {
                    assert(t.spec_str()[1] == 'o');
                }
                else if i == 2 {
                    assert(t.spec_str()[2] == 'c');
                }
                else {
                    assert(t.spec_str()[3] == 's');
                }
            }
        },
        CommitType::Style => {
            reveal_strlit("style");
            assert(t.spec_str().len() == 5);
            assert forall|i: int| 0 <= i < t.spec_str().len() implies lower_alpha(
                #[trigger] t.spec_str()[i],
            ) by {
                if i == 0 {
                    assert(t.spec_str()[0] == 's');
                }
                else if i == 1 {
                    assert(t.spec_str()[1] == 't');
                }
                else if i == 2 {
                    assert(t.spec_str()[2] == 'y');
                }
                else if i == 3 {
                    assert(t.spec_str()[3] == 'l');
                }
                else {
                    assert(t.spec_str()[4] == 'e');
                }
            }
        },
        CommitType::Refactor => {
            reveal_strlit("refactor");
            assert(t.spec_str().len() == 8);
            assert forall|i: int| 0 <= i < t.spec_str().len() implies lower_alpha(
                #[trigger] t.spec_str()[i],
            ) by {
                if i == 0 {
                    assert(t.spec_str()[0] == 'r');
                }
                else if i == 1 {
                    assert(t.spec_str()[1] == 'e');
                }
                else if i == 2 {
                    assert(t.spec_str()[2] == 'f');
                }
                else if i == 3 {
                    assert(t.spec_str()[3] == 'a');
                }
                else if i == 4 {
                    assert(t.spec_str()[4] == 'c');
                }
                else if i == 5 {
                    assert(t.spec_str()[5] == 't');
                }
                else if i == 6 {
                    assert(t.spec_str()[6] == 'o');
                }
                else {
                    assert(t.spec_str()[7] == 'r');
                }
            }
        },
        CommitType::Perf => {
            reveal_strlit("perf");
            assert(t.spec_str().len() == 4);
            assert forall|i: int| 0 <= i < t.spec_str().len() implies lower_alpha(
                #[trigger] t.spec_str()[i],
            ) by {
                if i == 0 {
                    assert(t.spec_str()[0] == 'p');
                }
                else if i == 1 {
                    assert(t.spec_str()[1] == 'e');
                }
                else if i == 2 {
                    assert(t.spec_str()[2] == 'r');
                }
                else {
                    assert(t.spec_str()[3] == 'f');
                }
            }
        },
        CommitType::Test => {
            reveal_strlit("test");
            assert(t.spec_str().len() == 4);
            assert forall|i: int| 0 <= i < t.spec_str().len() implies lower_alpha(
                #[trigger] t.spec_str()[i],
            ) by {
                if i == 0 {
                    assert(t.spec_str()[0] == 't');
                }
                else if i == 1 {
                    assert(t.spec_str()[1] == 'e');
                }
                else if i == 2 {
                    assert(t.spec_str()[2] == 's');
                }
                else {
                    assert(t.spec_str()[3] == 't');
                }
            }
        },
        CommitType::Build => {
            reveal_strlit("build");
            assert(t.spec_str().len() == 5);
            assert forall|i: int| 0 <= i < t.spec_str().len() implies lower_alpha(
                #[trigger] t.spec_str()[i],
            ) by {
                if i == 0 {
                    assert(t.spec_str()[0] == 'b');
                }
                else if i == 1 {
                    assert(t.spec_str()[1] == 'u');
                }
                else if i == 2 {
                    assert(t.spec_str()[2] == 'i');
                }
                else if i == 3 {
                    assert(t.spec_str()[3] == 'l');
                }
                else {
                    assert(t.spec_str()[4] == 'd');
                }
            }
        },
        CommitType::Chore => {
            reveal_strlit("chore");
            assert(t.spec_str().len() == 5);
            assert forall|i: int| 0 <= i < t.spec_str().len() implies lower_alpha(
                #[trigger] t.spec_str()[i],
            ) by {
                if i == 0 {
                    assert(t.spec_str()[0] == 'c');
                }
                else if i == 1 {
                    assert(t.spec_str()[1] == 'h');
                }
                else if i == 2 {
                    assert(t.spec_str()[2] == 'o');
                }
                else if i == 3 {
                    assert(t.spec_str()[3] == 'r');
                }
                else {
                    assert(t.spec_str()[4] == 'e');
                }
            }
        },
        CommitType::Ci => {
            reveal_strlit("ci");
            assert(t.spec_str().len() == 2);
            assert forall|i: int| 0 <= i < t.spec_str().len() implies lower_alpha(
                #[trigger] t.spec_str()[i],
            ) by {
                if i == 0 {
                    assert(t.spec_str()[0] == 'c');
                }
                else {
                    assert(t.spec_str()[1] == 'i');
                }
            }
        },
        CommitType::Revert => {
            reveal_strlit("revert");
            assert(t.spec_str().len() == 6);
            assert forall|i: int| 0 <= i < t.spec_str().len() implies lower_alpha(
                #[trigger] t.spec_str()[i],
            ) by {
                if i == 0 {
                    assert(t.spec_str()[0] == 'r');
                }
                else if i == 1 {
                    assert(t.spec_str()[1] == 'e');
                }
                else if i == 2 {
                    assert(t.spec_str()[2] == 'v');
                }
                else if i == 3 {
                    assert(t.spec_str()[3] == 'e');
                }
                else if i == 4 {
                    assert(t.spec_str()[4] == 'r');
                }
                else {
                    assert(t.spec_str()[5] == 't');
                }
            }
        },
    }
}

} // verus!
