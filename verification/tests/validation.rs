use git_conventional_commit_rules::BreakingNote;
use git_conventional_commit_rules::CommitBody;
use git_conventional_commit_rules::CommitScope;
use git_conventional_commit_rules::CommitSubject;
use git_conventional_commit_rules::CommitSummary;
use git_conventional_commit_rules::CommitType;
use git_conventional_commit_rules::ValidationError;
use git_conventional_commit_rules::new_commit_message;
use git_conventional_commit_rules::validate_commit_message;

#[test]
fn subject_validation_rejects_period() {
    let err = CommitSummary::new("Do the thing.").unwrap_err();
    assert!(matches!(err, ValidationError::SummaryEndsWithPeriod));
}

#[test]
fn validate_allows_subject_only() {
    validate_commit_message("fix: Handle empty input\n").unwrap();
}

#[test]
fn validate_rejects_body_without_blank_line() {
    let err = validate_commit_message("fix: Handle empty input\nBody\n").unwrap_err();
    assert!(matches!(
        err,
        ValidationError::MessageMissingBlankLineAfterSubject
    ));
}

#[test]
fn validate_allows_breaking_change_footer_with_bang() {
    let msg = "feat!: Change API\n\nBREAKING CHANGE: Old thing removed\n";
    validate_commit_message(msg).unwrap();
}

#[test]
fn validate_rejects_breaking_change_footer_without_bang() {
    let msg = "feat: Change API\n\nBREAKING CHANGE: Old thing removed\n";
    let err = validate_commit_message(msg).unwrap_err();
    assert!(matches!(
        err,
        ValidationError::MessageBreakingFooterMissingBang
    ));
}

#[test]
fn validate_allows_fixup_commits() {
    validate_commit_message("fixup! feat: Add feature\n").unwrap();
}

#[test]
fn subject_composes_canonical_format() {
    let scope = CommitScope::new("parser").unwrap();
    let summary = CommitSummary::new("Add lookahead").unwrap();
    let subject = CommitSubject::new(CommitType::Fix, Some(&scope), &summary, None).unwrap();
    assert_eq!(subject.as_str(), "fix(parser): Add lookahead");
}

#[test]
fn subject_without_scope_composes_canonical_format() {
    let summary = CommitSummary::new("Add lookahead").unwrap();
    let note = BreakingNote::new("Grammar changed").unwrap();
    let subject = CommitSubject::new(CommitType::Feat, None, &summary, Some(&note)).unwrap();
    assert_eq!(subject.as_str(), "feat!: Add lookahead");
}

#[test]
fn subject_too_long_reports_length_and_budget() {
    let summary_text = "x".repeat(60);
    let summary = CommitSummary::new(&summary_text).unwrap();
    let err = CommitSubject::new(CommitType::Feat, None, &summary, None).unwrap_err();
    match err {
        ValidationError::SubjectTooLong {
            len,
            budget,
            subject,
        } => {
            assert_eq!(len, 66);
            assert_eq!(budget, 44);
            assert_eq!(subject, format!("feat: {}", summary_text));
        }
        other => panic!("expected SubjectTooLong, got {:?}", other),
    }
}

#[test]
fn compose_then_validate_round_trips() {
    let scope = CommitScope::new("api").unwrap();
    let summary = CommitSummary::new("Change API").unwrap();
    let note = BreakingNote::new("Old thing removed").unwrap();
    let body = CommitBody::new("A longer explanation.\nOver two lines.").unwrap();
    let subject =
        CommitSubject::new(CommitType::Feat, Some(&scope), &summary, Some(&note)).unwrap();
    let msg = new_commit_message(&subject, Some(&body), Some(&note));
    assert_eq!(
        msg,
        "feat(api)!: Change API\n\nA longer explanation.\nOver two lines.\n\nBREAKING CHANGE: Old thing removed"
    );
    validate_commit_message(&msg).unwrap();
}

#[test]
fn compose_subject_only_round_trips() {
    let summary = CommitSummary::new("Handle empty input").unwrap();
    let subject = CommitSubject::new(CommitType::Fix, None, &summary, None).unwrap();
    let msg = new_commit_message(&subject, None, None);
    assert_eq!(msg, "fix: Handle empty input");
    validate_commit_message(&msg).unwrap();
}

#[test]
fn summary_construction_is_idempotent() {
    let once = CommitSummary::new("  Handle   spaced\tinput  ").unwrap();
    assert_eq!(once.as_str(), "Handle spaced input");
    let twice = CommitSummary::new(once.as_str()).unwrap();
    assert_eq!(twice.as_str(), once.as_str());
}

#[test]
fn scope_and_note_construction_are_idempotent() {
    let scope = CommitScope::new("  parser ").unwrap();
    assert_eq!(scope.as_str(), "parser");
    assert_eq!(CommitScope::new(scope.as_str()).unwrap().as_str(), "parser");
    let note = BreakingNote::new(" Removed ").unwrap();
    assert_eq!(note.as_str(), "Removed");
    assert_eq!(BreakingNote::new(note.as_str()).unwrap().as_str(), "Removed");
}

#[test]
fn body_line_of_73_characters_is_rejected() {
    let long_line = "y".repeat(73);
    let err = CommitBody::new(&long_line).unwrap_err();
    match err {
        ValidationError::BodyLineTooLong { len, line } => {
            assert_eq!(len, 73);
            assert_eq!(line, long_line);
        }
        other => panic!("expected BodyLineTooLong, got {:?}", other),
    }
}

#[test]
fn body_line_of_72_characters_is_accepted() {
    let line = "y".repeat(72);
    let body = CommitBody::new(&line).unwrap();
    assert_eq!(body.as_str(), line);
}

#[test]
fn commit_type_parses_every_literal() {
    let cases = [
        "fix", "feat", "docs", "style", "refactor", "perf", "test", "build", "chore", "ci",
        "revert",
    ];
    for raw in cases {
        let t = CommitType::new(raw).unwrap();
        assert_eq!(t.as_str(), raw);
    }
}

#[test]
fn commit_type_rejects_unknown_with_allowed_list() {
    let err = CommitType::new("wip").unwrap_err();
    match err {
        ValidationError::CommitTypeInvalid { raw, allowed } => {
            assert_eq!(raw, "wip");
            assert_eq!(
                allowed,
                "fix feat docs style refactor perf test build chore ci revert"
            );
        }
        other => panic!("expected CommitTypeInvalid, got {:?}", other),
    }
}

#[test]
fn allowed_list_is_space_joined_in_declaration_order() {
    assert_eq!(
        CommitType::allowed_list(),
        "fix feat docs style refactor perf test build chore ci revert"
    );
}

#[test]
fn empty_and_multiline_inputs_are_rejected() {
    assert!(matches!(
        CommitSummary::new("   ").unwrap_err(),
        ValidationError::SummaryEmpty
    ));
    assert!(matches!(
        CommitSummary::new("a\nb").unwrap_err(),
        ValidationError::SummaryMultiline
    ));
    assert!(matches!(
        CommitScope::new("").unwrap_err(),
        ValidationError::ScopeEmpty
    ));
    assert!(matches!(
        CommitScope::new("a\rb").unwrap_err(),
        ValidationError::ScopeMultiline
    ));
    assert!(matches!(
        CommitScope::new("a)b").unwrap_err(),
        ValidationError::ScopeHasClosingParen
    ));
    assert!(matches!(
        CommitBody::new(" \n ").unwrap_err(),
        ValidationError::BodyEmpty
    ));
    assert!(matches!(
        BreakingNote::new("").unwrap_err(),
        ValidationError::BreakingNoteEmpty
    ));
    assert!(matches!(
        BreakingNote::new("a\nb").unwrap_err(),
        ValidationError::BreakingNoteMultiline
    ));
}

#[test]
fn validate_requires_a_subject() {
    assert!(matches!(
        validate_commit_message("").unwrap_err(),
        ValidationError::MessageSubjectMissing
    ));
    assert!(matches!(
        validate_commit_message("# only a comment\n\n").unwrap_err(),
        ValidationError::MessageSubjectMissing
    ));
}

#[test]
fn validate_strips_comment_lines_before_parsing() {
    validate_commit_message("# please enter a message\nfix: Handle empty input\n").unwrap();
}

#[test]
fn validate_rejects_subject_without_separator() {
    let err = validate_commit_message("just words\n").unwrap_err();
    assert!(matches!(
        err,
        ValidationError::MessageSubjectInvalidFormat { .. }
    ));
}

#[test]
fn validate_rejects_bang_without_footer() {
    assert!(matches!(
        validate_commit_message("feat!: Change API\n").unwrap_err(),
        ValidationError::MessageBangWithoutBreakingFooter
    ));
    assert!(matches!(
        validate_commit_message("feat!: Change API\n\nJust a body\n").unwrap_err(),
        ValidationError::MessageBangWithoutBreakingFooter
    ));
}

#[test]
fn validate_rejects_footer_not_last() {
    let msg = "feat!: Change API\n\nBREAKING CHANGE: first\nTrailing line\n";
    assert!(matches!(
        validate_commit_message(msg).unwrap_err(),
        ValidationError::MessageBreakingFooterNotLast
    ));
    let unseparated = "feat!: Change API\n\nBody text\nBREAKING CHANGE: thing\n";
    assert!(matches!(
        validate_commit_message(unseparated).unwrap_err(),
        ValidationError::MessageBreakingFooterNotLast
    ));
}

#[test]
fn validate_rejects_empty_footer_note() {
    let msg = "feat!: Change API\n\nBREAKING CHANGE:\n";
    assert!(matches!(
        validate_commit_message(msg).unwrap_err(),
        ValidationError::BreakingNoteEmpty
    ));
}

#[test]
fn validate_rejects_overlong_subject_line() {
    let msg = format!("feat: {}\n", "x".repeat(60));
    match validate_commit_message(&msg).unwrap_err() {
        ValidationError::SubjectTooLong { len, budget, .. } => {
            assert_eq!(len, 66);
            assert_eq!(budget, 44);
        }
        other => panic!("expected SubjectTooLong, got {:?}", other),
    }
}

#[test]
fn validate_accepts_scoped_subject_with_body() {
    validate_commit_message("fix(parser): Handle empty input\n\nThe body text.\n").unwrap();
}

#[test]
fn validate_rejects_empty_autosquash_rest() {
    let err = validate_commit_message("fixup!   \n").unwrap_err();
    assert!(matches!(
        err,
        ValidationError::MessageSubjectInvalidFormat { .. }
    ));
}
