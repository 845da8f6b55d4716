use git_conventional_commit_rules::CommitType;
use git_conventional_commit_rules::ValidationError;
use git_conventional_commit_rules::has_non_empty_body;
use git_conventional_commit_rules::is_autosquash_subject;
use git_conventional_commit_rules::parse_subject_line;
use git_conventional_commit_rules::split_body_and_breaking_footer;
use git_conventional_commit_rules::validate_subject_length;

fn chars(s: &str) -> Vec<char> {
    s.chars().collect()
}

fn lines(ls: &[&str]) -> Vec<Vec<char>> {
    ls.iter().map(|l| chars(l)).collect()
}

fn text(v: &[char]) -> String {
    v.iter().collect()
}

#[test]
fn autosquash_prefixes_are_recognized() {
    assert!(is_autosquash_subject("fixup! feat: Add feature"));
    assert!(is_autosquash_subject("squash! fix: Tidy"));
    assert!(is_autosquash_subject("amend! docs: Clarify"));
    assert!(!is_autosquash_subject("fixup:feat"));
    assert!(!is_autosquash_subject("feat: Add fixup! handling"));
}

#[test]
fn parse_subject_line_splits_type_scope_bang_summary() {
    let (ty, scope, summary, bang) = parse_subject_line(&chars("feat(api)!: Change API")).unwrap();
    assert!(matches!(ty, CommitType::Feat));
    assert_eq!(text(&scope.unwrap()), "api");
    assert_eq!(text(&summary), "Change API");
    assert!(bang);

    let (ty, scope, summary, bang) = parse_subject_line(&chars("fix: Handle input")).unwrap();
    assert!(matches!(ty, CommitType::Fix));
    assert!(scope.is_none());
    assert_eq!(text(&summary), "Handle input");
    assert!(!bang);
}

#[test]
fn parse_subject_line_rejects_bad_grammar() {
    assert!(matches!(
        parse_subject_line(&chars("no separator")).unwrap_err(),
        ValidationError::MessageSubjectInvalidFormat { .. }
    ));
    assert!(matches!(
        parse_subject_line(&chars("wip: Do thing")).unwrap_err(),
        ValidationError::CommitTypeInvalid { .. }
    ));
    assert!(matches!(
        parse_subject_line(&chars("fix ui): Do thing")).unwrap_err(),
        ValidationError::MessageSubjectInvalidFormat { .. }
    ));
}

#[test]
fn subject_length_check_reports_budget() {
    validate_subject_length("fix: Short", "Short").unwrap();
    let subject = format!("fix: {}", "z".repeat(58));
    let summary = "z".repeat(58);
    match validate_subject_length(&subject, &summary).unwrap_err() {
        ValidationError::SubjectTooLong { len, budget, .. } => {
            assert_eq!(len, 63);
            assert_eq!(budget, 45);
        }
        other => panic!("expected SubjectTooLong, got {:?}", other),
    }
}

#[test]
fn footer_split_separates_note_from_body() {
    let content = lines(&["Body line.", "", "BREAKING CHANGE: gone"]);
    let (body, note) = split_body_and_breaking_footer(&content).unwrap();
    assert_eq!(body.len(), 1);
    assert_eq!(text(&body[0]), "Body line.");
    assert_eq!(text(&note.unwrap()), "gone");

    let only_footer = lines(&["BREAKING CHANGE: gone"]);
    let (body, note) = split_body_and_breaking_footer(&only_footer).unwrap();
    assert!(body.is_empty());
    assert_eq!(text(&note.unwrap()), "gone");

    let no_footer = lines(&["Body line.", "Another."]);
    let (body, note) = split_body_and_breaking_footer(&no_footer).unwrap();
    assert_eq!(body.len(), 2);
    assert!(note.is_none());
}

#[test]
fn footer_split_rejects_misplaced_footer() {
    let not_last = lines(&["BREAKING CHANGE: gone", "trailing"]);
    assert!(matches!(
        split_body_and_breaking_footer(&not_last).unwrap_err(),
        ValidationError::MessageBreakingFooterNotLast
    ));
    let unseparated = lines(&["Body line.", "BREAKING CHANGE: gone"]);
    assert!(matches!(
        split_body_and_breaking_footer(&unseparated).unwrap_err(),
        ValidationError::MessageBreakingFooterNotLast
    ));
}

#[test]
fn non_empty_body_detection_ignores_blank_lines() {
    assert!(!has_non_empty_body(&lines(&[])));
    assert!(!has_non_empty_body(&lines(&["", "  ", "\t"])));
    assert!(has_non_empty_body(&lines(&["", "text", ""])));
}
