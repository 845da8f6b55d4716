//! The message composer and the validation pipeline: comment stripping,
//! boundary trimming, autosquash shortcuts, subject grammar, structural rules
//! and re-validation of every extracted field.
use vstd::prelude::*;

use crate::errors::{ErrorModel, ValidationError, unit_res_models};
use crate::subject::{
    CommitSubject, SUBJECT_MAX_LEN, spec_subject_len_check, spec_subject_new, subject_from_parts,
};
use crate::text::{
    blank_vec, chars_of, drop_comments, drop_comments_vec, find_char, find_char_vec, find_sub,
    find_sub_vec, has_prefix, is_blank, join_lines, join_vec, lemma_find_sub, lemma_trim_end_props,
    lemma_trim_start_props, lemma_trim_start_skip, matches_at, prefix_str, push_all,
    remove_all_vec, split_lines, split_vec, string_from_chars, subvec, trim, trim_blank_lines,
    trim_blank_vec, trim_end, trim_end_vec, trim_start, trim_vec, views_of, ws_char,
};
use crate::types::{
    BreakingNote, CommitBody, CommitType, body_from_chars, commit_type_from_chars,
    note_from_chars, scope_from_chars, spec_body, spec_commit_type, spec_note, spec_scope,
    spec_summary, summary_from_chars,
};

verus! {

/// The footer marker text.
pub open spec fn breaking_marker() -> Seq<char> {
    "BREAKING CHANGE:"@
}

/// A line whose left-trimmed text starts with the footer marker.
pub open spec fn is_breaking_line(l: Seq<char>) -> bool {
    has_prefix(trim_start(l), breaking_marker())
}

/// An autosquash subject: one of the literal rebase prefixes.
pub open spec fn spec_is_autosquash(s: Seq<char>) -> bool {
    has_prefix(s, "fixup! "@) || has_prefix(s, "squash! "@) || has_prefix(s, "amend! "@)
}

/// Whether the subject line carries an autosquash marker.
pub fn is_autosquash_subject(subject: &str) -> (b: bool)
    ensures
        b == spec_is_autosquash(subject@),
{
    let v = chars_of(subject);
    prefix_str(&v, "fixup! ") || prefix_str(&v, "squash! ") || prefix_str(&v, "amend! ")
}

/// An autosquash subject passes when non-empty text follows the first space.
pub open spec fn spec_autosquash_check(subject: Seq<char>) -> Result<(), ErrorModel> {
    let i = find_char(subject, ' ');
    let rest = if 0 <= i < subject.len() {
        trim(subject.skip(i + 1))
    } else {
        Seq::<char>::empty()
    };
    if rest.len() == 0 {
        Err(ErrorModel::MessageSubjectInvalidFormat { subject })
    } else {
        Ok(())
    }
}

/// The outcome of parsing a subject line's grammar: the commit type, the raw
/// scope text if parenthesized, the validated summary, and bang presence.
pub struct ParsedSubject {
    pub ty: CommitType,
    pub scope: Option<Seq<char>>,
    pub summary: Seq<char>,
    pub bang: bool,
}

/// Split at the first `": "`; trim the prefix; strip a trailing bang; parse
/// an optional parenthesized scope and the commit type; validate the summary.
pub open spec fn spec_parse_subject(subject: Seq<char>) -> Result<ParsedSubject, ErrorModel> {
    let i = find_sub(subject, seq![':', ' ']);
    if !(0 <= i && i + 2 <= subject.len()) {
        Err(ErrorModel::MessageSubjectInvalidFormat { subject })
    } else {
        let pre0 = trim(subject.subrange(0, i));
        let summary_raw = subject.skip(i + 2);
        if pre0.len() == 0 {
            Err(ErrorModel::MessageSubjectInvalidFormat { subject })
        } else {
            let bang = pre0.last() == '!';
            let pre = if bang {
                trim_end(pre0.drop_last())
            } else {
                pre0
            };
            if pre.len() == 0 {
                Err(ErrorModel::MessageSubjectInvalidFormat { subject })
            } else if pre.last() == ')' {
                let op = find_char(pre, '(');
                if !(0 <= op < pre.len()) {
                    Err(ErrorModel::MessageSubjectInvalidFormat { subject })
                } else {
                    let raw_type = trim(pre.subrange(0, op));
                    let raw_scope = pre.subrange(op + 1, pre.len() - 1);
                    if raw_type.len() == 0 {
                        Err(ErrorModel::MessageSubjectInvalidFormat { subject })
                    } else {
                        match spec_commit_type(raw_type) {
                            Err(e) => Err(e),
                            Ok(t) => match spec_summary(summary_raw) {
                                Err(e) => Err(e),
                                Ok(sm) => Ok(
                                    ParsedSubject { ty: t, scope: Some(raw_scope), summary: sm, bang },
                                ),
                            },
                        }
                    }
                }
            } else {
                match spec_commit_type(pre) {
                    Err(e) => Err(e),
                    Ok(t) => match spec_summary(summary_raw) {
                        Err(e) => Err(e),
                        Ok(sm) => Ok(ParsedSubject { ty: t, scope: None, summary: sm, bang }),
                    },
                }
            }
        }
    }
}

/// An executable parse outcome models a specified one.
pub open spec fn parse_res_models(
    r: Result<(CommitType, Option<Vec<char>>, Vec<char>, bool), ValidationError>,
    m: Result<ParsedSubject, ErrorModel>,
) -> bool {
    match (r, m) {
        (Ok((t, sc, sm, bg)), Ok(ps)) => t == ps.ty && sm@ == ps.summary && bg == ps.bang && (match (
            sc,
            ps.scope,
        ) {
            (Some(a), Some(b)) => a@ == b,
            (None, None) => true,
            _ => false,
        }),
        (Err(e), Err(me)) => e@ == me,
        _ => false,
    }
}

/// Parse the grammar of a subject line given as characters.
pub fn parse_subject_line(subject: &Vec<char>) -> (r: Result<
    (CommitType, Option<Vec<char>>, Vec<char>, bool),
    ValidationError,
>)
    ensures
        parse_res_models(r, spec_parse_subject(subject@)),
{
    let mut sep: Vec<char> = Vec::new();
    sep.push(':');
    sep.push(' ');
    proof {
        assert(sep@ =~= seq![':', ' ']);
    }
    match find_sub_vec(subject, &sep) {
        None => Err(
            ValidationError::MessageSubjectInvalidFormat {
                subject: string_from_chars(subject),
            },
        ),
        Some(i) => {
            let n = subject.len();
            proof {
                lemma_find_sub(subject@, sep@);
                assert(matches_at(subject@, sep@, i as int));
                assert(sep@.len() == 2);
                assert(i + 2 <= n);
            }
            let head = subvec(subject, 0, i);
            let pre0 = trim_vec(&head);
            let summary_raw = subvec(subject, i + 2, n);
            proof {
                assert(subject@.subrange(i + 2, subject@.len() as int) =~= subject@.skip(i + 2));
            }
            if pre0.len() == 0 {
                return Err(
                    ValidationError::MessageSubjectInvalidFormat {
                        subject: string_from_chars(subject),
                    },
                );
            }
            let bang = pre0[pre0.len() - 1] == '!';
            let pre = if bang {
                let trunk = subvec(&pre0, 0, pre0.len() - 1);
                proof {
                    assert(trunk@ =~= pre0@.drop_last());
                }
                trim_end_vec(&trunk)
            } else {
                pre0
            };
            if pre.len() == 0 {
                return Err(
                    ValidationError::MessageSubjectInvalidFormat {
                        subject: string_from_chars(subject),
                    },
                );
            }
            if pre[pre.len() - 1] == ')' {
                match find_char_vec(&pre, '(') {
                    None => Err(
                        ValidationError::MessageSubjectInvalidFormat {
                            subject: string_from_chars(subject),
                        },
                    ),
                    Some(op) => {
                        proof {
                            crate::text::lemma_find_char(pre@, '(');
                        }
                        let tyhead = subvec(&pre, 0, op);
                        let raw_type = trim_vec(&tyhead);
                        proof {
                            assert(pre@[op as int] == '(');
                            assert(pre@[pre@.len() - 1] == ')');
                            assert(op + 1 <= pre.len() - 1);
                        }
                        let raw_scope = subvec(&pre, op + 1, pre.len() - 1);
                        if raw_type.len() == 0 {
                            return Err(
                                ValidationError::MessageSubjectInvalidFormat {
                                    subject: string_from_chars(subject),
                                },
                            );
                        }
                        match commit_type_from_chars(&raw_type) {
                            Err(e) => Err(e),
                            Ok(t) => match summary_from_chars(&summary_raw) {
                                Err(e) => Err(e),
                                Ok(sm) => Ok((t, Some(raw_scope), sm, bang)),
                            },
                        }
                    },
                }
            } else {
                match commit_type_from_chars(&pre) {
                    Err(e) => Err(e),
                    Ok(t) => match summary_from_chars(&summary_raw) {
                        Err(e) => Err(e),
                        Ok(sm) => Ok((t, None, sm, bang)),
                    },
                }
            }
        },
    }
}

/// Re-check the raw subject line's length against the limit, reporting the
/// remaining summary budget on failure.
pub fn validate_subject_length(subject: &str, summary: &str) -> (r: Result<(), ValidationError>)
    ensures
        unit_res_models(r, spec_subject_len_check(subject@, summary@)),
{
    let sv = chars_of(subject);
    if sv.len() <= SUBJECT_MAX_LEN {
        return Ok(());
    }
    let smv = chars_of(summary);
    let p = remove_all_vec(&sv, &smv);
    let budget = if p.len() <= SUBJECT_MAX_LEN {
        SUBJECT_MAX_LEN - p.len()
    } else {
        0
    };
    Err(
        ValidationError::SubjectTooLong {
            len: sv.len(),
            budget,
            subject: string_from_chars(&sv),
        },
    )
}

/// Some line of the body text is not blank.
pub open spec fn spec_has_content(ls: Seq<Seq<char>>) -> bool {
    exists|i: int| 0 <= i < ls.len() && !is_blank(#[trigger] ls[i])
}

pub fn has_non_empty_body(body_lines: &Vec<Vec<char>>) -> (b: bool)
    ensures
        b == spec_has_content(views_of(body_lines@)),
{
    let mut i: usize = 0;
    while i < body_lines.len()
        invariant
            0 <= i <= body_lines@.len(),
            forall|j: int| 0 <= j < i ==> is_blank(#[trigger] views_of(body_lines@)[j]),
        decreases body_lines@.len() - i,
    {
        if !blank_vec(&body_lines[i]) {
            proof {
                assert(!is_blank(views_of(body_lines@)[i as int]));
            }
            return true;
        }
        i = i + 1;
    }
    false
}

/// Split trailing footer from body: no marker keeps everything as body; one
/// marker must sit on the last line, preceded by a blank line when a body is
/// present, and carry a non-empty note.
pub open spec fn spec_split_footer(content: Seq<Seq<char>>) -> Result<
    (Seq<Seq<char>>, Option<Seq<char>>),
    ErrorModel,
> {
    if !(exists|i: int| 0 <= i < content.len() && is_breaking_line(#[trigger] content[i])) {
        Ok((content, None))
    } else if !(content.len() > 0 && is_breaking_line(content.last()) && (forall|i: int|
        0 <= i < content.len() - 1 ==> !is_breaking_line(#[trigger] content[i]))) {
        Err(ErrorModel::MessageBreakingFooterNotLast)
    } else {
        let note = trim(trim(content.last()).skip(breaking_marker().len() as int));
        if note.len() == 0 {
            Err(ErrorModel::BreakingNoteEmpty)
        } else if content.len() == 1 {
            Ok((Seq::empty(), Some(note)))
        } else if !is_blank(content[content.len() - 2]) {
            Err(ErrorModel::MessageBreakingFooterNotLast)
        } else {
            Ok((content.take(content.len() - 2), Some(note)))
        }
    }
}

fn is_breaking_vec(l: &Vec<char>) -> (b: bool)
    ensures
        b == is_breaking_line(l@),
{
    let mut i: usize = 0;
    while i < l.len() && ws_char(l[i])
        invariant
            0 <= i <= l@.len(),
            forall|j: int| 0 <= j < i ==> crate::text::is_ws(l@[j]),
        decreases l@.len() - i,
    {
        i = i + 1;
    }
    let tail = subvec(l, i, l.len());
    proof {
        lemma_trim_start_skip(l@, i as int);
        if i < l.len() {
            assert(!crate::text::is_ws(l@.skip(i as int)[0]));
        }
        lemma_trim_start_props(l@.skip(i as int));
        assert(trim_start(l@) == l@.skip(i as int));
        assert(tail@ =~= l@.skip(i as int));
    }
    prefix_str(&tail, "BREAKING CHANGE:")
}

/// An executable footer split models a specified one.
pub open spec fn footer_res_models(
    r: Result<(Vec<Vec<char>>, Option<Vec<char>>), ValidationError>,
    m: Result<(Seq<Seq<char>>, Option<Seq<char>>), ErrorModel>,
) -> bool {
    match (r, m) {
        (Ok((b, n)), Ok((bm, nm))) => views_of(b@) == bm && (match (n, nm) {
            (Some(x), Some(xm)) => x@ == xm,
            (None, None) => true,
            _ => false,
        }),
        (Err(e), Err(me)) => e@ == me,
        _ => false,
    }
}

/// Separate body lines from a trailing breaking-change footer.
pub fn split_body_and_breaking_footer(content: &Vec<Vec<char>>) -> (r: Result<
    (Vec<Vec<char>>, Option<Vec<char>>),
    ValidationError,
>)
    ensures
        footer_res_models(r, spec_split_footer(views_of(content@))),
{
    let n = content.len();
    let mut any = false;
    let mut pre_breaking = false;
    let mut i: usize = 0;
    while i < n
        invariant
            0 <= i <= n,
            n == content@.len(),
            any == exists|j: int| 0 <= j < i && is_breaking_line(#[trigger] views_of(content@)[j]),
            pre_breaking == exists|j: int|
                0 <= j < i && j < n - 1 && is_breaking_line(#[trigger] views_of(content@)[j]),
        decreases n - i,
    {
        let b = is_breaking_vec(&content[i]);
        proof {
            assert(content@[i as int]@ == views_of(content@)[i as int]);
        }
        if b {
            any = true;
            if i + 1 < n {
                pre_breaking = true;
            }
        }
        i = i + 1;
    }
    if !any {
        let mut out: Vec<Vec<char>> = Vec::new();
        let mut k: usize = 0;
        while k < n
            invariant
                0 <= k <= n,
                n == content@.len(),
                views_of(out@) =~= views_of(content@).subrange(0, k as int),
            decreases n - k,
        {
            let line = &content[k];
            let copy = subvec(line, 0, line.len());
            let ghost pre = out@;
            proof {
                assert(copy@ =~= content@[k as int]@);
            }
            out.push(copy);
            proof {
                assert(views_of(out@) =~= views_of(pre).push(content@[k as int]@));
            }
            k = k + 1;
        }
        proof {
            assert(views_of(content@).subrange(0, n as int) =~= views_of(content@));
        }
        return Ok((out, None));
    }
    if pre_breaking {
        return Err(ValidationError::MessageBreakingFooterNotLast);
    }
    proof {
        let cv = views_of(content@);
        let w = choose|j: int| 0 <= j < n && is_breaking_line(#[trigger] cv[j]);
        assert(w == n - 1);
        assert(is_breaking_line(cv.last()));
    }
    let lastline = &content[n - 1];
    let t = trim_vec(lastline);
    proof {
        let y = trim_start(lastline@);
        reveal_strlit("BREAKING CHANGE:");
        assert(breaking_marker().len() == 16);
        assert(y.subrange(0, 16)[15] == y[15]);
        assert(y[15] == ':');
        assert(!crate::text::is_ws(':'));
        lemma_trim_end_props(y);
        if trim_end(y).len() < 16 {
            assert(crate::text::is_ws(y[15]));
        }
        assert(t@.len() >= 16);
        assert forall|k2: int| 0 <= k2 < 16 implies t@[k2] == breaking_marker()[k2] by {
            assert(trim_end(y) == y.take(trim_end(y).len() as int));
            assert(t@[k2] == y[k2]);
            assert(y.subrange(0, 16)[k2] == y[k2]);
        }
    }
    let head = subvec(&t, 16, t.len());
    let note = trim_vec(&head);
    proof {
        assert(head@ =~= t@.skip(16));
        assert(trim(trim(views_of(content@).last()).skip(breaking_marker().len() as int)) == note@);
    }
    if note.len() == 0 {
        return Err(ValidationError::BreakingNoteEmpty);
    }
    if n == 1 {
        let empty_body: Vec<Vec<char>> = Vec::new();
        proof {
            assert(views_of(empty_body@) =~= Seq::<Seq<char>>::empty());
        }
        return Ok((empty_body, Some(note)));
    }
    if !blank_vec(&content[n - 2]) {
        proof {
            assert(content@[n - 2]@ == views_of(content@)[n - 2]);
        }
        return Err(ValidationError::MessageBreakingFooterNotLast);
    }
    let mut body: Vec<Vec<char>> = Vec::new();
    let mut k: usize = 0;
    while k < n - 2
        invariant
            0 <= k <= n - 2,
            2 <= n == content@.len(),
            views_of(body@) =~= views_of(content@).subrange(0, k as int),
        decreases n - 2 - k,
    {
        let line = &content[k];
        let copy = subvec(line, 0, line.len());
        let ghost pre = body@;
        proof {
            assert(copy@ =~= content@[k as int]@);
        }
        body.push(copy);
        proof {
            assert(views_of(body@) =~= views_of(pre).push(content@[k as int]@));
        }
        k = k + 1;
    }
    proof {
        assert(views_of(content@).subrange(0, n - 2) =~= views_of(content@).take(n - 2));
        assert(content@[n - 2]@ == views_of(content@)[n - 2]);
    }
    Ok((body, Some(note)))
}

/// Final re-validation: rebuild the subject from the parsed type, validated
/// scope, summary and note presence.
pub open spec fn spec_validate_rebuild(
    ps: ParsedSubject,
    scv: Option<Seq<char>>,
    note: Option<Seq<char>>,
) -> Result<(), ErrorModel> {
    match spec_subject_new(ps.ty, scv, ps.summary, note is Some) {
        Err(e) => Err(e),
        Ok(_) => Ok(()),
    }
}

/// Validate the captured scope, then rebuild the subject.
pub open spec fn spec_validate_fields(ps: ParsedSubject, note: Option<Seq<char>>) -> Result<
    (),
    ErrorModel,
> {
    match ps.scope {
        Some(sc) => match spec_scope(sc) {
            Err(e) => Err(e),
            Ok(scv) => spec_validate_rebuild(ps, Some(scv), note),
        },
        None => spec_validate_rebuild(ps, None, note),
    }
}

/// Validate the body text when any body line is non-blank, then the fields.
pub open spec fn spec_validate_body(
    ps: ParsedSubject,
    body: Seq<Seq<char>>,
    note: Option<Seq<char>>,
) -> Result<(), ErrorModel> {
    if spec_has_content(body) {
        match spec_body(join_lines(body)) {
            Err(e) => Err(e),
            Ok(_) => spec_validate_fields(ps, note),
        }
    } else {
        spec_validate_fields(ps, note)
    }
}

/// Cross-check note presence against the bang, validate the note, then the
/// body and the remaining fields.
pub open spec fn spec_validate_tail(
    ps: ParsedSubject,
    body: Seq<Seq<char>>,
    note: Option<Seq<char>>,
) -> Result<(), ErrorModel> {
    match note {
        Some(nt) => {
            if !ps.bang {
                Err(ErrorModel::MessageBreakingFooterMissingBang)
            } else {
                match spec_note(nt) {
                    Err(e) => Err(e),
                    Ok(_) => spec_validate_body(ps, body, note),
                }
            }
        },
        None => {
            if ps.bang {
                Err(ErrorModel::MessageBangWithoutBreakingFooter)
            } else {
                spec_validate_body(ps, body, note)
            }
        },
    }
}

/// After the subject parses: check its length, the blank separator line, the
/// footer split, and the tail checks, in pipeline order.
pub open spec fn spec_validate_rest(
    subject: Seq<char>,
    ps: ParsedSubject,
    rest: Seq<Seq<char>>,
) -> Result<(), ErrorModel> {
    match spec_subject_len_check(subject, ps.summary) {
        Err(e) => Err(e),
        Ok(_) => {
            if rest.len() == 0 {
                if ps.bang {
                    Err(ErrorModel::MessageBangWithoutBreakingFooter)
                } else {
                    Ok(())
                }
            } else if !is_blank(rest[0]) {
                Err(ErrorModel::MessageMissingBlankLineAfterSubject)
            } else {
                let content = rest.drop_first();
                if content.len() == 0 {
                    if ps.bang {
                        Err(ErrorModel::MessageBangWithoutBreakingFooter)
                    } else {
                        Ok(())
                    }
                } else {
                    match spec_split_footer(content) {
                        Err(e) => Err(e),
                        Ok((body, note)) => spec_validate_tail(ps, body, note),
                    }
                }
            }
        },
    }
}

/// The whole pipeline: strip comment lines, trim blank boundary lines,
/// require a subject, accept autosquash shortcuts, parse the grammar, and
/// run the structural checks.
pub open spec fn spec_validate(msg: Seq<char>) -> Result<(), ErrorModel> {
    let lines = trim_blank_lines(drop_comments(split_lines(msg)));
    if lines.len() == 0 {
        Err(ErrorModel::MessageSubjectMissing)
    } else {
        let subject = trim(lines[0]);
        if spec_is_autosquash(subject) {
            spec_autosquash_check(subject)
        } else {
            match spec_parse_subject(subject) {
                Err(e) => Err(e),
                Ok(ps) => spec_validate_rest(subject, ps, lines.drop_first()),
            }
        }
    }
}

/// Validate a full raw commit message, returning the first violation in
/// pipeline order.
pub fn validate_commit_message(raw_message: &str) -> (r: Result<(), ValidationError>)
    ensures
        unit_res_models(r, spec_validate(raw_message@)),
{
    let chars = chars_of(raw_message);
    let all_lines = split_vec(&chars);
    let kept = drop_comments_vec(&all_lines);
    let lines = trim_blank_vec(&kept);
    let ghost lv = views_of(lines@);
    if lines.len() == 0 {
        return Err(ValidationError::MessageSubjectMissing);
    }
    let subject = trim_vec(&lines[0]);
    proof {
        assert(lines@[0]@ == lv[0]);
    }
    let auto = prefix_str(&subject, "fixup! ") || prefix_str(&subject, "squash! ") || prefix_str(
        &subject,
        "amend! ",
    );
    if auto {
        let rest_empty: bool = match find_char_vec(&subject, ' ') {
            Some(sp) => {
                let sn = subject.len();
                proof {
                    crate::text::lemma_find_char(subject@, ' ');
                    assert(sp < sn);
                }
                let after = subvec(&subject, sp + 1, sn);
                let rest = trim_vec(&after);
                proof {
                    assert(after@ =~= subject@.skip(sp + 1));
                }
                rest.len() == 0
            },
            None => true,
        };
        if rest_empty {
            return Err(
                ValidationError::MessageSubjectInvalidFormat {
                    subject: string_from_chars(&subject),
                },
            );
        }
        return Ok(());
    }
    let parsed = parse_subject_line(&subject);
    let (ty, scope_opt, summary, bang) = match parsed {
        Err(e) => {
            return Err(e);
        },
        Ok(p) => p,
    };
    if subject.len() > SUBJECT_MAX_LEN {
        let p = remove_all_vec(&subject, &summary);
        let budget = if p.len() <= SUBJECT_MAX_LEN {
            SUBJECT_MAX_LEN - p.len()
        } else {
            0
        };
        return Err(
            ValidationError::SubjectTooLong {
                len: subject.len(),
                budget,
                subject: string_from_chars(&subject),
            },
        );
    }
    let ghost rest = lv.drop_first();
    if lines.len() == 1 {
        if bang {
            return Err(ValidationError::MessageBangWithoutBreakingFooter);
        }
        return Ok(());
    }
    proof {
        assert(rest[0] == lv[1]);
        assert(lines@[1]@ == lv[1]);
    }
    if !blank_vec(&lines[1]) {
        return Err(ValidationError::MessageMissingBlankLineAfterSubject);
    }
    let ghost content_spec = rest.drop_first();
    proof {
        assert(content_spec =~= lv.skip(2));
    }
    if lines.len() == 2 {
        proof {
            assert(content_spec.len() == 0);
        }
        if bang {
            return Err(ValidationError::MessageBangWithoutBreakingFooter);
        }
        return Ok(());
    }
    let mut content: Vec<Vec<char>> = Vec::new();
    let mut k: usize = 2;
    let n = lines.len();
    while k < n
        invariant
            2 <= k <= n,
            n == lines@.len(),
            views_of(content@) =~= views_of(lines@).subrange(2, k as int),
        decreases n - k,
    {
        let line = &lines[k];
        let copy = subvec(line, 0, line.len());
        let ghost pre = content@;
        proof {
            assert(copy@ =~= lines@[k as int]@);
        }
        content.push(copy);
        proof {
            assert(views_of(content@) =~= views_of(pre).push(lines@[k as int]@));
        }
        k = k + 1;
    }
    proof {
        assert(views_of(content@) =~= content_spec);
    }
    let (body, note) = match split_body_and_breaking_footer(&content) {
        Err(e) => {
            return Err(e);
        },
        Ok(p) => p,
    };
    match &note {
        Some(nt) => {
            if !bang {
                return Err(ValidationError::MessageBreakingFooterMissingBang);
            }
            match note_from_chars(nt) {
                Err(e) => {
                    return Err(e);
                },
                Ok(_) => {},
            }
        },
        None => {
            if bang {
                return Err(ValidationError::MessageBangWithoutBreakingFooter);
            }
        },
    }
    if has_non_empty_body(&body) {
        let bt = join_vec(&body);
        match body_from_chars(&bt) {
            Err(e) => {
                return Err(e);
            },
            Ok(_) => {},
        }
    }
    let scope_v: Option<Vec<char>> = match &scope_opt {
        Some(sc) => match scope_from_chars(sc) {
            Err(e) => {
                return Err(e);
            },
            Ok(v) => Some(v),
        },
        None => None,
    };
    match subject_from_parts(
        ty,
        match &scope_v {
            Some(v) => Some(v),
            None => None,
        },
        &summary,
        note.is_some(),
    ) {
        Err(e) => Err(e),
        Ok(_) => Ok(()),
    }
}

/// The view of an optional body argument.
pub open spec fn body_views(b: Option<&CommitBody>) -> Option<Seq<char>> {
    match b {
        Some(x) => Some(x@),
        None => None,
    }
}

/// The view of an optional note argument.
pub open spec fn note_views(n: Option<&BreakingNote>) -> Option<Seq<char>> {
    match n {
        Some(x) => Some(x@),
        None => None,
    }
}

/// The composed message: the subject, a blank line and the body when one is
/// given, and a blank line and the breaking footer when a note is given.
pub open spec fn spec_compose(
    subject: Seq<char>,
    body: Option<Seq<char>>,
    note: Option<Seq<char>>,
) -> Seq<char> {
    let b = match body {
        Some(bd) => seq!['\n', '\n'] + bd,
        None => Seq::<char>::empty(),
    };
    let n = match note {
        Some(nt) => seq!['\n', '\n'] + breaking_marker() + seq![' '] + nt,
        None => Seq::<char>::empty(),
    };
    subject + b + n
}

/// Compose the final message text; a pure join with no validation.
pub fn new_commit_message(
    subject: &CommitSubject,
    body: Option<&CommitBody>,
    breaking_note: Option<&BreakingNote>,
) -> (r: String)
    ensures
        r@ == spec_compose(subject@, body_views(body), note_views(breaking_note)),
{
    let mut out = chars_of(subject.as_str());
    match body {
        Some(b) => {
            out.push('\n');
            out.push('\n');
            let bv = chars_of(b.as_str());
            push_all(&mut out, &bv);
        },
        None => {},
    }
    match breaking_note {
        Some(nt) => {
            out.push('\n');
            out.push('\n');
            let mv = chars_of("BREAKING CHANGE:");
            push_all(&mut out, &mv);
            out.push(' ');
            let nv = chars_of(nt.as_str());
            push_all(&mut out, &nv);
        },
        None => {},
    }
    proof {
        assert(out@ =~= spec_compose(subject@, body_views(body), note_views(breaking_note)));
    }
    string_from_chars(&out)
}

} // verus!
