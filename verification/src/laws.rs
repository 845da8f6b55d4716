//! Laws of the library, each proved once and for all inputs: subject
//! construction is pinned by the length ceiling, and construction of every
//! value type is idempotent.
use vstd::prelude::*;

use crate::errors::ErrorModel;
use crate::message::{
    ParsedSubject, breaking_marker, is_breaking_line, spec_compose, spec_has_content,
    spec_is_autosquash, spec_parse_subject, spec_split_footer, spec_validate, spec_validate_rest,
    spec_validate_tail,
};
use crate::subject::{SUBJECT_MAX_LEN, spec_subject_new, subject_budget, subject_text};
use crate::text::{
    collapse_ws, contains_char, drop_comments, find_sub, has_prefix, is_blank,
    is_comment, is_ws, join_lines, lemma_collapse_noop, lemma_collapse_shape,
    lemma_drop_comments_noop, lemma_find_char_is, lemma_find_sub, lemma_find_sub_is,
    lemma_join_split, lemma_split_concat, lemma_split_first_nonblank, lemma_split_last_nonblank,
    lemma_split_no_nl, lemma_trim_noop, lemma_trim_props, matches_at, split_lines, trim,
    trim_blank_lines, trim_start,
};
use crate::types::{
    CommitType, lemma_lower_alpha_props, lemma_type_str_chars, lower_alpha, spec_body,
    spec_commit_type, spec_note, spec_scope, spec_summary,
};

verus! {

/// For every commit type, optional scope, summary and note presence whose
/// composed subject is at most the length ceiling, subject construction
/// succeeds with exactly the canonical text.
pub proof fn lemma_subject_within_limit(
    t: CommitType,
    scope: Option<Seq<char>>,
    summary: Seq<char>,
    bang: bool,
)
    requires
        subject_text(t, scope, summary, bang).len() <= SUBJECT_MAX_LEN,
    ensures
        spec_subject_new(t, scope, summary, bang) == Ok::<Seq<char>, ErrorModel>(
            subject_text(t, scope, summary, bang),
        ),
{
}

/// For every such input whose composed subject exceeds the ceiling, subject
/// construction fails with `SubjectTooLong`, reporting the full length and
/// the budget left after removing the summary text from the subject.
pub proof fn lemma_subject_over_limit(
    t: CommitType,
    scope: Option<Seq<char>>,
    summary: Seq<char>,
    bang: bool,
)
    requires
        subject_text(t, scope, summary, bang).len() > SUBJECT_MAX_LEN,
    ensures
        spec_subject_new(t, scope, summary, bang) == Err::<Seq<char>, ErrorModel>(
            ErrorModel::SubjectTooLong {
                len: subject_text(t, scope, summary, bang).len(),
                budget: subject_budget(subject_text(t, scope, summary, bang), summary),
                subject: subject_text(t, scope, summary, bang),
            },
        ),
{
}

/// Summary construction is idempotent: feeding a constructed summary back in
/// returns it unchanged.
pub proof fn lemma_summary_idempotent(raw: Seq<char>, s: Seq<char>)
    requires
        spec_summary(raw) == Ok::<Seq<char>, ErrorModel>(s),
    ensures
        spec_summary(s) == Ok::<Seq<char>, ErrorModel>(s),
{
    let t = trim(raw);
    lemma_trim_props(raw);
    lemma_collapse_shape(t, true);
    assert(s == collapse_ws(t));
    assert(!is_ws(t[0]));
    assert(!is_ws(t.last()));
    assert(s.len() > 0 && s.last() == t.last());
    lemma_trim_noop(s);
    assert(!contains_char(s, '\n')) by {
        if contains_char(s, '\n') {
            let j = choose|j: int| 0 <= j < s.len() && s[j] == '\n';
            assert(is_ws(s[j]));
            assert(s[j] == ' ');
        }
    }
    assert(!contains_char(s, '\r')) by {
        if contains_char(s, '\r') {
            let j = choose|j: int| 0 <= j < s.len() && s[j] == '\r';
            assert(is_ws(s[j]));
            assert(s[j] == ' ');
        }
    }
    lemma_collapse_noop(s, true);
}

/// Scope construction is idempotent.
pub proof fn lemma_scope_idempotent(raw: Seq<char>, s: Seq<char>)
    requires
        spec_scope(raw) == Ok::<Seq<char>, ErrorModel>(s),
    ensures
        spec_scope(s) == Ok::<Seq<char>, ErrorModel>(s),
{
    lemma_trim_props(raw);
    lemma_trim_noop(s);
}

/// Body construction is idempotent.
pub proof fn lemma_body_idempotent(raw: Seq<char>, b: Seq<char>)
    requires
        spec_body(raw) == Ok::<Seq<char>, ErrorModel>(b),
    ensures
        spec_body(b) == Ok::<Seq<char>, ErrorModel>(b),
{
    lemma_trim_props(raw);
    lemma_trim_noop(b);
}

/// A summary equal to its own construction is non-empty, single-line, and
/// has non-whitespace ends.
pub proof fn lemma_valid_summary_props(s: Seq<char>)
    requires
        spec_summary(s) == Ok::<Seq<char>, ErrorModel>(s),
    ensures
        s.len() > 0,
        !is_ws(s[0]),
        !is_ws(s.last()),
        !contains_char(s, '\n'),
        !contains_char(s, '\r'),
{
    let t = trim(s);
    lemma_trim_props(s);
    lemma_collapse_shape(t, true);
    assert(s == collapse_ws(t));
    assert(!is_ws(t[0]));
    assert(!is_ws(t.last()));
    assert(s.len() > 0 && s.last() == t.last());
    assert(!contains_char(s, '\n')) by {
        if contains_char(s, '\n') {
            let j = choose|j: int| 0 <= j < s.len() && s[j] == '\n';
            assert(is_ws(s[j]));
            assert(s[j] == ' ');
        }
    }
    assert(!contains_char(s, '\r')) by {
        if contains_char(s, '\r') {
            let j = choose|j: int| 0 <= j < s.len() && s[j] == '\r';
            assert(is_ws(s[j]));
            assert(s[j] == ' ');
        }
    }
}

/// The prefix of the canonical subject: everything before the `": "`.
pub open spec fn subject_prefix_len(t: CommitType, scope: Option<Seq<char>>, bang: bool) -> int {
    t.spec_str().len() + (match scope {
        Some(sc) => sc.len() as int + 2,
        None => 0int,
    }) + (if bang {
        1int
    } else {
        0int
    })
}

/// Character-level shape of a canonical subject: non-empty, free of line
/// feeds, framed by non-whitespace, and not starting with a comment marker.
#[verifier::rlimit(60)]
pub proof fn lemma_subject_shape(
    t: CommitType,
    scope: Option<Seq<char>>,
    summary: Seq<char>,
    bang: bool,
    subject: Seq<char>,
)
    requires
        spec_summary(summary) == Ok::<Seq<char>, ErrorModel>(summary),
        match scope {
            Some(sc) => spec_scope(sc) == Ok::<Seq<char>, ErrorModel>(sc),
            None => true,
        },
        subject == subject_text(t, scope, summary, bang),
    ensures
        subject.len() > subject_prefix_len(t, scope, bang) + 2,
        subject[0] == t.spec_str()[0],
        !is_ws(subject[0]),
        subject[0] != '#',
        !is_ws(subject.last()),
        !contains_char(subject, '\n'),
        trim(subject) == subject,
{
    let ty = t.spec_str();
    let tl = ty.len() as int;
    lemma_type_str_chars(t);
    lemma_valid_summary_props(summary);
    let scp: Seq<char> = match scope {
        Some(sc) => seq!['('] + sc + seq![')'],
        None => Seq::empty(),
    };
    let bng: Seq<char> = if bang {
        seq!['!']
    } else {
        Seq::empty()
    };
    let p = (ty + scp) + bng;
    let sep = seq![':', ' '];
    assert(subject =~= (p + sep) + summary);
    let pl = p.len() as int;
    let sl: int = match scope {
        Some(sc) => sc.len() as int,
        None => 0,
    };
    assert(pl == subject_prefix_len(t, scope, bang));
    assert(subject[0] == p[0]);
    assert(p[0] == ty[0]);
    lemma_lower_alpha_props(ty[0]);
    assert(subject.last() == summary.last()) by {
        assert(subject[subject.len() - 1] == summary[summary.len() - 1]);
    }
    assert(!contains_char(subject, '\n')) by {
        if contains_char(subject, '\n') {
            let j = choose|j: int| 0 <= j < subject.len() && subject[j] == '\n';
            if j < pl {
                assert(subject[j] == p[j]);
                if j < tl {
                    assert(p[j] == ty[j]);
                    lemma_lower_alpha_props(ty[j]);
                } else {
                    match scope {
                        Some(sc) => {
                            lemma_trim_props(sc);
                            if j == tl {
                                assert(p[j] == scp[0]);
                            } else if j < tl + 1 + sl {
                                assert(p[j] == scp[j - tl]);
                                assert(scp[j - tl] == sc[j - tl - 1]);
                                assert(contains_char(sc, '\n'));
                            } else if j == tl + 1 + sl {
                                assert(p[j] == scp[sl + 1]);
                            } else {
                                assert(p[j] == bng[j - (tl + 2 + sl)]);
                            }
                        },
                        None => {
                            assert(p[j] == bng[j - tl]);
                        },
                    }
                }
            } else if j < pl + 2 {
                assert(subject[j] == sep[j - pl]);
            } else {
                assert(subject[j] == summary[j - pl - 2]);
                assert(contains_char(summary, '\n'));
            }
        }
    }
    lemma_trim_noop(subject);
}

/// The first `": "` of a canonical subject sits exactly after its prefix.
#[verifier::rlimit(60)]
pub proof fn lemma_subject_sep(
    t: CommitType,
    scope: Option<Seq<char>>,
    summary: Seq<char>,
    bang: bool,
    subject: Seq<char>,
)
    requires
        spec_summary(summary) == Ok::<Seq<char>, ErrorModel>(summary),
        match scope {
            Some(sc) => spec_scope(sc) == Ok::<Seq<char>, ErrorModel>(sc) && find_sub(
                sc,
                seq![':', ' '],
            ) < 0,
            None => true,
        },
        subject == subject_text(t, scope, summary, bang),
    ensures
        find_sub(subject, seq![':', ' ']) == subject_prefix_len(t, scope, bang),
{
    let ty = t.spec_str();
    let tl = ty.len() as int;
    lemma_type_str_chars(t);
    lemma_valid_summary_props(summary);
    let scp: Seq<char> = match scope {
        Some(sc) => seq!['('] + sc + seq![')'],
        None => Seq::empty(),
    };
    let bng: Seq<char> = if bang {
        seq!['!']
    } else {
        Seq::empty()
    };
    let p = (ty + scp) + bng;
    let sep = seq![':', ' '];
    assert(subject =~= (p + sep) + summary);
    let pl = p.len() as int;
    let sl: int = match scope {
        Some(sc) => sc.len() as int,
        None => 0,
    };
    assert forall|i: int| 0 <= i < pl implies !matches_at(subject, sep, i) by {
        if matches_at(subject, sep, i) {
            assert(subject.subrange(i, i + 2)[0] == subject[i]);
            assert(subject.subrange(i, i + 2)[1] == subject[i + 1]);
            assert(subject[i] == ':');
            assert(subject[i + 1] == ' ');
            assert(subject[i] == p[i]);
            if i < tl {
                assert(p[i] == ty[i]);
                lemma_lower_alpha_props(ty[i]);
            } else {
                match scope {
                    Some(sc) => {
                        if i == tl {
                            assert(p[i] == scp[0]);
                        } else if i < tl + 1 + sl {
                            assert(p[i] == scp[i - tl]);
                            assert(scp[i - tl] == sc[i - tl - 1]);
                            if i + 1 < tl + 1 + sl {
                                assert(subject[i + 1] == p[i + 1]);
                                assert(p[i + 1] == scp[i + 1 - tl]);
                                assert(scp[i + 1 - tl] == sc[i - tl]);
                                assert(matches_at(sc, sep, i - tl - 1)) by {
                                    assert(sc.subrange(i - tl - 1, i - tl + 1) =~= sep);
                                }
                                lemma_find_sub(sc, sep);
                            } else {
                                assert(subject[i + 1] == p[i + 1]);
                                assert(p[i + 1] == scp[sl + 1]);
                                assert(scp[sl + 1] == ')');
                            }
                        } else if i == tl + 1 + sl {
                            assert(p[i] == scp[sl + 1]);
                            assert(scp[sl + 1] == ')');
                        } else {
                            assert(p[i] == bng[i - (tl + 2 + sl)]);
                            assert(bng[0] == '!');
                        }
                    },
                    None => {
                        assert(p[i] == bng[i - tl]);
                        assert(bng[0] == '!');
                    },
                }
            }
        }
    }
    assert(matches_at(subject, sep, pl)) by {
        assert(subject.subrange(pl, pl + 2) =~= sep);
    }
    lemma_find_sub_is(subject, sep, pl);
}

/// A canonical subject never starts with an autosquash marker.
#[verifier::rlimit(60)]
pub proof fn lemma_subject_not_autosquash(
    t: CommitType,
    scope: Option<Seq<char>>,
    summary: Seq<char>,
    bang: bool,
    subject: Seq<char>,
)
    requires
        subject == subject_text(t, scope, summary, bang),
    ensures
        !spec_is_autosquash(subject),
{
    let ty = t.spec_str();
    let tl = ty.len() as int;
    lemma_type_str_chars(t);
    let scp: Seq<char> = match scope {
        Some(sc) => seq!['('] + sc + seq![')'],
        None => Seq::empty(),
    };
    let bng: Seq<char> = if bang {
        seq!['!']
    } else {
        Seq::empty()
    };
    let p = (ty + scp) + bng;
    let sep = seq![':', ' '];
    assert(subject =~= (p + sep) + summary);
    let pl = p.len() as int;
    assert forall|k: int| 0 <= k < tl implies subject[k] == ty[k] by {
        assert(subject[k] == p[k]);
    }
    reveal_strlit("fixup! ");
    reveal_strlit("squash! ");
    reveal_strlit("amend! ");
    reveal_strlit("fix");
    reveal_strlit("feat");
    reveal_strlit("docs");
    reveal_strlit("style");
    reveal_strlit("refactor");
    reveal_strlit("perf");
    reveal_strlit("test");
    reveal_strlit("build");
    reveal_strlit("chore");
    reveal_strlit("ci");
    reveal_strlit("revert");
    if has_prefix(subject, "fixup! "@) {
        assert(subject.subrange(0, 7)[0] == subject[0]);
        assert(subject.subrange(0, 7)[1] == subject[1]);
        assert(subject.subrange(0, 7)[3] == subject[3]);
        assert(subject[0] == 'f' && subject[1] == 'i' && subject[3] == 'u');
        match t {
            CommitType::Fix => {
                assert(tl == 3);
                if pl == 3 {
                    assert(subject[3] == sep[0]);
                } else {
                    assert(subject[3] == p[3]);
                    match scope {
                        Some(_) => {
                            assert(p[3] == scp[0]);
                        },
                        None => {
                            assert(p[3] == bng[0]);
                        },
                    }
                }
            },
            CommitType::Feat => {
                assert(subject[1] == ty[1]);
            },
            _ => {
                assert(subject[0] == ty[0]);
            },
        }
    }
    if has_prefix(subject, "squash! "@) {
        assert(subject.subrange(0, 8)[0] == subject[0]);
        assert(subject.subrange(0, 8)[1] == subject[1]);
        assert(subject[0] == 's' && subject[1] == 'q');
        match t {
            CommitType::Style => {
                assert(subject[1] == ty[1]);
            },
            _ => {
                assert(subject[0] == ty[0]);
            },
        }
    }
    if has_prefix(subject, "amend! "@) {
        assert(subject.subrange(0, 7)[0] == subject[0]);
        assert(subject[0] == 'a');
        assert(subject[0] == ty[0]);
    }
}

/// A canonically composed subject parses back to exactly its parts.
#[verifier::rlimit(100)]
pub proof fn lemma_subject_parses_back(
    t: CommitType,
    scope: Option<Seq<char>>,
    summary: Seq<char>,
    bang: bool,
    subject: Seq<char>,
)
    requires
        spec_summary(summary) == Ok::<Seq<char>, ErrorModel>(summary),
        match scope {
            Some(sc) => spec_scope(sc) == Ok::<Seq<char>, ErrorModel>(sc) && find_sub(
                sc,
                seq![':', ' '],
            ) < 0,
            None => true,
        },
        subject == subject_text(t, scope, summary, bang),
    ensures
        spec_parse_subject(subject) == Ok::<ParsedSubject, ErrorModel>(
            ParsedSubject { ty: t, scope, summary, bang },
        ),
{
    let ty = t.spec_str();
    let tl = ty.len() as int;
    lemma_type_str_chars(t);
    lemma_valid_summary_props(summary);
    let scp: Seq<char> = match scope {
        Some(sc) => seq!['('] + sc + seq![')'],
        None => Seq::empty(),
    };
    let bng: Seq<char> = if bang {
        seq!['!']
    } else {
        Seq::empty()
    };
    let p = (ty + scp) + bng;
    let sep = seq![':', ' '];
    assert(subject =~= (p + sep) + summary);
    let pl = p.len() as int;
    let sl: int = match scope {
        Some(sc) => sc.len() as int,
        None => 0,
    };
    match scope {
        Some(sc) => {
            lemma_trim_props(sc);
        },
        None => {},
    }
    lemma_subject_sep(t, scope, summary, bang, subject);
    assert(find_sub(subject, sep) == pl);
    assert(lower_alpha(ty[0]) && lower_alpha(ty[tl - 1]));
    lemma_lower_alpha_props(ty[0]);
    lemma_lower_alpha_props(ty[tl - 1]);
    assert(subject.subrange(0, pl) =~= p);
    assert(p[0] == ty[0]);
    let plast: char = if bang {
        '!'
    } else {
        match scope {
            Some(_) => ')',
            None => ty[tl - 1],
        }
    };
    assert(p.last() == plast) by {
        if bang {
            assert(p[pl - 1] == bng[0]);
        } else {
            match scope {
                Some(sc) => {
                    assert(p[pl - 1] == (ty + scp)[pl - 1]);
                    assert(scp[sl + 1] == ')');
                },
                None => {
                    assert(p[pl - 1] == ty[tl - 1]);
                },
            }
        }
    }
    assert(!is_ws(plast));
    lemma_trim_noop(p);
    assert(subject.skip(pl + 2) =~= summary);
    let q = ty + scp;
    assert((p.last() == '!') == bang) by {
        if !bang {
            match scope {
                Some(_) => {},
                None => {
                    lemma_lower_alpha_props(ty[tl - 1]);
                },
            }
        }
    }
    if bang {
        assert(p.drop_last() =~= q);
    } else {
        assert(p =~= q);
    }
    assert(q.last() == (match scope {
        Some(_) => ')',
        None => ty[tl - 1],
    })) by {
        match scope {
            Some(sc) => {
                assert(q[q.len() - 1] == scp[sl + 1]);
                assert(scp[sl + 1] == ')');
            },
            None => {
                assert(q =~= ty);
            },
        }
    }
    assert(!is_ws(q.last()));
    assert(crate::text::trim_end(q) == q) by {
        crate::text::lemma_trim_end_props(q);
        if crate::text::trim_end(q).len() < q.len() {
            assert(is_ws(q[q.len() - 1]));
        }
        assert(crate::text::trim_end(q) =~= q.take(crate::text::trim_end(q).len() as int));
    }
    assert((q.last() == ')') == (scope is Some));
    match scope {
        Some(sc) => {
            assert forall|j: int| 0 <= j < tl implies q[j] != '(' by {
                assert(q[j] == ty[j]);
                lemma_lower_alpha_props(ty[j]);
            }
            assert(q[tl] == scp[0]);
            lemma_find_char_is(q, '(', tl);
            assert(q.subrange(0, tl) =~= ty);
            lemma_trim_noop(ty);
            assert(q.subrange(tl + 1, q.len() - 1) =~= sc);
            lemma_commit_type_roundtrip(t);
        },
        None => {
            lemma_trim_noop(ty);
            lemma_commit_type_roundtrip(t);
        },
    }
}

/// Each commit type's literal form parses back to that type.
pub proof fn lemma_commit_type_roundtrip(t: CommitType)
    ensures
        spec_commit_type(t.spec_str()) == Ok::<CommitType, ErrorModel>(t),
{
    reveal_strlit("fix");
    reveal_strlit("feat");
    reveal_strlit("docs");
    reveal_strlit("style");
    reveal_strlit("refactor");
    reveal_strlit("perf");
    reveal_strlit("test");
    reveal_strlit("build");
    reveal_strlit("chore");
    reveal_strlit("ci");
    reveal_strlit("revert");
    lemma_type_str_chars(t);
    assert(lower_alpha(t.spec_str()[0]));
    lemma_lower_alpha_props(t.spec_str()[0]);
    assert(lower_alpha(t.spec_str()[t.spec_str().len() - 1]));
    lemma_lower_alpha_props(t.spec_str()[t.spec_str().len() - 1]);
    lemma_trim_noop(t.spec_str());
}

/// Breaking-note construction is idempotent.
pub proof fn lemma_note_idempotent(raw: Seq<char>, n: Seq<char>)
    requires
        spec_note(raw) == Ok::<Seq<char>, ErrorModel>(n),
    ensures
        spec_note(n) == Ok::<Seq<char>, ErrorModel>(n),
{
    lemma_trim_props(raw);
    lemma_trim_noop(n);
}


/// The footer marker's characters: sixteen of them, starting 'B', ending
/// ':', with no line feed.
pub proof fn lemma_marker_chars()
    ensures
        breaking_marker().len() == 16,
        breaking_marker()[0] == 'B',
        breaking_marker()[15] == ':',
        !is_ws(breaking_marker()[0]),
        !contains_char(breaking_marker(), '\n'),
{
    reveal_strlit("BREAKING CHANGE:");
    assert(breaking_marker()[0] == 'B');
    assert(breaking_marker()[15] == ':');
    assert(!contains_char(breaking_marker(), '\n')) by {
        if contains_char(breaking_marker(), '\n') {
            let j = choose|j: int|
                0 <= j < breaking_marker().len() && breaking_marker()[j] == '\n';
            if j == 0 {
                assert(breaking_marker()[0] == 'B');
            }
            else if j == 1 {
                assert(breaking_marker()[1] == 'R');
            }
            else if j == 2 {
                assert(breaking_marker()[2] == 'E');
            }
            else if j == 3 {
                assert(breaking_marker()[3] == 'A');
            }
            else if j == 4 {
                assert(breaking_marker()[4] == 'K');
            }
            else if j == 5 {
                assert(breaking_marker()[5] == 'I');
            }
            else if j == 6 {
                assert(breaking_marker()[6] == 'N');
            }
            else if j == 7 {
                assert(breaking_marker()[7] == 'G');
            }
            else if j == 8 {
                assert(breaking_marker()[8] == ' ');
            }
            else if j == 9 {
                assert(breaking_marker()[9] == 'C');
            }
            else if j == 10 {
                assert(breaking_marker()[10] == 'H');
            }
            else if j == 11 {
                assert(breaking_marker()[11] == 'A');
            }
            else if j == 12 {
                assert(breaking_marker()[12] == 'N');
            }
            else if j == 13 {
                assert(breaking_marker()[13] == 'G');
            }
            else if j == 14 {
                assert(breaking_marker()[14] == 'E');
            }
            else {
                assert(breaking_marker()[15] == ':');
            }
        }
    }
}


/// The composed message of a subject alone passes validation.
#[verifier::rlimit(100)]
proof fn lemma_validate_composed_plain(
    t: CommitType,
    scope: Option<Seq<char>>,
    summary: Seq<char>,
    subject: Seq<char>,
)
    requires
        spec_summary(summary) == Ok::<Seq<char>, ErrorModel>(summary),
        match scope {
            Some(sc) => spec_scope(sc) == Ok::<Seq<char>, ErrorModel>(sc) && find_sub(
                sc,
                seq![':', ' '],
            ) < 0,
            None => true,
        },
        spec_subject_new(t, scope, summary, false) == Ok::<Seq<char>, ErrorModel>(subject),
    ensures
        spec_validate(spec_compose(subject, None, None)) == Ok::<(), ErrorModel>(()),
{
    let body: Option<Seq<char>> = None;
    let note: Option<Seq<char>> = None;
    let bang = note is Some;
    assert(subject == subject_text(t, scope, summary, bang));
    assert(subject.len() <= SUBJECT_MAX_LEN);
    lemma_subject_shape(t, scope, summary, bang, subject);
    lemma_subject_not_autosquash(t, scope, summary, bang, subject);
    lemma_subject_parses_back(t, scope, summary, bang, subject);
    lemma_marker_chars();
    let ps = ParsedSubject { ty: t, scope, summary, bang };
    let m = spec_compose(subject, body, note);
    lemma_split_no_nl(subject);
    let empty_line = Seq::<char>::empty();
    assert(is_blank(empty_line));
    assert(!is_comment(empty_line));
    assert(!is_breaking_line(empty_line)) by {
        assert(trim_start(empty_line) == empty_line);
        assert(!has_prefix(empty_line, breaking_marker()));
    }
    assert(m =~= subject);
    let ls = split_lines(m);
    assert(ls =~= seq![subject]);
    assert forall|i: int| 0 <= i < ls.len() implies !is_comment(#[trigger] ls[i]) by {
        assert(ls[i] == subject);
    }
    assert(!is_blank(ls.last())) by {
        assert(ls.last() == subject);
        assert(!is_ws(subject[0]));
    }
    lemma_drop_comments_noop(ls);
    assert(!is_blank(subject)) by {
        assert(!is_ws(subject[0]));
    }
    assert(trim_blank_lines(ls) == ls) by {
        assert(crate::text::drop_blank_front(ls) == ls);
        assert(crate::text::drop_blank_back(ls) == ls);
    }
    let lines = trim_blank_lines(drop_comments(split_lines(m)));
    assert(lines == ls);
    assert(trim(lines[0]) == subject);
    let rest = lines.drop_first();
    assert(rest.len() == 0);
    assert(spec_validate_rest(subject, ps, rest) == Ok::<(), ErrorModel>(()));
}

/// The composed message of a subject and body passes validation when no
/// body line is a comment or carries the footer marker.
#[verifier::rlimit(100)]
proof fn lemma_validate_composed_body(
    t: CommitType,
    scope: Option<Seq<char>>,
    summary: Seq<char>,
    b: Seq<char>,
    subject: Seq<char>,
)
    requires
        spec_summary(summary) == Ok::<Seq<char>, ErrorModel>(summary),
        match scope {
            Some(sc) => spec_scope(sc) == Ok::<Seq<char>, ErrorModel>(sc) && find_sub(
                sc,
                seq![':', ' '],
            ) < 0,
            None => true,
        },
        spec_body(b) == Ok::<Seq<char>, ErrorModel>(b),
        forall|i: int|
            0 <= i < split_lines(b).len() ==> !is_comment(#[trigger] split_lines(b)[i])
                && !is_breaking_line(split_lines(b)[i]),
        spec_subject_new(t, scope, summary, false) == Ok::<Seq<char>, ErrorModel>(subject),
    ensures
        spec_validate(spec_compose(subject, Some(b), None)) == Ok::<(), ErrorModel>(()),
{
    let body: Option<Seq<char>> = Some(b);
    let note: Option<Seq<char>> = None;
    let bang = note is Some;
    assert(subject == subject_text(t, scope, summary, bang));
    assert(subject.len() <= SUBJECT_MAX_LEN);
    lemma_subject_shape(t, scope, summary, bang, subject);
    lemma_subject_not_autosquash(t, scope, summary, bang, subject);
    lemma_subject_parses_back(t, scope, summary, bang, subject);
    lemma_marker_chars();
    let ps = ParsedSubject { ty: t, scope, summary, bang };
    let m = spec_compose(subject, body, note);
    lemma_split_no_nl(subject);
    let empty_line = Seq::<char>::empty();
    assert(is_blank(empty_line));
    assert(!is_comment(empty_line));
    assert(!is_breaking_line(empty_line)) by {
        assert(trim_start(empty_line) == empty_line);
        assert(!has_prefix(empty_line, breaking_marker()));
    }
    let bl = split_lines(b);
    lemma_trim_props(b);
    assert(trim(b) == b && b.len() > 0);
    assert(!is_ws(b[0]) && !is_ws(b.last()));
    lemma_split_first_nonblank(b);
    lemma_split_last_nonblank(b);
    assert(m =~= subject + seq!['\n'] + (empty_line + seq!['\n'] + b));
    lemma_split_concat(subject, empty_line + seq!['\n'] + b);
    lemma_split_concat(empty_line, b);
    lemma_split_no_nl(empty_line);
    let ls = split_lines(m);
    assert(ls =~= seq![subject, empty_line] + bl);
    assert forall|i: int| 0 <= i < ls.len() implies !is_comment(#[trigger] ls[i]) by {
        if i >= 2 {
            assert(ls[i] == bl[i - 2]);
        }
    }
    assert(!is_blank(ls.last())) by {
        assert(ls.last() == bl.last());
    }
    lemma_drop_comments_noop(ls);
    assert(!is_blank(subject)) by {
        assert(!is_ws(subject[0]));
    }
    assert(trim_blank_lines(ls) == ls) by {
        assert(crate::text::drop_blank_front(ls) == ls);
        assert(crate::text::drop_blank_back(ls) == ls);
    }
    let lines = trim_blank_lines(drop_comments(split_lines(m)));
    assert(lines == ls);
    assert(trim(lines[0]) == subject);
    let rest = lines.drop_first();
    assert(rest =~= seq![empty_line] + bl);
    assert(rest[0] == empty_line);
    let content = rest.drop_first();
    assert(content =~= bl);
    assert(content.len() > 0);
    assert(!(exists|i: int| 0 <= i < content.len() && is_breaking_line(#[trigger] content[i])))
        by {
        if exists|i: int| 0 <= i < content.len() && is_breaking_line(#[trigger] content[i]) {
            let i = choose|i: int|
                0 <= i < content.len() && is_breaking_line(#[trigger] content[i]);
            assert(content[i] == bl[i]);
            assert(!is_breaking_line(bl[i]));
        }
    }
    assert(spec_split_footer(content) == Ok::<(Seq<Seq<char>>, Option<Seq<char>>), ErrorModel>(
        (content, None),
    ));
    assert(spec_has_content(bl)) by {
        assert(!is_blank(bl[0]));
    }
    lemma_join_split(b);
    assert(join_lines(content) == b);
    assert(spec_validate_tail(ps, content, None) == Ok::<(), ErrorModel>(()));
}

/// The composed message of a bang subject and breaking footer passes
/// validation.
#[verifier::rlimit(100)]
proof fn lemma_validate_composed_note(
    t: CommitType,
    scope: Option<Seq<char>>,
    summary: Seq<char>,
    n: Seq<char>,
    subject: Seq<char>,
)
    requires
        spec_summary(summary) == Ok::<Seq<char>, ErrorModel>(summary),
        match scope {
            Some(sc) => spec_scope(sc) == Ok::<Seq<char>, ErrorModel>(sc) && find_sub(
                sc,
                seq![':', ' '],
            ) < 0,
            None => true,
        },
        spec_note(n) == Ok::<Seq<char>, ErrorModel>(n),
        spec_subject_new(t, scope, summary, true) == Ok::<Seq<char>, ErrorModel>(subject),
    ensures
        spec_validate(spec_compose(subject, None, Some(n))) == Ok::<(), ErrorModel>(()),
{
    let body: Option<Seq<char>> = None;
    let note: Option<Seq<char>> = Some(n);
    let bang = note is Some;
    assert(subject == subject_text(t, scope, summary, bang));
    assert(subject.len() <= SUBJECT_MAX_LEN);
    lemma_subject_shape(t, scope, summary, bang, subject);
    lemma_subject_not_autosquash(t, scope, summary, bang, subject);
    lemma_subject_parses_back(t, scope, summary, bang, subject);
    lemma_marker_chars();
    let ps = ParsedSubject { ty: t, scope, summary, bang };
    let m = spec_compose(subject, body, note);
    lemma_split_no_nl(subject);
    let empty_line = Seq::<char>::empty();
    assert(is_blank(empty_line));
    assert(!is_comment(empty_line));
    assert(!is_breaking_line(empty_line)) by {
        assert(trim_start(empty_line) == empty_line);
        assert(!has_prefix(empty_line, breaking_marker()));
    }
    let f = breaking_marker() + seq![' '] + n;
    lemma_trim_props(n);
    assert(trim(n) == n && n.len() > 0);
    assert(!is_ws(n[0]) && !is_ws(n.last()));
    assert(f[0] == breaking_marker()[0]);
    assert(!is_ws(f[0]));
    assert(f.last() == n.last()) by {
        assert(f[f.len() - 1] == n[n.len() - 1]);
    }
    assert(!contains_char(f, '\n')) by {
        if contains_char(f, '\n') {
            let j = choose|j: int| 0 <= j < f.len() && f[j] == '\n';
            if j < 16 {
                assert(f[j] == breaking_marker()[j]);
                assert(contains_char(breaking_marker(), '\n'));
            } else if j == 16 {
                assert(f[j] == ' ');
            } else {
                assert(f[j] == n[j - 17]);
                assert(contains_char(n, '\n'));
            }
        }
    }
    lemma_split_no_nl(f);
    assert(!is_blank(f));
    assert(!is_comment(f));
    assert(is_breaking_line(f)) by {
        assert(trim_start(f) == f);
        assert(f.subrange(0, 16) =~= breaking_marker());
    }
    lemma_trim_noop(f);
    assert(f.skip(16) =~= seq![' '] + n);
    assert(trim(seq![' '] + n) == n) by {
        assert(is_ws((seq![' '] + n)[0]));
        assert((seq![' '] + n).drop_first() =~= n);
        assert(trim_start(n) == n);
        assert(crate::text::trim_end(n) == n);
    }
    assert(m =~= subject + seq!['\n'] + (empty_line + seq!['\n'] + f));
    lemma_split_concat(subject, empty_line + seq!['\n'] + f);
    lemma_split_concat(empty_line, f);
    lemma_split_no_nl(empty_line);
    let ls = split_lines(m);
    assert(ls =~= seq![subject, empty_line, f]);
    assert forall|i: int| 0 <= i < ls.len() implies !is_comment(#[trigger] ls[i]) by {}
    assert(!is_blank(ls.last())) by {
        assert(ls.last() == f);
    }
    lemma_drop_comments_noop(ls);
    assert(!is_blank(subject)) by {
        assert(!is_ws(subject[0]));
    }
    assert(trim_blank_lines(ls) == ls) by {
        assert(crate::text::drop_blank_front(ls) == ls);
        assert(crate::text::drop_blank_back(ls) == ls);
    }
    let lines = trim_blank_lines(drop_comments(split_lines(m)));
    assert(lines == ls);
    assert(trim(lines[0]) == subject);
    let rest = lines.drop_first();
    assert(rest =~= seq![empty_line, f]);
    assert(rest[0] == empty_line);
    let content = rest.drop_first();
    assert(content =~= seq![f]);
    assert(content.len() == 1);
    assert(content.last() == f);
    assert(exists|i: int| 0 <= i < content.len() && is_breaking_line(#[trigger] content[i])) by {
        assert(is_breaking_line(content[0]));
    }
    assert(trim(trim(content.last()).skip(breaking_marker().len() as int)) == n);
    assert(spec_split_footer(content) == Ok::<(Seq<Seq<char>>, Option<Seq<char>>), ErrorModel>(
        (Seq::empty(), Some(n)),
    ));
    assert(!spec_has_content(Seq::<Seq<char>>::empty()));
    assert(spec_validate_tail(ps, Seq::empty(), Some(n)) == Ok::<(), ErrorModel>(()));
}

/// The composed message of a bang subject, body and breaking footer passes
/// validation under the same body-line conditions.
#[verifier::rlimit(100)]
proof fn lemma_validate_composed_full(
    t: CommitType,
    scope: Option<Seq<char>>,
    summary: Seq<char>,
    b: Seq<char>,
    n: Seq<char>,
    subject: Seq<char>,
)
    requires
        spec_summary(summary) == Ok::<Seq<char>, ErrorModel>(summary),
        match scope {
            Some(sc) => spec_scope(sc) == Ok::<Seq<char>, ErrorModel>(sc) && find_sub(
                sc,
                seq![':', ' '],
            ) < 0,
            None => true,
        },
        spec_body(b) == Ok::<Seq<char>, ErrorModel>(b),
        forall|i: int|
            0 <= i < split_lines(b).len() ==> !is_comment(#[trigger] split_lines(b)[i])
                && !is_breaking_line(split_lines(b)[i]),
        spec_note(n) == Ok::<Seq<char>, ErrorModel>(n),
        spec_subject_new(t, scope, summary, true) == Ok::<Seq<char>, ErrorModel>(subject),
    ensures
        spec_validate(spec_compose(subject, Some(b), Some(n))) == Ok::<(), ErrorModel>(()),
{
    let body: Option<Seq<char>> = Some(b);
    let note: Option<Seq<char>> = Some(n);
    let bang = note is Some;
    assert(subject == subject_text(t, scope, summary, bang));
    assert(subject.len() <= SUBJECT_MAX_LEN);
    lemma_subject_shape(t, scope, summary, bang, subject);
    lemma_subject_not_autosquash(t, scope, summary, bang, subject);
    lemma_subject_parses_back(t, scope, summary, bang, subject);
    lemma_marker_chars();
    let ps = ParsedSubject { ty: t, scope, summary, bang };
    let m = spec_compose(subject, body, note);
    lemma_split_no_nl(subject);
    let empty_line = Seq::<char>::empty();
    assert(is_blank(empty_line));
    assert(!is_comment(empty_line));
    assert(!is_breaking_line(empty_line)) by {
        assert(trim_start(empty_line) == empty_line);
        assert(!has_prefix(empty_line, breaking_marker()));
    }
    let f = breaking_marker() + seq![' '] + n;
    lemma_trim_props(n);
    assert(trim(n) == n && n.len() > 0);
    assert(!is_ws(n[0]) && !is_ws(n.last()));
    assert(f[0] == breaking_marker()[0]);
    assert(!is_ws(f[0]));
    assert(f.last() == n.last()) by {
        assert(f[f.len() - 1] == n[n.len() - 1]);
    }
    assert(!contains_char(f, '\n')) by {
        if contains_char(f, '\n') {
            let j = choose|j: int| 0 <= j < f.len() && f[j] == '\n';
            if j < 16 {
                assert(f[j] == breaking_marker()[j]);
                assert(contains_char(breaking_marker(), '\n'));
            } else if j == 16 {
                assert(f[j] == ' ');
            } else {
                assert(f[j] == n[j - 17]);
                assert(contains_char(n, '\n'));
            }
        }
    }
    lemma_split_no_nl(f);
    assert(!is_blank(f));
    assert(!is_comment(f));
    assert(is_breaking_line(f)) by {
        assert(trim_start(f) == f);
        assert(f.subrange(0, 16) =~= breaking_marker());
    }
    lemma_trim_noop(f);
    assert(f.skip(16) =~= seq![' '] + n);
    assert(trim(seq![' '] + n) == n) by {
        assert(is_ws((seq![' '] + n)[0]));
        assert((seq![' '] + n).drop_first() =~= n);
        assert(trim_start(n) == n);
        assert(crate::text::trim_end(n) == n);
    }
    let bl = split_lines(b);
    lemma_trim_props(b);
    assert(trim(b) == b && b.len() > 0);
    assert(!is_ws(b[0]) && !is_ws(b.last()));
    lemma_split_first_nonblank(b);
    lemma_split_last_nonblank(b);
    let w3 = empty_line + seq!['\n'] + f;
    let w2 = b + seq!['\n'] + w3;
    let w1 = empty_line + seq!['\n'] + w2;
    assert(m =~= subject + seq!['\n'] + w1);
    lemma_split_concat(subject, w1);
    lemma_split_concat(empty_line, w2);
    lemma_split_concat(b, w3);
    lemma_split_concat(empty_line, f);
    lemma_split_no_nl(empty_line);
    let ls = split_lines(m);
    assert(ls =~= (seq![subject, empty_line] + bl) + seq![empty_line, f]);
    assert forall|i: int| 0 <= i < ls.len() implies !is_comment(#[trigger] ls[i]) by {
        if 2 <= i < 2 + bl.len() {
            assert(ls[i] == bl[i - 2]);
        }
    }
    assert(!is_blank(ls.last())) by {
        assert(ls.last() == f);
    }
    lemma_drop_comments_noop(ls);
    assert(!is_blank(subject)) by {
        assert(!is_ws(subject[0]));
    }
    assert(trim_blank_lines(ls) == ls) by {
        assert(crate::text::drop_blank_front(ls) == ls);
        assert(crate::text::drop_blank_back(ls) == ls);
    }
    let lines = trim_blank_lines(drop_comments(split_lines(m)));
    assert(lines == ls);
    assert(trim(lines[0]) == subject);
    let rest = lines.drop_first();
    assert(rest =~= (seq![empty_line] + bl) + seq![empty_line, f]);
    assert(rest[0] == empty_line);
    let content = rest.drop_first();
    assert(content =~= bl + seq![empty_line, f]);
    let cl = content.len() as int;
    assert(cl == bl.len() + 2);
    assert(content.last() == f);
    assert(exists|i: int| 0 <= i < cl && is_breaking_line(#[trigger] content[i])) by {
        assert(is_breaking_line(content[cl - 1]));
    }
    assert forall|i: int| 0 <= i < cl - 1 implies !is_breaking_line(#[trigger] content[i]) by {
        if i < bl.len() {
            assert(content[i] == bl[i]);
        } else {
            assert(content[i] == empty_line);
        }
    }
    assert(trim(trim(content.last()).skip(breaking_marker().len() as int)) == n);
    assert(content[cl - 2] == empty_line);
    assert(content.take(cl - 2) =~= bl);
    assert(spec_split_footer(content) == Ok::<(Seq<Seq<char>>, Option<Seq<char>>), ErrorModel>(
        (bl, Some(n)),
    ));
    assert(spec_has_content(bl)) by {
        assert(!is_blank(bl[0]));
    }
    lemma_join_split(b);
    assert(join_lines(bl) == b);
    assert(spec_validate_tail(ps, bl, Some(n)) == Ok::<(), ErrorModel>(()));
}

/// Validating a composed message succeeds: for a subject built from
/// validated parts, an optional validated body and an optional validated
/// note whose presence matches the subject's bang, the composed message
/// passes validation — provided the scope contains no `": "` and no body
/// line is a comment or carries the footer marker.
pub proof fn lemma_validate_composed(
    t: CommitType,
    scope: Option<Seq<char>>,
    summary: Seq<char>,
    body: Option<Seq<char>>,
    note: Option<Seq<char>>,
    subject: Seq<char>,
)
    requires
        spec_summary(summary) == Ok::<Seq<char>, ErrorModel>(summary),
        match scope {
            Some(sc) => spec_scope(sc) == Ok::<Seq<char>, ErrorModel>(sc) && find_sub(
                sc,
                seq![':', ' '],
            ) < 0,
            None => true,
        },
        match body {
            Some(b) => spec_body(b) == Ok::<Seq<char>, ErrorModel>(b) && (forall|i: int|
                0 <= i < split_lines(b).len() ==> !is_comment(#[trigger] split_lines(b)[i])
                    && !is_breaking_line(split_lines(b)[i])),
            None => true,
        },
        match note {
            Some(n) => spec_note(n) == Ok::<Seq<char>, ErrorModel>(n),
            None => true,
        },
        spec_subject_new(t, scope, summary, note is Some) == Ok::<Seq<char>, ErrorModel>(subject),
    ensures
        spec_validate(spec_compose(subject, body, note)) == Ok::<(), ErrorModel>(()),
{
    match (body, note) {
        (None, None) => lemma_validate_composed_plain(t, scope, summary, subject),
        (Some(b), None) => lemma_validate_composed_body(t, scope, summary, b, subject),
        (None, Some(n)) => lemma_validate_composed_note(t, scope, summary, n, subject),
        (Some(b), Some(n)) => lemma_validate_composed_full(t, scope, summary, b, n, subject),
    }
}

} // verus!
