//! Character-sequence primitives: whitespace, trimming, line splitting and
//! joining, substring search, and whitespace collapsing, each as a spec
//! function on `Seq<char>` with a verified executable mirror on `Vec<char>`.
use vstd::prelude::*;
use vstd::string::StrSliceExecFns;

verus! {

/// The characters Rust's `char::is_whitespace` accepts (the Unicode
/// `White_Space` property).
pub open spec fn is_ws(c: char) -> bool {
    ||| c == ' '
    ||| c == '\t'
    ||| c == '\n'
    ||| c == '\r'
    ||| c == '\u{b}'
    ||| c == '\u{c}'
    ||| c == '\u{85}'
    ||| c == '\u{a0}'
    ||| c == '\u{1680}'
    ||| ('\u{2000}' <= c && c <= '\u{200a}')
    ||| c == '\u{2028}'
    ||| c == '\u{2029}'
    ||| c == '\u{202f}'
    ||| c == '\u{205f}'
    ||| c == '\u{3000}'
}

pub fn ws_char(c: char) -> (b: bool)
    ensures
        b == is_ws(c),
{
    c == ' ' || c == '\t' || c == '\n' || c == '\r' || c == '\u{b}' || c == '\u{c}'
        || c == '\u{85}' || c == '\u{a0}' || c == '\u{1680}'
        || ('\u{2000}' <= c && c <= '\u{200a}') || c == '\u{2028}' || c == '\u{2029}'
        || c == '\u{202f}' || c == '\u{205f}' || c == '\u{3000}'
}

/// A sequence is blank when every character in it is whitespace.
pub open spec fn is_blank(s: Seq<char>) -> bool {
    forall|i: int| 0 <= i < s.len() ==> is_ws(s[i])
}

pub open spec fn trim_start(s: Seq<char>) -> Seq<char>
    decreases s.len(),
{
    if s.len() > 0 && is_ws(s[0]) {
        trim_start(s.drop_first())
    } else {
        s
    }
}

pub open spec fn trim_end(s: Seq<char>) -> Seq<char>
    decreases s.len(),
{
    if s.len() > 0 && is_ws(s.last()) {
        trim_end(s.drop_last())
    } else {
        s
    }
}

/// Both ends trimmed, as `str::trim` does.
pub open spec fn trim(s: Seq<char>) -> Seq<char> {
    trim_end(trim_start(s))
}

pub proof fn lemma_trim_start_skip(s: Seq<char>, k: int)
    requires
        0 <= k <= s.len(),
        forall|j: int| 0 <= j < k ==> is_ws(s[j]),
    ensures
        trim_start(s) == trim_start(s.skip(k)),
    decreases k,
{
    if k == 0 {
        assert(s.skip(0) =~= s);
    } else {
        assert(is_ws(s[0]));
        lemma_trim_start_skip(s.drop_first(), k - 1);
        assert(s.drop_first().skip(k - 1) =~= s.skip(k));
    }
}

pub proof fn lemma_trim_end_take(s: Seq<char>, k: int)
    requires
        0 <= k <= s.len(),
        forall|j: int| k <= j < s.len() ==> is_ws(s[j]),
    ensures
        trim_end(s) == trim_end(s.take(k)),
    decreases s.len() - k,
{
    if k == s.len() {
        assert(s.take(k) =~= s);
    } else {
        assert(is_ws(s.last()));
        lemma_trim_end_take(s.drop_last(), k);
        assert(s.drop_last().take(k) =~= s.take(k));
    }
}

/// The shape of a trimmed sequence: a subrange of the input whose ends are
/// not whitespace.
pub proof fn lemma_trim_start_props(s: Seq<char>)
    ensures
        trim_start(s).len() <= s.len(),
        trim_start(s) == s.skip(s.len() - trim_start(s).len()),
        trim_start(s).len() > 0 ==> !is_ws(trim_start(s)[0]),
        forall|j: int| 0 <= j < s.len() - trim_start(s).len() ==> is_ws(s[j]),
    decreases s.len(),
{
    if s.len() > 0 && is_ws(s[0]) {
        lemma_trim_start_props(s.drop_first());
        let r = trim_start(s);
        assert(s.drop_first().skip(s.len() - 1 - r.len()) =~= s.skip(s.len() - r.len()));
        assert forall|j: int| 0 <= j < s.len() - r.len() implies is_ws(s[j]) by {
            if j > 0 {
                assert(s[j] == s.drop_first()[j - 1]);
            }
        }
    } else {
        assert(s.skip(0) =~= s);
    }
}

pub proof fn lemma_trim_end_props(s: Seq<char>)
    ensures
        trim_end(s).len() <= s.len(),
        trim_end(s) == s.take(trim_end(s).len() as int),
        trim_end(s).len() > 0 ==> !is_ws(trim_end(s).last()),
        forall|j: int| trim_end(s).len() <= j < s.len() ==> is_ws(s[j]),
    decreases s.len(),
{
    if s.len() > 0 && is_ws(s.last()) {
        lemma_trim_end_props(s.drop_last());
        let r = trim_end(s);
        assert(s.drop_last().take(r.len() as int) =~= s.take(r.len() as int));
        assert forall|j: int| r.len() <= j < s.len() implies is_ws(s[j]) by {
            if j < s.len() - 1 {
                assert(s[j] == s.drop_last()[j]);
            }
        }
    } else {
        assert(s.take(s.len() as int) =~= s);
    }
}

/// Trimming a sequence whose ends are already free of whitespace changes
/// nothing; in particular trimming is idempotent.
pub proof fn lemma_trim_noop(s: Seq<char>)
    requires
        s.len() > 0 ==> !is_ws(s[0]),
        s.len() > 0 ==> !is_ws(s.last()),
    ensures
        trim(s) == s,
{
}

pub proof fn lemma_trim_props(s: Seq<char>)
    ensures
        trim(s).len() <= s.len(),
        trim(s).len() > 0 ==> !is_ws(trim(s)[0]) && !is_ws(trim(s).last()),
        trim(s).len() == 0 <==> is_blank(s),
        forall|j: int| 0 <= j < trim(s).len() ==> exists|i: int|
            0 <= i < s.len() && s[i] == #[trigger] trim(s)[j],
{
    lemma_trim_start_props(s);
    lemma_trim_end_props(trim_start(s));
    let t = trim(s);
    let a = s.len() - trim_start(s).len();
    assert forall|j: int| 0 <= j < t.len() implies exists|i: int|
        0 <= i < s.len() && s[i] == #[trigger] t[j] by {
        assert(t[j] == trim_start(s)[j]);
        assert(trim_start(s)[j] == s[a + j]);
    }
    if t.len() == 0 {
        assert forall|i: int| 0 <= i < s.len() implies is_ws(s[i]) by {
            if i < a {
            } else {
                assert(s[i] == trim_start(s)[i - a]);
            }
        }
    } else {
        assert(!is_ws(t[0]));
        let i0 = a + 0;
        assert(s[i0] == t[0]);
        assert(!is_blank(s));
    }
}

/// Trim both ends of a character vector.
pub fn trim_vec(v: &Vec<char>) -> (r: Vec<char>)
    ensures
        r@ == trim(v@),
{
    let n = v.len();
    let mut i: usize = 0;
    while i < n && ws_char(v[i])
        invariant
            0 <= i <= n,
            n == v.len(),
            forall|j: int| 0 <= j < i ==> is_ws(v@[j]),
        decreases n - i,
    {
        i = i + 1;
    }
    let mut j: usize = n;
    while j > i && ws_char(v[j - 1])
        invariant
            i <= j <= n,
            n == v.len(),
            forall|k: int| j <= k < n ==> is_ws(v@[k]),
        decreases j,
    {
        j = j - 1;
    }
    let mut out: Vec<char> = Vec::new();
    let mut k: usize = i;
    while k < j
        invariant
            i <= k <= j <= n,
            n == v.len(),
            out@ =~= v@.subrange(i as int, k as int),
        decreases j - k,
    {
        out.push(v[k]);
        k = k + 1;
    }
    proof {
        lemma_trim_start_skip(v@, i as int);
        if i < n {
            assert(!is_ws(v@.skip(i as int)[0]));
        }
        lemma_trim_start_props(v@.skip(i as int));
        assert(trim_start(v@.skip(i as int)) == v@.skip(i as int));
        lemma_trim_end_take(v@.skip(i as int), j - i);
        if j > i {
            assert(v@.skip(i as int).take(j - i).last() == v@[j - 1]);
            assert(!is_ws(v@.skip(i as int).take(j - i).last()));
        }
        lemma_trim_end_props(v@.skip(i as int).take(j - i));
        assert(trim_end(v@.skip(i as int).take(j - i)) == v@.skip(i as int).take(j - i));
        assert(v@.skip(i as int).take(j - i) =~= v@.subrange(i as int, j as int));
        assert(trim(v@) == v@.subrange(i as int, j as int));
    }
    out
}

pub fn blank_vec(v: &Vec<char>) -> (b: bool)
    ensures
        b == is_blank(v@),
{
    let mut k: usize = 0;
    while k < v.len()
        invariant
            0 <= k <= v.len(),
            forall|j: int| 0 <= j < k ==> is_ws(v@[j]),
        decreases v.len() - k,
    {
        if !ws_char(v[k]) {
            return false;
        }
        k = k + 1;
    }
    true
}

/// The index of the first occurrence of `c` in `s`, or -1 when absent.
pub open spec fn find_char(s: Seq<char>, c: char) -> int
    decreases s.len(),
{
    if s.len() == 0 {
        -1
    } else if s[0] == c {
        0
    } else {
        let r = find_char(s.drop_first(), c);
        if r < 0 {
            -1
        } else {
            r + 1
        }
    }
}

pub proof fn lemma_find_char(s: Seq<char>, c: char)
    ensures
        find_char(s, c) < 0 ==> forall|i: int| 0 <= i < s.len() ==> s[i] != c,
        find_char(s, c) >= 0 ==> 0 <= find_char(s, c) < s.len() && s[find_char(s, c)] == c
            && forall|i: int| 0 <= i < find_char(s, c) ==> s[i] != c,
    decreases s.len(),
{
    if s.len() == 0 {
    } else if s[0] == c {
    } else {
        lemma_find_char(s.drop_first(), c);
        let r = find_char(s.drop_first(), c);
        if r < 0 {
            assert forall|i: int| 0 <= i < s.len() implies s[i] != c by {
                if i > 0 {
                    assert(s[i] == s.drop_first()[i - 1]);
                }
            }
        } else {
            assert(s[r + 1] == s.drop_first()[r]);
            assert forall|i: int| 0 <= i < r + 1 implies s[i] != c by {
                if i > 0 {
                    assert(s[i] == s.drop_first()[i - 1]);
                }
            }
        }
    }
}

/// `find_char` is pinned down by its characterization.
pub proof fn lemma_find_char_is(s: Seq<char>, c: char, k: int)
    requires
        0 <= k < s.len(),
        s[k] == c,
        forall|i: int| 0 <= i < k ==> s[i] != c,
    ensures
        find_char(s, c) == k,
{
    lemma_find_char(s, c);
    let r = find_char(s, c);
    if r < 0 {
        assert(s[k] != c);
    } else if r < k {
        assert(s[r] != c);
    } else if r > k {
        assert(s[k] != c);
    }
}

/// `pat` occurs in `s` starting at index `i`.
pub open spec fn matches_at(s: Seq<char>, pat: Seq<char>, i: int) -> bool {
    0 <= i && i + pat.len() <= s.len() && s.subrange(i, i + pat.len() as int) == pat
}

pub open spec fn has_prefix(s: Seq<char>, pat: Seq<char>) -> bool {
    pat.len() <= s.len() && s.subrange(0, pat.len() as int) == pat
}

/// The index of the first occurrence of `pat` as a substring of `s`, or -1.
pub open spec fn find_sub(s: Seq<char>, pat: Seq<char>) -> int
    decreases s.len(),
{
    if pat.len() > s.len() {
        -1
    } else if s.subrange(0, pat.len() as int) == pat {
        0
    } else if s.len() == 0 {
        -1
    } else {
        let r = find_sub(s.drop_first(), pat);
        if r < 0 {
            -1
        } else {
            r + 1
        }
    }
}

pub proof fn lemma_find_sub(s: Seq<char>, pat: Seq<char>)
    ensures
        find_sub(s, pat) < 0 ==> forall|i: int| !matches_at(s, pat, i),
        find_sub(s, pat) >= 0 ==> matches_at(s, pat, find_sub(s, pat))
            && forall|i: int| 0 <= i < find_sub(s, pat) ==> !matches_at(s, pat, i),
    decreases s.len(),
{
    if pat.len() > s.len() {
        assert forall|i: int| !matches_at(s, pat, i) by {}
    } else if s.subrange(0, pat.len() as int) == pat {
    } else {
        if s.len() == 0 {
            assert(s.subrange(0, 0) =~= pat);
        } else {
            lemma_find_sub(s.drop_first(), pat);
            let r = find_sub(s.drop_first(), pat);
            assert forall|i: int| 1 <= i && i + pat.len() <= s.len() implies
                matches_at(s, pat, i) == matches_at(s.drop_first(), pat, i - 1) by {
                assert(s.subrange(i, i + pat.len() as int) =~= s.drop_first().subrange(
                    i - 1,
                    i - 1 + pat.len() as int,
                ));
            }
            if r < 0 {
                assert forall|i: int| !matches_at(s, pat, i) by {
                    if i == 0 {
                        assert(!matches_at(s, pat, 0));
                    } else if 1 <= i && i + pat.len() <= s.len() {
                        assert(!matches_at(s.drop_first(), pat, i - 1));
                    }
                }
            } else {
                assert(matches_at(s.drop_first(), pat, r));
                assert(matches_at(s, pat, r + 1));
                assert forall|i: int| 0 <= i < r + 1 implies !matches_at(s, pat, i) by {
                    if i == 0 {
                        assert(!matches_at(s, pat, 0));
                    } else {
                        assert(!matches_at(s.drop_first(), pat, i - 1));
                    }
                }
            }
        }
    }
}

pub proof fn lemma_find_sub_is(s: Seq<char>, pat: Seq<char>, k: int)
    requires
        matches_at(s, pat, k),
        forall|i: int| 0 <= i < k ==> !matches_at(s, pat, i),
    ensures
        find_sub(s, pat) == k,
{
    lemma_find_sub(s, pat);
    let r = find_sub(s, pat);
    if r < 0 {
        assert(!matches_at(s, pat, k));
    } else if r < k {
        assert(!matches_at(s, pat, r));
    } else if r > k {
        assert(!matches_at(s, pat, k));
    }
}

pub open spec fn contains_char(s: Seq<char>, c: char) -> bool {
    exists|i: int| 0 <= i < s.len() && s[i] == c
}

pub fn contains_vec(v: &Vec<char>, c: char) -> (b: bool)
    ensures
        b == contains_char(v@, c),
{
    let mut k: usize = 0;
    while k < v.len()
        invariant
            0 <= k <= v.len(),
            forall|j: int| 0 <= j < k ==> v@[j] != c,
        decreases v.len() - k,
    {
        if v[k] == c {
            return true;
        }
        k = k + 1;
    }
    false
}

/// The characters of a `&str`, in order.
pub fn chars_of(s: &str) -> (v: Vec<char>)
    ensures
        v@ == s@,
{
    let n = s.unicode_len();
    let mut v: Vec<char> = Vec::new();
    let mut i: usize = 0;
    while i < n
        invariant
            0 <= i <= n,
            n == s@.len(),
            v@ =~= s@.subrange(0, i as int),
        decreases n - i,
    {
        v.push(s.get_char(i));
        i = i + 1;
    }
    proof {
        assert(s@.subrange(0, n as int) =~= s@);
    }
    v
}

/// Relies on `String`'s `FromIterator<&char>` implementation: collecting the
/// characters of a vector yields the string of exactly those characters, in
/// order.
#[verifier::external_body]
pub fn string_from_chars(v: &Vec<char>) -> (s: String)
    ensures
        s@ == v@,
{
    v.iter().collect()
}

pub fn eq_str(v: &Vec<char>, s: &str) -> (b: bool)
    ensures
        b == (v@ == s@),
{
    let n = s.unicode_len();
    if v.len() != n {
        proof {
            assert(v@.len() != s@.len());
        }
        return false;
    }
    let mut i: usize = 0;
    while i < n
        invariant
            0 <= i <= n,
            n == s@.len(),
            n == v@.len(),
            forall|j: int| 0 <= j < i ==> v@[j] == s@[j],
        decreases n - i,
    {
        if v[i] != s.get_char(i) {
            proof {
                assert(v@[i as int] != s@[i as int]);
            }
            return false;
        }
        i = i + 1;
    }
    proof {
        assert(v@ =~= s@);
    }
    true
}

pub fn prefix_str(v: &Vec<char>, p: &str) -> (b: bool)
    ensures
        b == has_prefix(v@, p@),
{
    let n = p.unicode_len();
    if v.len() < n {
        return false;
    }
    let mut i: usize = 0;
    while i < n
        invariant
            0 <= i <= n,
            n == p@.len(),
            n <= v@.len(),
            forall|j: int| 0 <= j < i ==> v@[j] == p@[j],
        decreases n - i,
    {
        if v[i] != p.get_char(i) {
            proof {
                assert(v@.subrange(0, p@.len() as int)[i as int] != p@[i as int]);
            }
            return false;
        }
        i = i + 1;
    }
    proof {
        assert(v@.subrange(0, p@.len() as int) =~= p@);
    }
    true
}

pub fn push_all(dst: &mut Vec<char>, src: &Vec<char>)
    ensures
        final(dst)@ == old(dst)@ + src@,
{
    let mut k: usize = 0;
    while k < src.len()
        invariant
            0 <= k <= src.len(),
            dst@ =~= old(dst)@ + src@.subrange(0, k as int),
        decreases src.len() - k,
    {
        dst.push(src[k]);
        k = k + 1;
    }
    proof {
        assert(src@.subrange(0, src@.len() as int) =~= src@);
    }
}

/// The views of a sequence of character vectors.
pub open spec fn views_of(vs: Seq<Vec<char>>) -> Seq<Seq<char>> {
    Seq::new(vs.len(), |i: int| vs[i]@)
}

/// Split on line feeds: the segments between '\n' characters, with no
/// terminator required, as splitting text into lines.
pub open spec fn split_lines(s: Seq<char>) -> Seq<Seq<char>>
    decreases s.len(),
{
    let i = find_char(s, '\n');
    if 0 <= i < s.len() {
        seq![s.subrange(0, i)] + split_lines(s.skip(i + 1))
    } else {
        seq![s]
    }
}

pub proof fn lemma_split_no_nl(s: Seq<char>)
    requires
        !contains_char(s, '\n'),
    ensures
        split_lines(s) == seq![s],
{
    lemma_find_char(s, '\n');
    let i = find_char(s, '\n');
    if 0 <= i < s.len() {
        assert(contains_char(s, '\n'));
    }
}

/// Splitting distributes over concatenation at a line feed.
pub proof fn lemma_split_concat(u: Seq<char>, w: Seq<char>)
    ensures
        split_lines(u + seq!['\n'] + w) == split_lines(u) + split_lines(w),
    decreases u.len(),
{
    let s = u + seq!['\n'] + w;
    lemma_find_char(u, '\n');
    let k = find_char(u, '\n');
    if k < 0 {
        assert(s[u.len() as int] == '\n');
        assert forall|i: int| 0 <= i < u.len() implies s[i] != '\n' by {
            assert(s[i] == u[i]);
        }
        lemma_find_char_is(s, '\n', u.len() as int);
        assert(s.subrange(0, u.len() as int) =~= u);
        assert(s.skip(u.len() as int + 1) =~= w);
        lemma_split_no_nl(u);
        assert(split_lines(s) == seq![u] + split_lines(w));
    } else {
        assert(s[k] == u[k]);
        assert forall|i: int| 0 <= i < k implies s[i] != '\n' by {
            assert(s[i] == u[i]);
        }
        lemma_find_char_is(s, '\n', k);
        assert(s.subrange(0, k) =~= u.subrange(0, k));
        assert(s.skip(k + 1) =~= u.skip(k + 1) + seq!['\n'] + w);
        lemma_split_concat(u.skip(k + 1), w);
        assert(seq![u.subrange(0, k)] + (split_lines(u.skip(k + 1)) + split_lines(w)) =~= (seq![
            u.subrange(0, k),
        ] + split_lines(u.skip(k + 1))) + split_lines(w));
    }
}

/// Join lines with a line feed between each pair.
pub open spec fn join_lines(ls: Seq<Seq<char>>) -> Seq<char>
    decreases ls.len(),
{
    if ls.len() == 0 {
        Seq::empty()
    } else if ls.len() == 1 {
        ls[0]
    } else {
        ls[0] + seq!['\n'] + join_lines(ls.drop_first())
    }
}

pub proof fn lemma_join_push(ls: Seq<Seq<char>>, l: Seq<char>)
    ensures
        ls.len() == 0 ==> join_lines(ls.push(l)) == l,
        ls.len() > 0 ==> join_lines(ls.push(l)) == join_lines(ls) + seq!['\n'] + l,
    decreases ls.len(),
{
    if ls.len() == 0 {
        assert(join_lines(ls.push(l)) == ls.push(l)[0]);
        assert(ls.push(l)[0] == l);
    } else if ls.len() == 1 {
        assert(ls.push(l).drop_first() =~= seq![l]);
        assert(join_lines(seq![l]) == seq![l][0]);
        assert(seq![l][0] == l);
        assert(ls.push(l)[0] == ls[0]);
        assert(join_lines(ls.push(l)) == ls[0] + seq!['\n'] + l);
        assert(join_lines(ls) == ls[0]);
    } else {
        lemma_join_push(ls.drop_first(), l);
        assert(ls.push(l).drop_first() =~= ls.drop_first().push(l));
        assert(ls.push(l)[0] == ls[0]);
        assert(ls[0] + seq!['\n'] + (join_lines(ls.drop_first()) + seq!['\n'] + l) =~= (ls[0]
            + seq!['\n'] + join_lines(ls.drop_first())) + seq!['\n'] + l);
    }
}

/// Split a character vector into its lines.
pub fn split_vec(v: &Vec<char>) -> (r: Vec<Vec<char>>)
    ensures
        views_of(r@) == split_lines(v@),
{
    let mut acc: Vec<Vec<char>> = Vec::new();
    let mut cur: Vec<char> = Vec::new();
    let mut idx: usize = 0;
    proof {
        assert(cur@ + v@.skip(0) =~= v@);
        assert(views_of(acc@) + split_lines(v@) =~= split_lines(v@));
    }
    while idx < v.len()
        invariant
            0 <= idx <= v@.len(),
            !contains_char(cur@, '\n'),
            split_lines(v@) =~= views_of(acc@) + split_lines(cur@ + v@.skip(idx as int)),
        decreases v@.len() - idx,
    {
        let c = v[idx];
        proof {
            assert((cur@ + v@.skip(idx as int))[cur@.len() as int] == c);
        }
        if c == '\n' {
            proof {
                assert(cur@ + v@.skip(idx as int) =~= cur@ + seq!['\n'] + v@.skip(idx + 1));
                lemma_split_concat(cur@, v@.skip(idx + 1));
                lemma_split_no_nl(cur@);
                assert(views_of(acc@.push(cur)) =~= views_of(acc@).push(cur@));
                assert(views_of(acc@) + (seq![cur@] + split_lines(v@.skip(idx + 1))) =~= views_of(
                    acc@.push(cur),
                ) + split_lines(v@.skip(idx + 1)));
            }
            acc.push(cur);
            cur = Vec::new();
            proof {
                assert(cur@ + v@.skip(idx + 1) =~= v@.skip(idx + 1));
            }
        } else {
            let ghost pre = cur@;
            cur.push(c);
            proof {
                assert(cur@ + v@.skip(idx + 1) =~= pre + v@.skip(idx as int));
            }
        }
        idx = idx + 1;
    }
    proof {
        assert(cur@ + v@.skip(v@.len() as int) =~= cur@);
        lemma_split_no_nl(cur@);
        assert(views_of(acc@.push(cur)) =~= views_of(acc@).push(cur@));
        assert(views_of(acc@) + seq![cur@] =~= views_of(acc@).push(cur@));
    }
    acc.push(cur);
    acc
}

/// Join a vector of lines with line feeds.
pub fn join_vec(ls: &Vec<Vec<char>>) -> (r: Vec<char>)
    ensures
        r@ == join_lines(views_of(ls@)),
{
    let mut out: Vec<char> = Vec::new();
    let mut i: usize = 0;
    while i < ls.len()
        invariant
            0 <= i <= ls@.len(),
            out@ =~= join_lines(views_of(ls@).take(i as int)),
        decreases ls@.len() - i,
    {
        let ghost pre = views_of(ls@).take(i as int);
        if i > 0 {
            out.push('\n');
        }
        push_all(&mut out, &ls[i]);
        proof {
            lemma_join_push(pre, ls@[i as int]@);
            assert(views_of(ls@).take(i + 1) =~= pre.push(ls@[i as int]@));
        }
        i = i + 1;
    }
    proof {
        assert(views_of(ls@).take(ls@.len() as int) =~= views_of(ls@));
    }
    out
}

/// Splitting then joining gives the text back.
pub proof fn lemma_join_split(s: Seq<char>)
    ensures
        join_lines(split_lines(s)) == s,
    decreases s.len(),
{
    lemma_find_char(s, '\n');
    let i = find_char(s, '\n');
    if 0 <= i < s.len() {
        lemma_join_split(s.skip(i + 1));
        let rest = split_lines(s.skip(i + 1));
        assert(rest.len() > 0);
        let ls = seq![s.subrange(0, i)] + rest;
        assert(ls.len() >= 2);
        assert(ls[0] == s.subrange(0, i));
        assert(ls.drop_first() =~= rest);
        assert(s.subrange(0, i) + seq!['\n'] + s.skip(i + 1) =~= s);
    }
}

/// A split produces at least one line, and keeps a non-whitespace first or
/// last character inside a non-blank first or last line.
pub proof fn lemma_split_first_nonblank(s: Seq<char>)
    requires
        s.len() > 0,
        !is_ws(s[0]),
    ensures
        split_lines(s).len() > 0,
        !is_blank(split_lines(s)[0]),
{
    lemma_find_char(s, '\n');
    let i = find_char(s, '\n');
    if 0 <= i < s.len() {
        assert(s[0] != '\n');
        assert(i > 0);
        assert(split_lines(s)[0] == s.subrange(0, i));
        assert(s.subrange(0, i)[0] == s[0]);
    } else {
        assert(split_lines(s)[0] == s);
    }
}

pub proof fn lemma_split_last_nonblank(s: Seq<char>)
    requires
        s.len() > 0,
        !is_ws(s.last()),
    ensures
        split_lines(s).len() > 0,
        !is_blank(split_lines(s).last()),
    decreases s.len(),
{
    lemma_find_char(s, '\n');
    let i = find_char(s, '\n');
    if 0 <= i < s.len() {
        assert(s.last() != '\n');
        assert(i < s.len() - 1);
        let tail = s.skip(i + 1);
        assert(tail.len() > 0);
        assert(tail.last() == s.last());
        lemma_split_last_nonblank(tail);
        assert(split_lines(s).last() == split_lines(tail).last());
    } else {
        assert(split_lines(s).last() == s);
        assert(!is_ws(s[s.len() - 1]));
    }
}

/// Dropping comments from a comment-free line sequence changes nothing.
pub proof fn lemma_drop_comments_noop(ls: Seq<Seq<char>>)
    requires
        forall|i: int| 0 <= i < ls.len() ==> !is_comment(#[trigger] ls[i]),
    ensures
        drop_comments(ls) == ls,
    decreases ls.len(),
{
    if ls.len() == 0 {
        assert(drop_comments(ls) =~= ls);
    } else {
        assert(!is_comment(ls[0]));
        assert forall|i: int| 0 <= i < ls.drop_first().len() implies !is_comment(
            #[trigger] ls.drop_first()[i],
        ) by {
            assert(ls.drop_first()[i] == ls[i + 1]);
        }
        lemma_drop_comments_noop(ls.drop_first());
        assert(seq![ls[0]] + ls.drop_first() =~= ls);
    }
}

/// Collapse every run of whitespace into one space; `pw` records whether the
/// previous character was whitespace (or the start of the text).
pub open spec fn collapse_from(s: Seq<char>, pw: bool) -> Seq<char>
    decreases s.len(),
{
    if s.len() == 0 {
        Seq::empty()
    } else if is_ws(s[0]) {
        if pw {
            collapse_from(s.drop_first(), true)
        } else {
            seq![' '] + collapse_from(s.drop_first(), true)
        }
    } else {
        seq![s[0]] + collapse_from(s.drop_first(), false)
    }
}

/// Internal whitespace runs collapsed to single spaces, with leading
/// whitespace dropped.
pub open spec fn collapse_ws(s: Seq<char>) -> Seq<char> {
    collapse_from(s, true)
}

pub fn collapse_vec(v: &Vec<char>) -> (r: Vec<char>)
    ensures
        r@ == collapse_ws(v@),
{
    let mut out: Vec<char> = Vec::new();
    let mut pw = true;
    let mut i: usize = 0;
    proof {
        assert(v@.skip(0) =~= v@);
        assert(out@ + collapse_from(v@, true) =~= collapse_from(v@, true));
    }
    while i < v.len()
        invariant
            0 <= i <= v@.len(),
            collapse_ws(v@) =~= out@ + collapse_from(v@.skip(i as int), pw),
        decreases v@.len() - i,
    {
        let c = v[i];
        proof {
            assert(v@.skip(i as int)[0] == c);
            assert(v@.skip(i as int).drop_first() =~= v@.skip(i + 1));
        }
        if ws_char(c) {
            if !pw {
                out.push(' ');
            }
            pw = true;
        } else {
            out.push(c);
            pw = false;
        }
        i = i + 1;
    }
    proof {
        assert(v@.skip(v@.len() as int) =~= Seq::<char>::empty());
    }
    out
}

/// The shape of collapsed text: whitespace only as single interior spaces,
/// nothing added at the front under a leading-whitespace state, and the last
/// character kept when it is not whitespace.
pub proof fn lemma_collapse_shape(s: Seq<char>, pw: bool)
    ensures
        collapse_from(s, pw).len() <= s.len(),
        forall|j: int|
            0 <= j < collapse_from(s, pw).len() && is_ws(#[trigger] collapse_from(s, pw)[j])
                ==> collapse_from(s, pw)[j] == ' ',
        forall|j: int|
            0 < j < collapse_from(s, pw).len() ==> !(is_ws(#[trigger] collapse_from(s, pw)[j])
                && is_ws(collapse_from(s, pw)[j - 1])),
        pw && collapse_from(s, pw).len() > 0 ==> !is_ws(collapse_from(s, pw)[0]),
        s.len() > 0 && !is_ws(s.last()) ==> collapse_from(s, pw).len() > 0 && collapse_from(
            s,
            pw,
        ).last() == s.last(),
        forall|j: int|
            0 <= j < collapse_from(s, pw).len() ==> (#[trigger] collapse_from(s, pw)[j] == ' '
                || exists|i: int| 0 <= i < s.len() && s[i] == collapse_from(s, pw)[j] && !is_ws(
                    s[i],
                )),
    decreases s.len(),
{
    let r = collapse_from(s, pw);
    if s.len() == 0 {
    } else if is_ws(s[0]) {
        lemma_collapse_shape(s.drop_first(), true);
        let r2 = collapse_from(s.drop_first(), true);
        if pw {
        } else {
            assert(r == seq![' '] + r2);
            assert forall|j: int| 0 <= j < r.len() implies (#[trigger] r[j] == ' ' || exists|i: int|
                0 <= i < s.len() && s[i] == r[j] && !is_ws(s[i])) by {
                if j > 0 {
                    assert(r[j] == r2[j - 1]);
                    if r2[j - 1] != ' ' {
                        let i0 = choose|i: int|
                            0 <= i < s.drop_first().len() && s.drop_first()[i] == r2[j - 1]
                                && !is_ws(s.drop_first()[i]);
                        assert(s[i0 + 1] == r2[j - 1] && !is_ws(s[i0 + 1]));
                    }
                }
            }
            if r2.len() > 0 {
                assert(r.last() == r2.last());
            }
        }
    } else {
        lemma_collapse_shape(s.drop_first(), false);
        let r2 = collapse_from(s.drop_first(), false);
        assert(r == seq![s[0]] + r2);
        assert forall|j: int| 0 <= j < r.len() implies (#[trigger] r[j] == ' ' || exists|i: int|
            0 <= i < s.len() && s[i] == r[j] && !is_ws(s[i])) by {
            if j == 0 {
                assert(s[0] == r[0] && !is_ws(s[0]));
            } else {
                assert(r[j] == r2[j - 1]);
                if r2[j - 1] != ' ' {
                    let i0 = choose|i: int|
                        0 <= i < s.drop_first().len() && s.drop_first()[i] == r2[j - 1] && !is_ws(
                            s.drop_first()[i],
                        );
                    assert(s[i0 + 1] == r2[j - 1] && !is_ws(s[i0 + 1]));
                }
            }
        }
        if r2.len() > 0 {
            assert(r.last() == r2.last());
        }
        if s.len() > 1 {
            assert(s.last() == s.drop_first().last());
        }
    }
}

/// Collapsing text already in collapsed shape changes nothing.
pub proof fn lemma_collapse_noop(s: Seq<char>, pw: bool)
    requires
        forall|j: int| 0 <= j < s.len() && is_ws(#[trigger] s[j]) ==> s[j] == ' ',
        forall|j: int| 0 < j < s.len() ==> !(is_ws(#[trigger] s[j]) && is_ws(s[j - 1])),
        pw ==> (s.len() > 0 ==> !is_ws(s[0])),
    ensures
        collapse_from(s, pw) == s,
    decreases s.len(),
{
    if s.len() == 0 {
        assert(collapse_from(s, pw) =~= s);
    } else if is_ws(s[0]) {
        assert(s[0] == ' ');
        assert(s.len() > 1 ==> !is_ws(s.drop_first()[0]));
        lemma_collapse_noop(s.drop_first(), true);
        assert(seq![' '] + s.drop_first() =~= s);
    } else {
        lemma_collapse_noop(s.drop_first(), false);
        assert(seq![s[0]] + s.drop_first() =~= s);
    }
}

/// `s` with every occurrence of `pat` removed, scanning left to right, as
/// replacing a pattern by nothing does.
pub open spec fn remove_all(s: Seq<char>, pat: Seq<char>) -> Seq<char>
    decreases s.len(),
{
    if pat.len() == 0 {
        s
    } else {
        let i = find_sub(s, pat);
        if 0 <= i && i + pat.len() <= s.len() {
            s.subrange(0, i) + remove_all(s.skip(i + pat.len() as int), pat)
        } else {
            s
        }
    }
}

fn match_at(v: &Vec<char>, pat: &Vec<char>, i: usize) -> (b: bool)
    requires
        i + pat@.len() <= v@.len(),
    ensures
        b == matches_at(v@, pat@, i as int),
{
    let n = v.len();
    let mut t: usize = 0;
    while t < pat.len()
        invariant
            0 <= t <= pat@.len(),
            i + pat@.len() <= n,
            n == v@.len(),
            forall|j: int| 0 <= j < t ==> v@[i + j] == pat@[j],
        decreases pat@.len() - t,
    {
        if v[i + t] != pat[t] {
            proof {
                if matches_at(v@, pat@, i as int) {
                    assert(v@.subrange(i as int, i + pat@.len() as int)[t as int] == pat@[
                        t as int
                    ]);
                }
            }
            return false;
        }
        t = t + 1;
    }
    proof {
        assert(v@.subrange(i as int, i + pat@.len() as int) =~= pat@);
    }
    true
}

pub fn find_sub_vec(v: &Vec<char>, pat: &Vec<char>) -> (r: Option<usize>)
    ensures
        match r {
            Some(i) => find_sub(v@, pat@) == i as int,
            None => find_sub(v@, pat@) < 0,
        },
{
    if pat.len() > v.len() {
        proof {
            lemma_find_sub(v@, pat@);
            if find_sub(v@, pat@) >= 0 {
                assert(matches_at(v@, pat@, find_sub(v@, pat@)));
            }
        }
        return None;
    }
    if pat.len() == 0 {
        proof {
            assert(v@.subrange(0, 0) =~= pat@);
        }
        return Some(0);
    }
    let bound = v.len() - pat.len();
    let mut i: usize = 0;
    while i <= bound
        invariant
            0 <= i <= bound + 1,
            bound == v@.len() - pat@.len(),
            bound < usize::MAX,
            1 <= pat@.len() <= v@.len(),
            forall|j: int| 0 <= j < i ==> !matches_at(v@, pat@, j),
        decreases bound + 1 - i,
    {
        if match_at(v, pat, i) {
            proof {
                lemma_find_sub_is(v@, pat@, i as int);
            }
            return Some(i);
        }
        i = i + 1;
    }
    proof {
        lemma_find_sub(v@, pat@);
        let r = find_sub(v@, pat@);
        if r >= 0 {
            assert(matches_at(v@, pat@, r));
            assert(r < i);
        }
    }
    None
}

pub fn remove_all_vec(v: &Vec<char>, pat: &Vec<char>) -> (r: Vec<char>)
    ensures
        r@ == remove_all(v@, pat@),
    decreases v@.len(),
{
    if pat.len() == 0 {
        return subvec(v, 0, v.len());
    }
    match find_sub_vec(v, pat) {
        None => subvec(v, 0, v.len()),
        Some(i) => {
            let n = v.len();
            proof {
                lemma_find_sub(v@, pat@);
                assert(matches_at(v@, pat@, i as int));
                assert(i + pat@.len() <= n);
            }
            let mut r = subvec(v, 0, i);
            let tail = subvec(v, i + pat.len(), n);
            let rec = remove_all_vec(&tail, pat);
            push_all(&mut r, &rec);
            proof {
                assert(tail@ =~= v@.skip(i + pat@.len() as int));
            }
            r
        },
    }
}

pub fn subvec(v: &Vec<char>, a: usize, b: usize) -> (r: Vec<char>)
    requires
        a <= b <= v@.len(),
    ensures
        r@ == v@.subrange(a as int, b as int),
{
    let mut out: Vec<char> = Vec::new();
    let mut k: usize = a;
    while k < b
        invariant
            a <= k <= b <= v@.len(),
            out@ =~= v@.subrange(a as int, k as int),
        decreases b - k,
    {
        out.push(v[k]);
        k = k + 1;
    }
    out
}

pub fn find_char_vec(v: &Vec<char>, c: char) -> (r: Option<usize>)
    ensures
        match r {
            Some(i) => find_char(v@, c) == i as int,
            None => find_char(v@, c) < 0,
        },
{
    let mut i: usize = 0;
    while i < v.len()
        invariant
            0 <= i <= v@.len(),
            forall|j: int| 0 <= j < i ==> v@[j] != c,
        decreases v@.len() - i,
    {
        if v[i] == c {
            proof {
                lemma_find_char_is(v@, c, i as int);
            }
            return Some(i);
        }
        i = i + 1;
    }
    proof {
        lemma_find_char(v@, c);
        if find_char(v@, c) >= 0 {
            assert(v@[find_char(v@, c)] == c);
        }
    }
    None
}

pub fn trim_end_vec(v: &Vec<char>) -> (r: Vec<char>)
    ensures
        r@ == trim_end(v@),
{
    let n = v.len();
    let mut j: usize = n;
    while j > 0 && ws_char(v[j - 1])
        invariant
            0 <= j <= n,
            n == v@.len(),
            forall|k: int| j <= k < n ==> is_ws(v@[k]),
        decreases j,
    {
        j = j - 1;
    }
    let out = subvec(v, 0, j);
    proof {
        lemma_trim_end_take(v@, j as int);
        if j > 0 {
            assert(v@.take(j as int).last() == v@[j - 1]);
            assert(!is_ws(v@.take(j as int).last()));
        }
        lemma_trim_end_props(v@.take(j as int));
        assert(trim_end(v@.take(j as int)) == v@.take(j as int));
        assert(v@.take(j as int) =~= v@.subrange(0, j as int));
    }
    out
}

/// A comment line: its first character is '#'.
pub open spec fn is_comment(l: Seq<char>) -> bool {
    l.len() > 0 && l[0] == '#'
}

/// The lines that are not comments, in order.
pub open spec fn drop_comments(ls: Seq<Seq<char>>) -> Seq<Seq<char>>
    decreases ls.len(),
{
    if ls.len() == 0 {
        Seq::empty()
    } else {
        let rest = drop_comments(ls.drop_first());
        if is_comment(ls[0]) {
            rest
        } else {
            seq![ls[0]] + rest
        }
    }
}

pub fn drop_comments_vec(v: &Vec<Vec<char>>) -> (r: Vec<Vec<char>>)
    ensures
        views_of(r@) == drop_comments(views_of(v@)),
{
    let mut out: Vec<Vec<char>> = Vec::new();
    let mut i: usize = 0;
    proof {
        assert(views_of(v@).skip(0) =~= views_of(v@));
        assert(views_of(out@) + drop_comments(views_of(v@)) =~= drop_comments(views_of(v@)));
    }
    while i < v.len()
        invariant
            0 <= i <= v@.len(),
            drop_comments(views_of(v@)) =~= views_of(out@) + drop_comments(
                views_of(v@).skip(i as int),
            ),
        decreases v@.len() - i,
    {
        let line = &v[i];
        proof {
            assert(views_of(v@).skip(i as int)[0] == v@[i as int]@);
            assert(views_of(v@).skip(i as int).drop_first() =~= views_of(v@).skip(i + 1));
        }
        let keep = if line.len() == 0 {
            true
        } else {
            line[0] != '#'
        };
        if keep {
            let ghost pre = out@;
            let copy = subvec(line, 0, line.len());
            proof {
                assert(copy@ =~= v@[i as int]@);
            }
            out.push(copy);
            proof {
                assert(views_of(out@) =~= views_of(pre).push(v@[i as int]@));
                assert(views_of(pre) + (seq![v@[i as int]@] + drop_comments(
                    views_of(v@).skip(i + 1),
                )) =~= views_of(out@) + drop_comments(views_of(v@).skip(i + 1)));
            }
        }
        i = i + 1;
    }
    proof {
        assert(views_of(v@).skip(v@.len() as int) =~= Seq::<Seq<char>>::empty());
        assert(views_of(out@) + Seq::<Seq<char>>::empty() =~= views_of(out@));
    }
    out
}

/// Leading blank lines removed.
pub open spec fn drop_blank_front(ls: Seq<Seq<char>>) -> Seq<Seq<char>>
    decreases ls.len(),
{
    if ls.len() > 0 && is_blank(ls[0]) {
        drop_blank_front(ls.drop_first())
    } else {
        ls
    }
}

/// Trailing blank lines removed.
pub open spec fn drop_blank_back(ls: Seq<Seq<char>>) -> Seq<Seq<char>>
    decreases ls.len(),
{
    if ls.len() > 0 && is_blank(ls.last()) {
        drop_blank_back(ls.drop_last())
    } else {
        ls
    }
}

/// Blank lines removed from both ends.
pub open spec fn trim_blank_lines(ls: Seq<Seq<char>>) -> Seq<Seq<char>> {
    drop_blank_back(drop_blank_front(ls))
}

pub proof fn lemma_dbf_skip(ls: Seq<Seq<char>>, k: int)
    requires
        0 <= k <= ls.len(),
        forall|j: int| 0 <= j < k ==> is_blank(#[trigger] ls[j]),
    ensures
        drop_blank_front(ls) == drop_blank_front(ls.skip(k)),
    decreases k,
{
    if k == 0 {
        assert(ls.skip(0) =~= ls);
    } else {
        assert(is_blank(ls[0]));
        lemma_dbf_skip(ls.drop_first(), k - 1);
        assert(ls.drop_first().skip(k - 1) =~= ls.skip(k));
    }
}

pub proof fn lemma_dbb_take(ls: Seq<Seq<char>>, k: int)
    requires
        0 <= k <= ls.len(),
        forall|j: int| k <= j < ls.len() ==> is_blank(#[trigger] ls[j]),
    ensures
        drop_blank_back(ls) == drop_blank_back(ls.take(k)),
    decreases ls.len() - k,
{
    if k == ls.len() {
        assert(ls.take(k) =~= ls);
    } else {
        assert(is_blank(ls.last()));
        lemma_dbb_take(ls.drop_last(), k);
        assert(ls.drop_last().take(k) =~= ls.take(k));
    }
}

pub fn trim_blank_vec(v: &Vec<Vec<char>>) -> (r: Vec<Vec<char>>)
    ensures
        views_of(r@) == trim_blank_lines(views_of(v@)),
{
    let n = v.len();
    let mut i: usize = 0;
    while i < n && blank_vec(&v[i])
        invariant
            0 <= i <= n,
            n == v@.len(),
            forall|j: int| 0 <= j < i ==> is_blank(#[trigger] views_of(v@)[j]),
        decreases n - i,
    {
        i = i + 1;
    }
    let mut j: usize = n;
    while j > i && blank_vec(&v[j - 1])
        invariant
            i <= j <= n,
            n == v@.len(),
            forall|k: int| j <= k < n ==> is_blank(#[trigger] views_of(v@)[k]),
        decreases j,
    {
        j = j - 1;
    }
    let mut out: Vec<Vec<char>> = Vec::new();
    let mut k: usize = i;
    while k < j
        invariant
            i <= k <= j <= n,
            n == v@.len(),
            views_of(out@) =~= views_of(v@).subrange(i as int, k as int),
        decreases j - k,
    {
        let line = &v[k];
        let copy = subvec(line, 0, line.len());
        let ghost pre = out@;
        proof {
            assert(copy@ =~= v@[k as int]@);
        }
        out.push(copy);
        proof {
            assert(views_of(out@) =~= views_of(pre).push(v@[k as int]@));
        }
        k = k + 1;
    }
    proof {
        let ls = views_of(v@);
        lemma_dbf_skip(ls, i as int);
        if i < n {
            assert(!is_blank(ls.skip(i as int)[0]));
        }
        assert(drop_blank_front(ls.skip(i as int)) == ls.skip(i as int));
        lemma_dbb_take(ls.skip(i as int), j - i);
        if j > i {
            assert(ls.skip(i as int).take(j - i).last() == ls[j - 1]);
            assert(!is_blank(ls.skip(i as int).take(j - i).last()));
        }
        assert(drop_blank_back(ls.skip(i as int).take(j - i)) == ls.skip(i as int).take(j - i));
        assert(ls.skip(i as int).take(j - i) =~= ls.subrange(i as int, j as int));
        assert(trim_blank_lines(ls) == ls.subrange(i as int, j as int));
    }
    out
}

} // verus!
