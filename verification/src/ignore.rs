//! Ignore rules: glob patterns collected from the command line and
//! from `.gitignore` files found during the scan, and the one-pass
//! filtering of the scanned file list against them.

use vstd::prelude::*;
use vstd::string::{StrSliceExecFns, StringExecFns};
use crate::lines::{is_blank_char, split_lines};
use crate::language_utils::str_eq;
use crate::languages::str_views;

verus! {

/// Whether the glob engine accepts `pat` as a pattern.
pub uninterp spec fn glob_valid(pat: Seq<char>) -> bool;

/// Whether the glob pattern `pat` matches `path`.
pub uninterp spec fn glob_matches(pat: Seq<char>, path: Seq<char>) -> bool;

/// Relies on glob::Pattern::new: whether a pattern compiles is a
/// function of its text alone.
#[verifier::external_body]
fn glob_is_valid(pat: &str) -> (r: bool)
    ensures
        r == glob_valid(pat@),
{
    glob::Pattern::new(pat).is_ok()
}

/// Relies on glob::Pattern::new and glob::Pattern::matches with the
/// default match options: whether a compiled pattern matches a path is
/// a function of the pattern's text and the path.
#[verifier::external_body]
fn glob_match(pat: &str, path: &str) -> (r: bool)
    requires
        glob_valid(pat@),
    ensures
        r == glob_matches(pat@, path@),
{
    glob::Pattern::new(pat).unwrap().matches(path)
}

/// Every pattern in the list compiles.
pub open spec fn all_valid(ps: Seq<Seq<char>>) -> bool {
    forall|i: int| 0 <= i < ps.len() ==> glob_valid(#[trigger] ps[i])
}

/// Check that every ignore pattern is a valid glob; an invalid one is
/// a configuration error that must stop the run before any scanning.
pub fn patterns_valid(patterns: &Vec<String>) -> (r: bool)
    ensures
        r == all_valid(str_views(patterns@)),
{
    let mut i: usize = 0;
    while i < patterns.len()
        invariant
            i <= patterns@.len(),
            forall|j: int| 0 <= j < i ==> glob_valid((#[trigger] patterns@[j])@),
        decreases patterns@.len() - i,
    {
        if !glob_is_valid(patterns[i].as_str()) {
            proof {
                assert(!glob_valid(str_views(patterns@)[i as int]));
            }
            return false;
        }
        i += 1;
    }
    proof {
        assert forall|j: int|
            0 <= j < str_views(patterns@).len() implies glob_valid(
            #[trigger] str_views(patterns@)[j],
        ) by {}
    }
    true
}

/// A file survives the filter when no ignore pattern matches it.
pub open spec fn spec_keep(ps: Seq<Seq<char>>, f: Seq<char>) -> bool {
    forall|i: int| 0 <= i < ps.len() ==> !glob_matches(#[trigger] ps[i], f)
}

/// The file list after one filtering pass.
pub open spec fn spec_filter(files: Seq<Seq<char>>, ps: Seq<Seq<char>>) -> Seq<Seq<char>> {
    files.filter(|f: Seq<char>| spec_keep(ps, f))
}

/// Drop every file that at least one ignore pattern matches, keeping
/// the survivors in order. `None` exactly when some pattern is not a
/// valid glob: that configuration error aborts the run.
pub fn filter_files(files: &Vec<String>, patterns: &Vec<String>) -> (r: Option<Vec<String>>)
    ensures
        r is Some <==> all_valid(str_views(patterns@)),
        r matches Some(v) ==> str_views(v@) =~~= spec_filter(
            str_views(files@),
            str_views(patterns@),
        ),
{
    if !patterns_valid(patterns) {
        return None;
    }
    let ghost fv = str_views(files@);
    let ghost pv = str_views(patterns@);
    let mut out: Vec<String> = Vec::new();
    let mut i: usize = 0;
    proof {
        reveal(Seq::filter);
        assert(fv.take(0) =~= Seq::<Seq<char>>::empty());
        assert(str_views(out@) =~~= spec_filter(fv.take(0), pv));
    }
    while i < files.len()
        invariant
            i <= files@.len(),
            fv == str_views(files@),
            pv == str_views(patterns@),
            all_valid(pv),
            str_views(out@) =~~= spec_filter(fv.take(i as int), pv),
        decreases files@.len() - i,
    {
        let mut matched = false;
        let mut j: usize = 0;
        while j < patterns.len()
            invariant
                i < files@.len(),
                fv == str_views(files@),
                pv == str_views(patterns@),
                all_valid(pv),
                j <= patterns@.len(),
                matched ==> !spec_keep(pv, fv[i as int]),
                !matched ==> forall|l: int| 0 <= l < j ==> !glob_matches(#[trigger] pv[l], fv[i as int]),
            decreases patterns@.len() - j,
        {
            proof {
                assert(glob_valid(pv[j as int]));
            }
            if glob_match(patterns[j].as_str(), files[i].as_str()) {
                proof {
                    assert(glob_matches(pv[j as int], fv[i as int]));
                }
                matched = true;
            }
            j += 1;
        }
        proof {
            reveal(Seq::filter);
            assert(fv.take(i as int + 1).drop_last() =~= fv.take(i as int));
            assert(fv.take(i as int + 1).last() == fv[i as int]);
        }
        if !matched {
            out.push(files[i].clone());
            proof {
                assert(str_views(out@).drop_last() =~~= str_views(out@.drop_last()));
                assert(str_views(out@).last() == fv[i as int]);
            }
        }
        i += 1;
    }
    proof {
        assert(fv.take(files@.len() as int) =~= fv);
    }
    Some(out)
}

/// A list whose every element the predicate keeps is left unchanged by
/// filtering.
proof fn lemma_filter_all_kept<A>(s: Seq<A>, p: spec_fn(A) -> bool)
    requires
        forall|i: int| 0 <= i < s.len() ==> p(#[trigger] s[i]),
    ensures
        s.filter(p) =~= s,
    decreases s.len(),
{
    reveal(Seq::filter);
    if s.len() > 0 {
        assert(forall|i: int| 0 <= i < s.len() - 1 ==> s.drop_last()[i] == s[i]);
        lemma_filter_all_kept(s.drop_last(), p);
    }
}

/// Ignore filtering is idempotent: filtering an already filtered file
/// list against the same patterns is a no-op.
pub proof fn lemma_filter_idempotent(files: Seq<Seq<char>>, ps: Seq<Seq<char>>)
    ensures
        spec_filter(spec_filter(files, ps), ps) =~~= spec_filter(files, ps),
{
    let p = |f: Seq<char>| spec_keep(ps, f);
    let once = files.filter(p);
    assert forall|i: int| 0 <= i < once.len() implies p(#[trigger] once[i]) by {
        files.lemma_filter_pred(p, i);
    }
    lemma_filter_all_kept(once, p);
}

/// Leading whitespace removed.
pub open spec fn trim_front(s: Seq<char>) -> Seq<char>
    decreases s.len(),
{
    if s.len() > 0 && is_blank_char(s[0]) {
        trim_front(s.skip(1))
    } else {
        s
    }
}

/// Trailing whitespace removed.
pub open spec fn trim_back(s: Seq<char>) -> Seq<char>
    decreases s.len(),
{
    if s.len() > 0 && is_blank_char(s.last()) {
        trim_back(s.drop_last())
    } else {
        s
    }
}

/// Surrounding whitespace removed.
pub open spec fn spec_trim(s: Seq<char>) -> Seq<char> {
    trim_back(trim_front(s))
}

proof fn lemma_trim_front_skip(s: Seq<char>, a: int)
    requires
        0 <= a <= s.len(),
        forall|j: int| 0 <= j < a ==> is_blank_char(#[trigger] s[j]),
        a == s.len() || !is_blank_char(s[a]),
    ensures
        trim_front(s) =~= s.skip(a),
    decreases a,
{
    if a == 0 {
        assert(s.skip(0) =~= s);
    } else {
        assert(is_blank_char(s[0]));
        assert(forall|j: int| 0 <= j < a - 1 ==> s.skip(1)[j] == s[j + 1]);
        lemma_trim_front_skip(s.skip(1), a - 1);
        assert(s.skip(1).skip(a - 1) =~= s.skip(a));
    }
}

proof fn lemma_trim_back_take(s: Seq<char>, b: int)
    requires
        0 <= b <= s.len(),
        forall|j: int| b <= j < s.len() ==> is_blank_char(#[trigger] s[j]),
        b == 0 || !is_blank_char(s[b - 1]),
    ensures
        trim_back(s) =~= s.take(b),
    decreases s.len(),
{
    if b == s.len() {
        assert(s.take(b) =~= s);
    } else {
        assert(is_blank_char(s.last()));
        assert(forall|j: int| 0 <= j < s.len() - 1 ==> s.drop_last()[j] == s[j]);
        lemma_trim_back_take(s.drop_last(), b);
        assert(s.drop_last().take(b) =~= s.take(b));
    }
}

/// Remove surrounding whitespace.
pub fn trim<'a>(s: &'a str) -> (r: &'a str)
    ensures
        r@ == spec_trim(s@),
{
    let n: usize = s.unicode_len();
    let mut a: usize = 0;
    while a < n && crate::lines::blank_char(s.get_char(a))
        invariant
            n == s@.len(),
            a <= n,
            forall|j: int| 0 <= j < a ==> is_blank_char(#[trigger] s@[j]),
        decreases n - a,
    {
        a += 1;
    }
    let mut b: usize = n;
    while b > a && crate::lines::blank_char(s.get_char(b - 1))
        invariant
            n == s@.len(),
            a <= b <= n,
            forall|j: int| b <= j < n ==> is_blank_char(#[trigger] s@[j]),
        decreases b,
    {
        b -= 1;
    }
    proof {
        lemma_trim_front_skip(s@, a as int);
        let t = s@.skip(a as int);
        assert(forall|j: int| b - a <= j < t.len() ==> t[j] == s@[j + a]);
        lemma_trim_back_take(t, b - a);
        assert(t.take(b - a) =~= s@.subrange(a as int, b as int));
    }
    s.substring_char(a, b)
}

/// Leading `./` components removed, as many as there are.
pub open spec fn strip_dot_slash(s: Seq<char>) -> Seq<char>
    decreases s.len(),
{
    if s.len() >= 2 && s[0] == '.' && s[1] == '/' {
        strip_dot_slash(s.skip(2))
    } else {
        s
    }
}

fn strip_leading_dot_slash(s: &str) -> (r: String)
    ensures
        r@ == strip_dot_slash(s@),
    decreases s@.len(),
{
    let n: usize = s.unicode_len();
    if n >= 2 && s.get_char(0) == '.' && s.get_char(1) == '/' {
        proof {
            assert(s@.subrange(2, n as int) =~= s@.skip(2));
        }
        strip_leading_dot_slash(s.substring_char(2, n))
    } else {
        s.to_owned()
    }
}

/// The ignore pattern one gitignore line contributes, if any: an empty
/// line and a comment contribute none; any other line is anchored to
/// the directory holding the gitignore file, given a trailing wildcard
/// when it has none, and stripped of leading `./` components.
pub open spec fn line_pattern(dir: Seq<char>, line: Seq<char>) -> Option<Seq<char>> {
    let l = spec_trim(line);
    if line.len() == 0 || (l.len() > 0 && l[0] == '#') {
        None
    } else {
        let anchored = dir + seq!['/'] + l;
        let wild = if anchored.last() == '*' {
            anchored
        } else {
            anchored.push('*')
        };
        Some(strip_dot_slash(wild))
    }
}

fn pattern_of_line(dirname: &str, line: &str) -> (r: Option<String>)
    ensures
        r is Some <==> line_pattern(dirname@, line@) is Some,
        r matches Some(p) ==> (line_pattern(dirname@, line@) matches Some(q) && p@ == q),
{
    if line.unicode_len() == 0 {
        return None;
    }
    let t = trim(line);
    if t.unicode_len() > 0 && t.get_char(0) == '#' {
        return None;
    }
    let mut anchored = dirname.to_owned();
    anchored.append("/");
    anchored.append(t);
    proof {
        reveal_strlit("/");
        assert("/"@ =~= seq!['/']);
        assert(anchored@ =~= dirname@ + seq!['/'] + spec_trim(line@));
        assert(anchored@.len() > 0);
    }
    let n: usize = anchored.as_str().unicode_len();
    if anchored.as_str().get_char(n - 1) == '*' {
        Some(strip_leading_dot_slash(anchored.as_str()))
    } else {
        anchored.append("*");
        proof {
            reveal_strlit("*");
            assert("*"@ =~= seq!['*']);
            assert(anchored@ =~= (dirname@ + seq!['/'] + spec_trim(line@)).push('*'));
        }
        Some(strip_leading_dot_slash(anchored.as_str()))
    }
}

/// A line as `.lines()` yields it: one trailing carriage return goes
/// with the line break.
pub open spec fn strip_cr(l: Seq<char>) -> Seq<char> {
    if l.len() > 0 && l.last() == '\r' {
        l.drop_last()
    } else {
        l
    }
}

/// The lines of a text file's content.
pub open spec fn content_lines(s: Seq<char>) -> Seq<Seq<char>> {
    split_lines(s).map_values(|l: Seq<char>| strip_cr(l))
}

/// The patterns the lines of one gitignore file contribute, in order.
pub open spec fn patterns_of_lines(dir: Seq<char>, ls: Seq<Seq<char>>) -> Seq<Seq<char>>
    decreases ls.len(),
{
    if ls.len() == 0 {
        Seq::empty()
    } else {
        let prev = patterns_of_lines(dir, ls.drop_last());
        match line_pattern(dir, ls.last()) {
            Option::Some(p) => prev.push(p),
            Option::None => prev,
        }
    }
}

/// The ignore patterns a gitignore file contributes: one per line that
/// is neither empty nor a comment, each anchored to `dir`.
pub open spec fn spec_gitignore_patterns(dir: Seq<char>, content: Seq<char>) -> Seq<Seq<char>> {
    patterns_of_lines(dir, content_lines(content))
}

proof fn lemma_str_views_push(s: Seq<String>, x: String)
    ensures
        str_views(s.push(x)) =~~= str_views(s).push(x@),
{
    assert forall|i: int| 0 <= i < s.len() + 1 implies str_views(s.push(x))[i] == str_views(
        s,
    ).push(x@)[i] by {
        if i < s.len() {
            assert(s.push(x)[i] == s[i]);
        } else {
            assert(s.push(x)[i] == x);
        }
    }
}

proof fn lemma_map_values_push(s: Seq<Seq<char>>, g: spec_fn(Seq<char>) -> Seq<char>, x: Seq<char>)
    ensures
        s.push(x).map_values(g) =~~= s.map_values(g).push(g(x)),
{
    assert forall|i: int| 0 <= i < s.len() + 1 implies s.push(x).map_values(g)[i] == s.map_values(
        g,
    ).push(g(x))[i] by {
        if i < s.len() {
            assert(s.push(x)[i] == s[i]);
        } else {
            assert(s.push(x)[i] == x);
        }
    }
}

/// Split a text file's content into its lines.
fn lines_of(content: &str) -> (r: Vec<String>)
    ensures
        str_views(r@) =~~= content_lines(content@),
{
    let n: usize = content.unicode_len();
    let mut lines: Vec<String> = Vec::new();
    let mut start: usize = 0;
    let mut i: usize = 0;
    let ghost f = |l: Seq<char>| strip_cr(l);
    proof {
        assert(content@.take(0) =~= Seq::<char>::empty());
        assert(crate::lines::closed_lines(content@.take(0)) =~~= Seq::<Seq<char>>::empty());
    }
    while i < n
        invariant
            n == content@.len(),
            start <= i <= n,
            f == (|l: Seq<char>| strip_cr(l)),
            crate::lines::has_open_line(content@.take(i as int)) == (start < i),
            start < i ==> split_lines(content@.take(i as int)).last() =~= content@.subrange(
                start as int,
                i as int,
            ),
            str_views(lines@) =~~= crate::lines::closed_lines(content@.take(i as int)).map_values(
                f,
            ),
        decreases n - i,
    {
        let ghost pfx = content@.take(i as int);
        proof {
            assert(content@.take(i as int + 1) =~= pfx.push(content@[i as int]));
        }
        let c = content.get_char(i);
        if c == '\n' {
            let end = if i > start && content.get_char(i - 1) == '\r' {
                i - 1
            } else {
                i
            };
            let ghost old_lines = lines@;
            let line = content.substring_char(start, end).to_owned();
            proof {
                crate::lines::lemma_split_push_newline(pfx);
                let seg = if start < i {
                    content@.subrange(start as int, i as int)
                } else {
                    Seq::<char>::empty()
                };
                if start < i {
                    assert(crate::lines::closed_lines(pfx.push('\n'))
                        =~~= crate::lines::closed_lines(pfx).push(seg));
                    if content@[i - 1] == '\r' {
                        assert(seg.last() == '\r');
                        assert(strip_cr(seg) =~= content@.subrange(start as int, i - 1));
                    } else {
                        assert(strip_cr(seg) =~= seg);
                    }
                } else {
                    assert(crate::lines::closed_lines(pfx.push('\n'))
                        =~~= crate::lines::closed_lines(pfx).push(seg));
                    assert(content@.subrange(start as int, end as int) =~= seg);
                }
                assert(line@ == strip_cr(seg));
                lemma_str_views_push(old_lines, line);
                lemma_map_values_push(crate::lines::closed_lines(pfx), f, seg);
            }
            lines.push(line);
            proof {
                assert(lines@ =~= old_lines.push(lines@.last()));
            }
            start = i + 1;
        } else {
            proof {
                crate::lines::lemma_split_push_char(pfx, content@[i as int]);
                if start < i {
                    assert(split_lines(pfx.push(content@[i as int])).last() =~= split_lines(
                        pfx,
                    ).last().push(content@[i as int]));
                    assert(content@.subrange(start as int, i as int).push(content@[i as int])
                        =~= content@.subrange(start as int, i + 1));
                } else {
                    assert(seq![content@[i as int]] =~= content@.subrange(start as int, i + 1));
                }
                assert(crate::lines::closed_lines(pfx.push(content@[i as int]))
                    =~~= crate::lines::closed_lines(pfx));
            }
        }
        i += 1;
    }
    proof {
        assert(content@.take(n as int) =~= content@);
    }
    if start < n {
        let end = if content.get_char(n - 1) == '\r' {
            n - 1
        } else {
            n
        };
        let ghost old_lines = lines@;
        let line = content.substring_char(start, end).to_owned();
        proof {
            let seg = content@.subrange(start as int, n as int);
            assert(crate::lines::closed_lines(content@).push(seg) =~~= split_lines(content@));
            if content@[n - 1] == '\r' {
                assert(seg.last() == '\r');
                assert(strip_cr(seg) =~= content@.subrange(start as int, n - 1));
            } else {
                assert(strip_cr(seg) =~= seg);
            }
            assert(line@ == strip_cr(seg));
            lemma_str_views_push(old_lines, line);
            lemma_map_values_push(crate::lines::closed_lines(content@), f, seg);
        }
        lines.push(line);
        proof {
            assert(lines@ =~= old_lines.push(lines@.last()));
        }
    }
    lines
}

/// Collect the ignore patterns of one gitignore file: each non-empty,
/// non-comment line anchored to the directory that holds the file.
pub fn gitignore_patterns(dirname: &str, content: &str) -> (r: Vec<String>)
    ensures
        str_views(r@) =~~= spec_gitignore_patterns(dirname@, content@),
{
    let lines = lines_of(content);
    let ghost lv = str_views(lines@);
    let mut out: Vec<String> = Vec::new();
    let mut i: usize = 0;
    proof {
        assert(lv.take(0) =~= Seq::<Seq<char>>::empty());
    }
    while i < lines.len()
        invariant
            i <= lines@.len(),
            lv == str_views(lines@),
            lv =~~= content_lines(content@),
            str_views(out@) =~~= patterns_of_lines(dirname@, lv.take(i as int)),
        decreases lines@.len() - i,
    {
        proof {
            assert(lv.take(i as int + 1).drop_last() =~= lv.take(i as int));
            assert(lv.take(i as int + 1).last() == lv[i as int]);
        }
        match pattern_of_line(dirname, lines[i].as_str()) {
            Some(p) => {
                out.push(p);
                proof {
                    assert(str_views(out@).drop_last() =~~= str_views(out@.drop_last()));
                }
            },
            None => {},
        }
        i += 1;
    }
    proof {
        assert(lv.take(lines@.len() as int) =~= lv);
        assert(patterns_of_lines(dirname@, lv) =~~= patterns_of_lines(
            dirname@,
            content_lines(content@),
        ));
    }
    out
}

/// A scan skips entries whose name begins with a dot.
pub fn is_hidden(name: &str) -> (r: bool)
    ensures
        r == (name@.len() > 0 && name@[0] == '.'),
{
    name.unicode_len() > 0 && name.get_char(0) == '.'
}

} // verus!
