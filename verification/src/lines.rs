//! Line model of a file's content: the content is split on `'\n'`
//! boundaries; every line counts toward the total, and a line is blank
//! when it is empty after trimming surrounding whitespace.

use vstd::prelude::*;
use vstd::std_specs::iter::IteratorSpec;
use vstd::string::StrSliceExecFns;

verus! {

/// The whitespace characters that line trimming removes.
pub open spec fn is_blank_char(c: char) -> bool {
    c == ' ' || c == '\t' || c == '\r' || c == '\u{b}' || c == '\u{c}'
}

/// A line is blank when every character in it is whitespace.
pub open spec fn is_blank_line(l: Seq<char>) -> bool {
    forall|i: int| 0 <= i < l.len() ==> is_blank_char(#[trigger] l[i])
}

/// The lines of `s`: maximal segments between `'\n'` characters. A
/// trailing newline closes the last line rather than opening an empty
/// one, and empty content has no lines.
pub open spec fn split_lines(s: Seq<char>) -> Seq<Seq<char>>
    decreases s.len(),
{
    if s.len() == 0 {
        Seq::empty()
    } else if s[0] == '\n' {
        seq![Seq::<char>::empty()] + split_lines(s.skip(1))
    } else {
        let rest = split_lines(s.skip(1));
        if rest.len() == 0 {
            seq![seq![s[0]]]
        } else {
            seq![seq![s[0]] + rest[0]] + rest.skip(1)
        }
    }
}

/// Total number of lines in `s`.
pub open spec fn line_count(s: Seq<char>) -> nat {
    split_lines(s).len()
}

/// Number of blank lines in `s`.
pub open spec fn blank_count(s: Seq<char>) -> nat {
    split_lines(s).filter(|l: Seq<char>| is_blank_line(l)).len()
}

/// The content still has a line that the next character would extend:
/// it is non-empty and does not end in a newline.
pub open spec fn has_open_line(s: Seq<char>) -> bool {
    s.len() > 0 && s.last() != '\n'
}

/// Appending a newline closes the open line, or completes an empty one.
pub proof fn lemma_split_push_newline(s: Seq<char>)
    ensures
        has_open_line(s) ==> split_lines(s.push('\n')) =~~= split_lines(s),
        !has_open_line(s) ==> split_lines(s.push('\n')) =~~= split_lines(s).push(
            Seq::<char>::empty(),
        ),
    decreases s.len(),
{
    if s.len() == 0 {
        assert(s.push('\n').len() == 1);
        assert(s.push('\n')[0] == '\n');
        assert(s.push('\n').skip(1) =~= Seq::<char>::empty());
        assert(split_lines(Seq::<char>::empty()) =~~= Seq::<Seq<char>>::empty());
        assert(split_lines(s.push('\n')) =~~= seq![Seq::<char>::empty()]);
        assert(split_lines(s).push(Seq::<char>::empty()) =~~= seq![Seq::<char>::empty()]);
    } else {
        let t = s.skip(1);
        lemma_split_push_newline(t);
        lemma_split_lines_len(t);
        assert(s.push('\n').skip(1) =~= t.push('\n'));
        assert(s.push('\n')[0] == s[0]);
        let rest = split_lines(t);
        let rc = split_lines(t.push('\n'));
        if t.len() > 0 {
            assert(t.last() == s.last());
            assert(has_open_line(s) == has_open_line(t));
        }
        if s[0] == '\n' {
            assert(split_lines(s.push('\n')) =~~= seq![Seq::<char>::empty()] + rc);
            assert(split_lines(s) =~~= seq![Seq::<char>::empty()] + rest);
            if t.len() == 0 {
                assert(!has_open_line(s));
                assert(rc =~~= seq![Seq::<char>::empty()]);
                assert(split_lines(s.push('\n')) =~~= split_lines(s).push(Seq::<char>::empty()));
            } else if has_open_line(t) {
                assert(split_lines(s.push('\n')) =~~= split_lines(s));
            } else {
                assert(rc =~~= rest.push(Seq::<char>::empty()));
                assert(split_lines(s.push('\n')) =~~= split_lines(s).push(Seq::<char>::empty()));
            }
        } else {
            if t.len() == 0 {
                assert(has_open_line(s));
                assert(rc =~~= seq![Seq::<char>::empty()]);
                assert(split_lines(s) =~~= seq![seq![s[0]]]);
                assert(split_lines(s.push('\n')) =~~= seq![seq![s[0]] + rc[0]] + rc.skip(1));
                assert(seq![s[0]] + rc[0] =~= seq![s[0]]);
                assert(split_lines(s.push('\n')) =~~= split_lines(s));
            } else {
                assert(rest.len() > 0);
                assert(split_lines(s) =~~= seq![seq![s[0]] + rest[0]] + rest.skip(1));
                if has_open_line(t) {
                    assert(rc =~~= rest);
                    assert(rc.len() > 0);
                    assert(split_lines(s.push('\n')) =~~= seq![seq![s[0]] + rc[0]] + rc.skip(1));
                    assert(split_lines(s.push('\n')) =~~= split_lines(s));
                } else {
                    assert(rc =~~= rest.push(Seq::<char>::empty()));
                    assert(rc[0] =~= rest[0]);
                    assert(split_lines(s.push('\n')) =~~= seq![seq![s[0]] + rc[0]] + rc.skip(1));
                    assert(rc.skip(1) =~~= rest.skip(1).push(Seq::<char>::empty()));
                    assert(split_lines(s.push('\n')) =~~= split_lines(s).push(
                        Seq::<char>::empty(),
                    ));
                }
            }
        }
    }
}

/// Appending an ordinary character extends the open line or opens a new
/// one.
pub proof fn lemma_split_push_char(s: Seq<char>, c: char)
    requires
        c != '\n',
    ensures
        has_open_line(s) ==> split_lines(s.push(c)) =~~= split_lines(s).drop_last().push(
            split_lines(s).last().push(c),
        ),
        !has_open_line(s) ==> split_lines(s.push(c)) =~~= split_lines(s).push(seq![c]),
    decreases s.len(),
{
    if s.len() == 0 {
        assert(s.push(c).len() == 1);
        assert(s.push(c)[0] == c);
        assert(s.push(c).skip(1) =~= Seq::<char>::empty());
        assert(split_lines(Seq::<char>::empty()) =~~= Seq::<Seq<char>>::empty());
        assert(split_lines(s.push(c)) =~~= seq![seq![c]]);
        assert(split_lines(s).push(seq![c]) =~~= seq![seq![c]]);
    } else {
        let t = s.skip(1);
        lemma_split_push_char(t, c);
        lemma_split_lines_len(t);
        assert(s.push(c).skip(1) =~= t.push(c));
        assert(s.push(c)[0] == s[0]);
        let rest = split_lines(t);
        let rc = split_lines(t.push(c));
        if t.len() > 0 {
            assert(t.last() == s.last());
            assert(has_open_line(s) == has_open_line(t));
        }
        if s[0] == '\n' {
            assert(split_lines(s.push(c)) =~~= seq![Seq::<char>::empty()] + rc);
            assert(split_lines(s) =~~= seq![Seq::<char>::empty()] + rest);
            if t.len() == 0 {
                assert(!has_open_line(s));
                assert(rc =~~= seq![seq![c]]);
                assert(split_lines(s.push(c)) =~~= split_lines(s).push(seq![c]));
            } else if has_open_line(t) {
                assert(rest.len() > 0);
                assert(rc =~~= rest.drop_last().push(rest.last().push(c)));
                assert(split_lines(s).last() =~= rest.last());
                assert(split_lines(s).drop_last() =~~= seq![Seq::<char>::empty()]
                    + rest.drop_last());
                assert(split_lines(s.push(c)) =~~= split_lines(s).drop_last().push(
                    split_lines(s).last().push(c),
                ));
            } else {
                assert(rc =~~= rest.push(seq![c]));
                assert(split_lines(s.push(c)) =~~= split_lines(s).push(seq![c]));
            }
        } else {
            assert(has_open_line(s) == (s.last() != '\n'));
            if t.len() == 0 {
                assert(has_open_line(s));
                assert(rest.len() == 0);
                assert(rc =~~= seq![seq![c]]);
                assert(split_lines(s) =~~= seq![seq![s[0]]]);
                assert(split_lines(s.push(c)) =~~= seq![seq![s[0]] + rc[0]] + rc.skip(1));
                assert(seq![s[0]] + rc[0] =~= seq![s[0]].push(c));
                assert(split_lines(s.push(c)) =~~= split_lines(s).drop_last().push(
                    split_lines(s).last().push(c),
                ));
            } else {
                assert(rest.len() > 0);
                assert(split_lines(s) =~~= seq![seq![s[0]] + rest[0]] + rest.skip(1));
                if has_open_line(t) {
                    assert(rc =~~= rest.drop_last().push(rest.last().push(c)));
                    assert(rc.len() == rest.len());
                    if rest.len() == 1 {
                        assert(rc[0] =~= rest[0].push(c));
                        assert(split_lines(s.push(c)) =~~= seq![seq![s[0]] + rc[0]] + rc.skip(1));
                        assert(seq![s[0]] + rest[0].push(c) =~= (seq![s[0]] + rest[0]).push(c));
                        assert(split_lines(s).last() =~= seq![s[0]] + rest[0]);
                        assert(split_lines(s).drop_last() =~~= Seq::<Seq<char>>::empty());
                        assert(split_lines(s.push(c)) =~~= split_lines(s).drop_last().push(
                            split_lines(s).last().push(c),
                        ));
                    } else {
                        assert(rc[0] =~= rest[0]);
                        assert(split_lines(s.push(c)) =~~= seq![seq![s[0]] + rc[0]] + rc.skip(1));
                        assert(rc.skip(1) =~~= rest.skip(1).drop_last().push(
                            rest.last().push(c),
                        ));
                        assert(split_lines(s).drop_last() =~~= seq![seq![s[0]] + rest[0]]
                            + rest.skip(1).drop_last());
                        assert(split_lines(s).last() =~= rest.last());
                        assert(split_lines(s.push(c)) =~~= split_lines(s).drop_last().push(
                            split_lines(s).last().push(c),
                        ));
                    }
                } else {
                    assert(rc =~~= rest.push(seq![c]));
                    assert(rc[0] =~= rest[0]);
                    assert(split_lines(s.push(c)) =~~= seq![seq![s[0]] + rc[0]] + rc.skip(1));
                    assert(rc.skip(1) =~~= rest.skip(1).push(seq![c]));
                    assert(split_lines(s.push(c)) =~~= split_lines(s).push(seq![c]));
                }
            }
        }
    }
}

/// Non-empty content has at least one line.
pub proof fn lemma_split_lines_len(s: Seq<char>)
    ensures
        split_lines(s).len() <= s.len(),
        s.len() > 0 ==> split_lines(s).len() > 0,
    decreases s.len(),
{
    if s.len() > 0 {
        lemma_split_lines_len(s.skip(1));
    }
}

/// No analyzed content has more blank lines than lines.
pub proof fn lemma_blank_line_bound(s: Seq<char>)
    ensures
        blank_count(s) <= line_count(s),
{
    split_lines(s).lemma_filter_len(|l: Seq<char>| is_blank_line(l));
}

/// The lines already terminated by a newline.
pub open spec fn closed_lines(s: Seq<char>) -> Seq<Seq<char>> {
    if has_open_line(s) {
        split_lines(s).drop_last()
    } else {
        split_lines(s)
    }
}

proof fn lemma_filter_push<A>(s: Seq<A>, p: spec_fn(A) -> bool, x: A)
    ensures
        s.push(x).filter(p).len() == s.filter(p).len() + (if p(x) {
            1int
        } else {
            0int
        }),
{
    reveal(Seq::filter);
    assert(s.push(x).drop_last() =~= s);
    assert(s.push(x).last() == x);
}

proof fn lemma_blank_push(l: Seq<char>, c: char)
    ensures
        is_blank_line(l.push(c)) == (is_blank_line(l) && is_blank_char(c)),
{
    assert(l.push(c)[l.len() as int] == c);
    if is_blank_line(l) && is_blank_char(c) {
        assert forall|i: int| 0 <= i < l.push(c).len() implies is_blank_char(
            #[trigger] l.push(c)[i],
        ) by {
            if i < l.len() {
                assert(l.push(c)[i] == l[i]);
            }
        }
    }
    if is_blank_line(l.push(c)) {
        assert forall|i: int| 0 <= i < l.len() implies is_blank_char(#[trigger] l[i]) by {
            assert(l.push(c)[i] == l[i]);
        }
    }
}

/// Is `c` one of the whitespace characters that trimming removes?
pub fn blank_char(c: char) -> (r: bool)
    ensures
        r == is_blank_char(c),
{
    c == ' ' || c == '\t' || c == '\r' || c == '\u{b}' || c == '\u{c}'
}

/// Count every line of `content` and the blank ones among them, in a
/// single pass over its characters.
pub fn count_lines(content: &str) -> (r: (usize, usize))
    ensures
        r.0 == line_count(content@),
        r.1 == blank_count(content@),
        r.1 <= r.0,
{
    let total_chars: usize = content.unicode_len();
    let mut lines: usize = 0;
    let mut closed_blanks: usize = 0;
    let mut open = false;
    let mut open_blank = true;
    let mut it = content.chars();
    let ghost mut pfx: Seq<char> = Seq::empty();
    proof {
        assert(pfx + it.remaining() =~= content@);
        assert(closed_lines(pfx) =~~= Seq::<Seq<char>>::empty());
    }
    loop
        invariant
            it.obeys_prophetic_iter_laws(),
            content@ == pfx + it.remaining(),
            pfx.len() + it.remaining().len() == total_chars,
            lines == split_lines(pfx).len(),
            open == has_open_line(pfx),
            open ==> lines > 0 && open_blank == is_blank_line(split_lines(pfx).last()),
            closed_blanks == closed_lines(pfx).filter(|l: Seq<char>| is_blank_line(l)).len(),
            closed_blanks <= lines,
            open ==> closed_blanks < lines,
            lines <= pfx.len(),
        ensures
            it.remaining().len() == 0,
        decreases total_chars - pfx.len(),
    {
        let ghost old_it = it;
        let next = it.next();
        match next {
            None => {
                break ;
            },
            Some(c) => {
                proof {
                    assert(old_it.remaining().len() > 0);
                    assert(c == old_it.remaining()[0]);
                    assert(pfx.push(c) + it.remaining() =~= content@);
                    let p = |l: Seq<char>| is_blank_line(l);
                    let segs = split_lines(pfx);
                    if c == '\n' {
                        lemma_split_push_newline(pfx);
                        if has_open_line(pfx) {
                            assert(closed_lines(pfx.push('\n')) =~~= closed_lines(pfx).push(
                                segs.last(),
                            ));
                            lemma_filter_push(closed_lines(pfx), p, segs.last());
                        } else {
                            assert(closed_lines(pfx.push('\n')) =~~= closed_lines(pfx).push(
                                Seq::<char>::empty(),
                            ));
                            lemma_filter_push(closed_lines(pfx), p, Seq::<char>::empty());
                            assert(is_blank_line(Seq::<char>::empty()));
                        }
                    } else {
                        lemma_split_push_char(pfx, c);
                        if has_open_line(pfx) {
                            assert(closed_lines(pfx.push(c)) =~~= closed_lines(pfx));
                            lemma_blank_push(segs.last(), c);
                        } else {
                            assert(closed_lines(pfx.push(c)) =~~= closed_lines(pfx));
                            assert(is_blank_line(seq![c]) == is_blank_char(c)) by {
                                assert(seq![c][0] == c);
                            }
                        }
                    }
                }
                if c == '\n' {
                    if open {
                        if open_blank {
                            closed_blanks += 1;
                        }
                    } else {
                        lines += 1;
                        closed_blanks += 1;
                    }
                    open = false;
                    open_blank = true;
                } else {
                    let cb = blank_char(c);
                    if open {
                        open_blank = open_blank && cb;
                    } else {
                        lines += 1;
                        open = true;
                        open_blank = cb;
                    }
                }
                proof {
                    pfx = pfx.push(c);
                }
            },
        }
    }
    proof {
        assert(pfx =~= content@);
        let p = |l: Seq<char>| is_blank_line(l);
        let segs = split_lines(content@);
        if has_open_line(content@) {
            assert(closed_lines(content@).push(segs.last()) =~~= segs);
            lemma_filter_push(closed_lines(content@), p, segs.last());
        }
        lemma_blank_line_bound(content@);
    }
    let blanks = if open && open_blank {
        closed_blanks + 1
    } else {
        closed_blanks
    };
    (lines, blanks)
}

} // verus!
