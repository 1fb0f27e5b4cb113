//! The "deep space transmissions": one astrophysics fact at a time, picked
//! from a text of one fact per line.

use vstd::prelude::*;

verus! {

/// Position of the first line feed in `s`, or its length when it has none.
pub open spec fn first_newline(s: Seq<char>) -> int
    decreases s.len(),
{
    if s.len() == 0 {
        0
    } else if s[0] == '\n' {
        0
    } else {
        1 + first_newline(s.drop_first())
    }
}

/// `first_newline` is a position of the sequence or its end.
pub proof fn lemma_first_newline_bounds(s: Seq<char>)
    ensures
        0 <= first_newline(s) <= s.len(),
    decreases s.len(),
{
    if s.len() > 0 && s[0] != '\n' {
        lemma_first_newline_bounds(s.drop_first());
    }
}

/// `first_newline` is the first position that holds a line feed.
proof fn lemma_first_newline_at(s: Seq<char>, k: int)
    requires
        0 <= k <= s.len(),
        forall|j: int| 0 <= j < k ==> s[j] != '\n',
        k == s.len() || s[k] == '\n',
    ensures
        first_newline(s) == k,
    decreases k,
{
    if k > 0 {
        assert forall|j: int| 0 <= j < k - 1 implies s.drop_first()[j] != '\n' by {
            assert(s.drop_first()[j] == s[j + 1]);
        }
        lemma_first_newline_at(s.drop_first(), k - 1);
    }
}

/// A line without the carriage return that ends it, if any.
pub open spec fn strip_cr(line: Seq<char>) -> Seq<char> {
    if line.len() > 0 && line.last() == '\r' {
        line.drop_last()
    } else {
        line
    }
}

/// The non-empty lines of `s`, in order. Lines end at a line feed, or at a
/// carriage return and a line feed, which are not part of them; the last
/// line needs no line ending.
pub open spec fn nonempty_lines(s: Seq<char>) -> Seq<Seq<char>>
    decreases s.len(),
{
    if s.len() == 0 {
        seq![]
    } else {
        let k = first_newline(s);
        if k >= s.len() {
            seq![s]
        } else {
            proof {
                lemma_first_newline_bounds(s);
            }
            let line = strip_cr(s.take(k));
            let rest = nonempty_lines(s.skip(k + 1));
            if line.len() > 0 {
                seq![line] + rest
            } else {
                rest
            }
        }
    }
}

/// The views of a sequence of strings.
pub open spec fn views(lines: Seq<String>) -> Seq<Seq<char>> {
    lines.map_values(|l: String| l@)
}

/// The non-empty lines of `text`, in order.
pub fn anecdote_lines(text: &str) -> (lines: Vec<String>)
    ensures
        views(lines@) == nonempty_lines(text@),
{
    let ghost t = text@;
    let n = text.unicode_len();
    let mut lines: Vec<String> = Vec::new();
    let mut start: usize = 0;
    let mut prev_cr = false;
    let mut i: usize = 0;
    proof {
        assert(t.skip(0) =~= t);
        assert(views(lines@) + nonempty_lines(t) =~= nonempty_lines(t));
    }
    broadcast use vstd::string::group_string_axioms;
    for c in it: text.chars()
        invariant
            n == t.len(),
            t == text@,
            it.seq() == t,
            i == it.index(),
            start <= i <= n,
            forall|j: int| start <= j < i ==> t[j] != '\n',
            prev_cr == (i > start && t[i - 1] == '\r'),
            views(lines@) + nonempty_lines(t.skip(start as int)) == nonempty_lines(t),
    {
        assert(c == t[i as int]);
        if c == '\n' {
            let ghost s = t.skip(start as int);
            let ghost k = (i - start) as int;
            proof {
                assert forall|j: int| 0 <= j < k implies s[j] != '\n' by {
                    assert(s[j] == t[start + j]);
                }
                assert(s[k] == t[i as int]);
                lemma_first_newline_at(s, k);
                assert(s.skip(k + 1) =~= t.skip(i + 1));
                assert(s.take(k) =~= t.subrange(start as int, i as int));
            }
            let end: usize = if prev_cr { i - 1 } else { i };
            proof {
                assert(strip_cr(s.take(k)) =~= t.subrange(start as int, end as int));
            }
            if end > start {
                let ghost before = lines@;
                let line = String::from_str(text.substring_char(start, end));
                lines.push(line);
                proof {
                    assert(views(lines@) =~= views(before).push(t.subrange(start as int, end as int)));
                    assert(views(lines@) + nonempty_lines(t.skip(i + 1)) =~= views(before) + nonempty_lines(s));
                }
            } else {
                proof {
                    assert(strip_cr(s.take(k)).len() == 0);
                }
            }
            start = i + 1;
            prev_cr = false;
        } else {
            prev_cr = c == '\r';
        }
        i = i + 1;
    }
    if start < n {
        let ghost s = t.skip(start as int);
        let ghost before = lines@;
        proof {
            assert forall|j: int| 0 <= j < s.len() implies s[j] != '\n' by {
                assert(s[j] == t[start + j]);
            }
            lemma_first_newline_at(s, s.len() as int);
            assert(s =~= t.subrange(start as int, n as int));
        }
        let line = String::from_str(text.substring_char(start, n));
        lines.push(line);
        proof {
            assert(views(lines@) =~= views(before).push(s));
            assert(views(lines@) =~= views(before) + nonempty_lines(s));
        }
    } else {
        proof {
            assert(t.skip(start as int).len() == 0);
            assert(views(lines@) + nonempty_lines(t.skip(start as int)) =~= views(lines@));
        }
    }
    lines
}

/// The fact shown at time `millis` (milliseconds): line number `millis`
/// modulo the number of lines; none when there are no lines.
pub fn pick_anecdote(lines: &Vec<String>, millis: usize) -> (fact: Option<String>)
    ensures
        lines.len() == 0 ==> fact is None,
        lines.len() > 0 ==> (fact matches Some(f) && f@ == lines[millis as int % lines.len() as int]@),
{
    if lines.len() == 0 {
        None
    } else {
        Some(lines[millis % lines.len()].clone())
    }
}

/// What the transmission panel shows when it opens, `millis` being the
/// current time in milliseconds: a fact picked from `text`, or a notice
/// when the text holds none.
pub fn initial_anecdote(text: &str, millis: usize) -> (fact: String)
    ensures
        nonempty_lines(text@).len() == 0 ==> fact@ == "Base de données vide."@,
        nonempty_lines(text@).len() > 0 ==> fact@ == nonempty_lines(text@)[millis as int % nonempty_lines(text@).len() as int],
{
    let lines = anecdote_lines(text);
    match pick_anecdote(&lines, millis) {
        Some(fact) => fact,
        None => String::from_str("Base de données vide."),
    }
}

/// A text without a line feed is one line: if it is not empty, it is the
/// only line, whatever its length; an empty text has no lines.
pub proof fn lemma_single_line(s: Seq<char>)
    requires
        forall|j: int| 0 <= j < s.len() ==> s[j] != '\n',
    ensures
        s.len() > 0 ==> nonempty_lines(s) == seq![s],
        s.len() == 0 ==> nonempty_lines(s) == Seq::<Seq<char>>::empty(),
{
    if s.len() > 0 {
        lemma_first_newline_at(s, s.len() as int);
    }
}

/// A non-empty line ended by a line feed, or by a carriage return and a
/// line feed, is the first line of the text, whatever its length, and the
/// lines after it are those of the rest; an empty line is skipped.
pub proof fn lemma_first_line(line: Seq<char>, rest: Seq<char>)
    requires
        forall|j: int| 0 <= j < line.len() ==> line[j] != '\n',
        line.len() > 0 ==> line.last() != '\r',
    ensures
        line.len() > 0 ==> nonempty_lines(line + seq!['\n'] + rest) == seq![line] + nonempty_lines(
            rest,
        ),
        line.len() > 0 ==> nonempty_lines(line + seq!['\r', '\n'] + rest) == seq![line]
            + nonempty_lines(rest),
        line.len() == 0 ==> nonempty_lines(line + seq!['\n'] + rest) == nonempty_lines(rest),
        line.len() == 0 ==> nonempty_lines(line + seq!['\r', '\n'] + rest) == nonempty_lines(rest),
{
    let k = line.len() as int;
    let s1 = line + seq!['\n'] + rest;
    assert forall|j: int| 0 <= j < k implies s1[j] != '\n' by {
        assert(s1[j] == line[j]);
    }
    assert(s1[k] == '\n');
    lemma_first_newline_at(s1, k);
    assert(s1.take(k) =~= line);
    assert(s1.skip(k + 1) =~= rest);
    let s2 = line + seq!['\r', '\n'] + rest;
    assert forall|j: int| 0 <= j < k + 1 implies s2[j] != '\n' by {
        if j < k {
            assert(s2[j] == line[j]);
        } else {
            assert(s2[j] == '\r');
        }
    }
    assert(s2[k + 1] == '\n');
    lemma_first_newline_at(s2, k + 1);
    assert(s2.take(k + 1) =~= line.push('\r'));
    assert(line.push('\r').drop_last() =~= line);
    assert(s2.skip(k + 2) =~= rest);
}

/// Every line handed back is non-empty and holds no line feed, and there
/// are never more lines than characters.
pub proof fn lemma_lines_are_nonempty(s: Seq<char>)
    ensures
        forall|i: int|
            0 <= i < nonempty_lines(s).len() ==> {
                &&& #[trigger] nonempty_lines(s)[i].len() > 0
                &&& forall|j: int| 0 <= j < nonempty_lines(s)[i].len() ==> nonempty_lines(s)[i][j] != '\n'
            },
        nonempty_lines(s).len() <= s.len(),
    decreases s.len(),
{
    if s.len() > 0 {
        let k = first_newline(s);
        lemma_first_newline_bounds(s);
        lemma_first_newline_is_first(s);
        if k < s.len() {
            let rest = s.skip(k + 1);
            lemma_lines_are_nonempty(rest);
            let line = strip_cr(s.take(k));
            assert forall|j: int| 0 <= j < line.len() implies line[j] != '\n' by {
                assert(line[j] == s[j]);
            }
            if line.len() > 0 {
                let r = nonempty_lines(s);
                assert(r == seq![line] + nonempty_lines(rest));
                assert forall|i: int| 0 <= i < r.len() implies {
                    &&& #[trigger] r[i].len() > 0
                    &&& forall|j: int| 0 <= j < r[i].len() ==> r[i][j] != '\n'
                } by {
                    if i > 0 {
                        assert(r[i] == nonempty_lines(rest)[i - 1]);
                    }
                }
            }
        }
    }
}

/// No position before `first_newline` holds a line feed.
proof fn lemma_first_newline_is_first(s: Seq<char>)
    ensures
        forall|j: int| 0 <= j < first_newline(s) ==> s[j] != '\n',
    decreases s.len(),
{
    if s.len() > 0 && s[0] != '\n' {
        lemma_first_newline_is_first(s.drop_first());
        lemma_first_newline_bounds(s);
        assert forall|j: int| 0 <= j < first_newline(s) implies s[j] != '\n' by {
            if j > 0 {
                assert(s[j] == s.drop_first()[j - 1]);
            }
        }
    }
}

} // verus!
