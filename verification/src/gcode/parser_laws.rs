//! What holds of every parse.

use vstd::prelude::*;
use crate::gcode::number::{lemma_occurrences_push, occurrences};
use crate::gcode::parser::{
    first_line, is_blank, later_lines, lemma_first_line_step, lemma_position_bounds,
    lemma_without_blanks_cons, lemma_without_blanks_empty, parse_spec, position, without_blanks,
    words_of, ParserErrorReason, WordView,
};

verus! {

proof fn lemma_occurrences_add(a: Seq<char>, b: Seq<char>, c: char)
    ensures
        occurrences(a + b, c) == occurrences(a, c) + occurrences(b, c),
    decreases b.len(),
{
    if b.len() == 0 {
        assert(a + b =~= a);
    } else {
        lemma_occurrences_add(a, b.drop_last(), c);
        assert((a + b).drop_last() =~= a + b.drop_last());
    }
}

proof fn lemma_occurrences_none(s: Seq<char>, c: char)
    requires
        forall|i: int| 0 <= i < s.len() ==> s[i] != c,
    ensures
        occurrences(s, c) == 0,
    decreases s.len(),
{
    if s.len() > 0 {
        lemma_occurrences_none(s.drop_last(), c);
    }
}

/// The newlines of a text: none in its first line, one behind it if other
/// lines follow, and those of the other lines.
proof fn lemma_newlines_by_line(s: Seq<char>)
    ensures
        occurrences(s, '\n') == match later_lines(s) {
            None => 0,
            Some(rest) => 1 + occurrences(rest, '\n'),
        },
{
    let end = position(s, '\n');
    lemma_position_bounds(s, '\n');
    lemma_occurrences_none(s.take(end), '\n');
    if end < s.len() {
        let rest = s.skip(end + 1);
        assert(s =~= s.take(end).push('\n') + rest);
        lemma_occurrences_add(s.take(end).push('\n'), rest, '\n');
        lemma_occurrences_push(s.take(end), '\n', '\n');
    } else {
        assert(s.take(end) =~= s);
    }
}

/// A text that parses gives one record for each of its lines: one more
/// than it has newlines, blank lines and the last line included.
pub proof fn lemma_parse_line_count(s: Seq<char>)
    ensures
        parse_spec(s) matches Ok(lines) ==> lines.len() == occurrences(s, '\n') + 1,
        parse_spec(s) matches Err(e) ==> 1 <= e.line <= occurrences(s, '\n') + 1,
    decreases s.len(),
{
    lemma_newlines_by_line(s);
    lemma_position_bounds(s, '\n');
    match later_lines(s) {
        None => {},
        Some(rest) => {
            lemma_parse_line_count(rest);
        },
    }
}

/// Taking the blanks out of a text takes them out of each of its lines.
proof fn lemma_lines_without_blanks(s: Seq<char>)
    ensures
        first_line(without_blanks(s)) == without_blanks(first_line(s)),
        later_lines(without_blanks(s)) == match later_lines(s) {
            None => None,
            Some(rest) => Some(without_blanks(rest)),
        },
    decreases s.len(),
{
    if s.len() == 0 {
        lemma_without_blanks_empty();
        assert(first_line(s) =~= Seq::<char>::empty());
        assert(first_line(Seq::<char>::empty()) =~= Seq::<char>::empty());
    } else {
        let tail = s.drop_first();
        assert(s =~= seq![s[0]] + tail);
        lemma_without_blanks_cons(s[0], tail);
        if s[0] == '\n' {
            let t = without_blanks(s);
            assert(t.drop_first() =~= without_blanks(tail));
            assert(first_line(s) =~= Seq::<char>::empty());
            assert(first_line(t) =~= Seq::<char>::empty());
            lemma_without_blanks_empty();
            assert(s.skip(1) =~= tail);
            assert(t.skip(1) =~= without_blanks(tail));
        } else {
            lemma_lines_without_blanks(tail);
            lemma_first_line_step(s);
            lemma_without_blanks_cons(s[0], first_line(tail));
            if !is_blank(s[0]) {
                let t = without_blanks(s);
                assert(t.drop_first() =~= without_blanks(tail));
                lemma_first_line_step(t);
            }
        }
    }
}

/// A text without blanks is what is left of itself without blanks.
proof fn lemma_without_blanks_twice(s: Seq<char>)
    ensures
        without_blanks(without_blanks(s)) == without_blanks(s),
    decreases s.len(),
{
    if s.len() == 0 {
        lemma_without_blanks_empty();
    } else {
        let tail = s.drop_first();
        assert(s =~= seq![s[0]] + tail);
        lemma_without_blanks_cons(s[0], tail);
        lemma_without_blanks_twice(tail);
        if !is_blank(s[0]) {
            lemma_without_blanks_cons(s[0], without_blanks(tail));
        }
    }
}

proof fn lemma_parse_without_blanks(s: Seq<char>)
    ensures
        parse_spec(without_blanks(s)) == parse_spec(s),
    decreases s.len(),
{
    lemma_lines_without_blanks(s);
    lemma_without_blanks_twice(first_line(s));
    lemma_position_bounds(s, '\n');
    match later_lines(s) {
        None => {},
        Some(rest) => {
            lemma_parse_without_blanks(rest);
        },
    }
}

/// Blanks mean nothing: two texts that differ only in their spaces, tabs
/// and carriage returns parse alike.
pub proof fn lemma_parse_ignores_blanks(a: Seq<char>, b: Seq<char>)
    requires
        without_blanks(a) == without_blanks(b),
    ensures
        parse_spec(a) == parse_spec(b),
{
    lemma_parse_without_blanks(a);
    lemma_parse_without_blanks(b);
}

/// The text of line `k` of a text, counted from 0; empty where the text
/// has no such line.
pub open spec fn nth_line(s: Seq<char>, k: nat) -> Seq<char>
    decreases k,
{
    if k == 0 {
        first_line(s)
    } else {
        match later_lines(s) {
            Some(rest) => nth_line(rest, (k - 1) as nat),
            None => Seq::empty(),
        }
    }
}

/// Each line is parsed by itself: a record holds the words of its line,
/// and a fault is the fault of the first line that has one.
pub proof fn lemma_parse_by_line(s: Seq<char>)
    ensures
        match parse_spec(s) {
            Ok(lines) => forall|k: nat|
                k < lines.len() ==> words_of(without_blanks(#[trigger] nth_line(s, k))) == Ok::<
                    Seq<WordView>,
                    ParserErrorReason,
                >(lines[k as int]),
            Err(e) => {
                &&& e.line >= 1
                &&& words_of(without_blanks(nth_line(s, (e.line - 1) as nat))) == Err::<
                    Seq<WordView>,
                    ParserErrorReason,
                >(e.reason)
                &&& forall|k: nat|
                    k < e.line - 1 ==> words_of(without_blanks(#[trigger] nth_line(s, k))) is Ok
            },
        },
    decreases s.len(),
{
    lemma_position_bounds(s, '\n');
    match words_of(without_blanks(first_line(s))) {
        Err(reason) => {},
        Ok(words) => match later_lines(s) {
            None => {},
            Some(rest) => {
                lemma_parse_by_line(rest);
                match parse_spec(rest) {
                    Ok(lines) => {
                        let all = seq![words] + lines;
                        assert forall|k: nat| k < all.len() implies words_of(
                            without_blanks(#[trigger] nth_line(s, k)),
                        ) == Ok::<Seq<WordView>, ParserErrorReason>(all[k as int]) by {
                            if k > 0 {
                                assert(nth_line(s, k) == nth_line(rest, (k - 1) as nat));
                                assert(all[k as int] == lines[k - 1]);
                            }
                        }
                    },
                    Err(e) => {
                        assert forall|k: nat| k < e.line + 1 - 1 implies words_of(
                            without_blanks(#[trigger] nth_line(s, k)),
                        ) is Ok by {
                            if k > 0 {
                                assert(nth_line(s, k) == nth_line(rest, (k - 1) as nat));
                            }
                        }
                        assert(nth_line(s, e.line) == nth_line(rest, (e.line - 1) as nat));
                    },
                }
            },
        },
    }
}

} // verus!
