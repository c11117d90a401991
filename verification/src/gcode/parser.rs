//! The tokenizer: program text in, one record per input line out.

use vstd::prelude::*;
use vstd::string::StringExecFns;
use vstd::std_specs::iter::IteratorSpec;
use crate::gcode::letter::{letter_of, GcodeLetter};
use crate::gcode::number::{
    append_decimal, decimal_text, is_number_char, number_of, GcodeNumber, NumberView,
};

verus! {

/// Why a program text was rejected.
#[derive(Clone, Copy, Debug, PartialEq, Eq, Structural)]
pub enum ParserErrorReason {
    /// A word had to start here, and the character is not a command letter.
    ExpectedLetter,
    /// A command letter is not followed by a number.
    ExpectedNumber,
    /// A comment is still open where its line ends.
    ExpectedEndOfComment,
}

/// A rejection, with the 1-based number of the line that caused it.
#[derive(Clone, Copy, Debug, PartialEq, Eq, Structural)]
pub struct ParserError {
    pub reason: ParserErrorReason,
    pub line: usize,
}

/// A rejection as the specifications count lines: without a machine limit.
pub struct ParserErrorView {
    pub reason: ParserErrorReason,
    pub line: nat,
}

impl View for ParserError {
    type V = ParserErrorView;

    open spec fn view(&self) -> ParserErrorView {
        ParserErrorView { reason: self.reason, line: self.line as nat }
    }
}

impl ParserErrorReason {
    /// The reason in words.
    pub open spec fn spec_description(self) -> Seq<char> {
        match self {
            ParserErrorReason::ExpectedLetter => "Expected a valid Gcode letter"@,
            ParserErrorReason::ExpectedNumber => "Expected a valid Gcode number"@,
            ParserErrorReason::ExpectedEndOfComment => "Expected end of comment"@,
        }
    }

    pub fn description(self) -> (text: &'static str)
        ensures
            text@ == self.spec_description(),
    {
        match self {
            ParserErrorReason::ExpectedLetter => "Expected a valid Gcode letter",
            ParserErrorReason::ExpectedNumber => "Expected a valid Gcode number",
            ParserErrorReason::ExpectedEndOfComment => "Expected end of comment",
        }
    }
}

impl ParserError {
    pub fn new(reason: ParserErrorReason, line: usize) -> (error: Self)
        ensures
            error == (ParserError { reason, line }),
    {
        ParserError { reason, line }
    }

    /// The message of the error: what was expected, and on which line.
    pub fn to_string(&self) -> (message: String)
        ensures
            message@ == "Parser error: "@ + self.reason.spec_description() + " at line "@
                + decimal_text(self.line as nat),
    {
        let mut message = String::from_str("Parser error: ");
        message.append(self.reason.description());
        message.append(" at line ");
        append_decimal(&mut message, self.line);
        message
    }
}

/// One token: a command letter and its number.
#[derive(Debug)]
pub struct GcodeWord {
    pub letter: GcodeLetter,
    pub number: GcodeNumber,
}

pub struct WordView {
    pub letter: GcodeLetter,
    pub number: NumberView,
}

impl View for GcodeWord {
    type V = WordView;

    open spec fn view(&self) -> WordView {
        WordView { letter: self.letter, number: self.number@ }
    }
}

impl Clone for GcodeWord {
    fn clone(&self) -> (copy: Self)
        ensures
            copy@ == self@,
    {
        GcodeWord { letter: self.letter, number: self.number.clone() }
    }
}

/// The words of one input line, in the order in which they were written.
#[derive(Debug)]
pub struct GcodeLine {
    pub words: Vec<GcodeWord>,
}

impl View for GcodeLine {
    type V = Seq<WordView>;

    open spec fn view(&self) -> Seq<WordView> {
        self.words@.map_values(|w: GcodeWord| w@)
    }
}

/// The lines of a program as sequences of words.
pub open spec fn lines_view(lines: Seq<GcodeLine>) -> Seq<Seq<WordView>> {
    lines.map_values(|l: GcodeLine| l@)
}

/// Space, tab and carriage return mean nothing, wherever they stand.
pub open spec fn is_blank(c: char) -> bool {
    c == ' ' || c == '\t' || c == '\r'
}

pub open spec fn not_blank() -> spec_fn(char) -> bool {
    |c: char| !is_blank(c)
}

pub open spec fn without_blanks(s: Seq<char>) -> Seq<char> {
    s.filter(not_blank())
}

/// Where `c` first stands in `s`; the length of `s` if it does not.
pub open spec fn position(s: Seq<char>, c: char) -> int
    decreases s.len(),
{
    if s.len() == 0 || s[0] == c {
        0
    } else {
        1 + position(s.drop_first(), c)
    }
}

/// The text before the first newline.
pub open spec fn first_line(s: Seq<char>) -> Seq<char> {
    s.take(position(s, '\n'))
}

/// The text behind the first newline, if there is a newline.
pub open spec fn later_lines(s: Seq<char>) -> Option<Seq<char>> {
    let end = position(s, '\n');
    if 0 <= end < s.len() {
        Some(s.skip(end + 1))
    } else {
        None
    }
}

/// How many number characters `s` begins with.
pub open spec fn run_length(s: Seq<char>) -> int
    decreases s.len(),
{
    if s.len() == 0 || !is_number_char(s[0]) {
        0
    } else {
        1 + run_length(s.drop_first())
    }
}

pub proof fn lemma_position_bounds(s: Seq<char>, c: char)
    ensures
        0 <= position(s, c) <= s.len(),
        position(s, c) < s.len() ==> s[position(s, c)] == c,
        forall|i: int| 0 <= i < position(s, c) ==> s[i] != c,
    decreases s.len(),
{
    if s.len() == 0 || s[0] == c {
    } else {
        lemma_position_bounds(s.drop_first(), c);
        assert forall|i: int| 0 <= i < position(s, c) implies s[i] != c by {
            if i > 0 {
                assert(s[i] == s.drop_first()[i - 1]);
            }
        }
    }
}

pub proof fn lemma_run_length_bounds(s: Seq<char>)
    ensures
        0 <= run_length(s) <= s.len(),
        forall|i: int| 0 <= i < run_length(s) ==> is_number_char(s[i]),
        run_length(s) < s.len() ==> !is_number_char(s[run_length(s)]),
    decreases s.len(),
{
    if s.len() == 0 || !is_number_char(s[0]) {
    } else {
        lemma_run_length_bounds(s.drop_first());
        assert forall|i: int| 0 <= i < run_length(s) implies is_number_char(s[i]) by {
            if i > 0 {
                assert(s[i] == s.drop_first()[i - 1]);
            }
        }
    }
}

/// The words of one line, read from its text without blanks.
///
/// A comment runs from `(` to the next `)` and must close on its line; a
/// word is a command letter and, directly behind it, the longest run of
/// number characters, which must denote a number. The first fault ends the
/// reading.
pub open spec fn words_of(t: Seq<char>) -> Result<Seq<WordView>, ParserErrorReason>
    decreases t.len(),
{
    if t.len() == 0 {
        Ok(Seq::empty())
    } else if t[0] == '(' {
        let close = position(t, ')');
        if close < t.len() {
            proof {
                lemma_position_bounds(t, ')');
            }
            words_of(t.skip(close + 1))
        } else {
            Err(ParserErrorReason::ExpectedEndOfComment)
        }
    } else {
        match letter_of(t[0]) {
            None => Err(ParserErrorReason::ExpectedLetter),
            Some(letter) => {
                let n = run_length(t.drop_first());
                if n == 0 {
                    Err(ParserErrorReason::ExpectedNumber)
                } else {
                    match number_of(t.subrange(1, 1 + n)) {
                        None => Err(ParserErrorReason::ExpectedNumber),
                        Some(number) => {
                            proof {
                                lemma_run_length_bounds(t.drop_first());
                            }
                            match words_of(t.skip(1 + n)) {
                                Ok(words) => Ok(seq![WordView { letter, number }] + words),
                                Err(reason) => Err(reason),
                            }
                        },
                    }
                }
            },
        }
    }
}

/// What a program text parses to: the words of each of its lines, down to
/// a last line that no newline ends; or the first fault, with the number
/// of its line.
pub open spec fn parse_spec(s: Seq<char>) -> Result<Seq<Seq<WordView>>, ParserErrorView>
    decreases s.len(),
{
    match words_of(without_blanks(first_line(s))) {
        Err(reason) => Err(ParserErrorView { reason, line: 1 }),
        Ok(words) => match later_lines(s) {
            None => Ok(seq![words]),
            Some(rest) => match parse_spec(rest) {
                Ok(lines) => Ok(seq![words] + lines),
                Err(e) => Err(ParserErrorView { reason: e.reason, line: e.line + 1 }),
            },
        },
    }
}

/// `done`, then what `result` holds, counted on from the end of `done`.
spec fn append_result(
    done: Seq<Seq<WordView>>,
    result: Result<Seq<Seq<WordView>>, ParserErrorView>,
) -> Result<Seq<Seq<WordView>>, ParserErrorView> {
    match result {
        Ok(lines) => Ok(done + lines),
        Err(e) => Err(ParserErrorView { reason: e.reason, line: e.line + done.len() }),
    }
}

/// What the whole text parses to, seen from the middle of a line: `done`
/// are the lines before it, `words` its words so far, `held` the characters
/// of the comment or word that is being read, and `rest` the unread text.
#[verifier::opaque]
spec fn finish(
    done: Seq<Seq<WordView>>,
    words: Seq<WordView>,
    held: Seq<char>,
    rest: Seq<char>,
) -> Result<Seq<Seq<WordView>>, ParserErrorView> {
    match words_of(held + without_blanks(first_line(rest))) {
        Err(reason) => Err(ParserErrorView { reason, line: done.len() + 1 }),
        Ok(more) => match later_lines(rest) {
            None => Ok(done.push(words + more)),
            Some(next) => append_result(done.push(words + more), parse_spec(next)),
        },
    }
}

/// A fault where a line stands.
spec fn fault_here(done: Seq<Seq<WordView>>, reason: ParserErrorReason) -> Result<
    Seq<Seq<WordView>>,
    ParserErrorView,
> {
    Err(ParserErrorView { reason, line: done.len() + 1 })
}

proof fn lemma_append_start(done: Seq<Seq<WordView>>, s: Seq<char>)
    ensures
        append_result(done, parse_spec(s)) == finish(done, Seq::empty(), Seq::empty(), s),
{
    reveal(finish);
    let line = without_blanks(first_line(s));
    assert(Seq::<char>::empty() + line =~= line);
    match words_of(line) {
        Err(reason) => {},
        Ok(more) => {
            assert(Seq::<WordView>::empty() + more =~= more);
            assert(done + seq![more] =~= done.push(more));
            match later_lines(s) {
                None => {},
                Some(next) => {
                    match parse_spec(next) {
                        Ok(lines) => {
                            assert(done + (seq![more] + lines) =~= done.push(more) + lines);
                        },
                        Err(e) => {},
                    }
                },
            }
        },
    }
}

proof fn lemma_finish_start(s: Seq<char>)
    ensures
        parse_spec(s) == finish(Seq::empty(), Seq::empty(), Seq::empty(), s),
{
    lemma_append_start(Seq::empty(), s);
    match parse_spec(s) {
        Ok(lines) => {
            assert(Seq::<Seq<WordView>>::empty() + lines =~= lines);
        },
        Err(e) => {},
    }
}

pub proof fn lemma_first_line_step(s: Seq<char>)
    requires
        s.len() > 0,
        s[0] != '\n',
    ensures
        first_line(s) == seq![s[0]] + first_line(s.drop_first()),
        later_lines(s) == later_lines(s.drop_first()),
{
    let tail = s.drop_first();
    let p = position(tail, '\n');
    lemma_position_bounds(tail, '\n');
    assert(s.take(1 + p) =~= seq![s[0]] + tail.take(p));
    if p < tail.len() {
        assert(s.skip(1 + p + 1) =~= tail.skip(p + 1));
    }
}

pub proof fn lemma_without_blanks_empty()
    ensures
        without_blanks(Seq::empty()) == Seq::<char>::empty(),
{
    reveal_with_fuel(Seq::filter, 1);
}

pub proof fn lemma_without_blanks_cons(c: char, x: Seq<char>)
    ensures
        without_blanks(seq![c] + x) == if is_blank(c) {
            without_blanks(x)
        } else {
            seq![c] + without_blanks(x)
        },
{
    reveal_with_fuel(Seq::filter, 2);
    Seq::filter_distributes_over_add(seq![c], x, not_blank());
    assert(seq![c].drop_last() =~= Seq::<char>::empty());
    if is_blank(c) {
        assert(seq![c].filter(not_blank()) =~= Seq::<char>::empty());
        assert(Seq::<char>::empty() + without_blanks(x) =~= without_blanks(x));
    } else {
        assert(seq![c].filter(not_blank()) =~= seq![c]);
    }
}

/// The line that `rest` begins with, without its blanks, where `rest`
/// begins with a character of the line that is no blank.
proof fn lemma_line_step(rest: Seq<char>)
    requires
        rest.len() > 0,
        !is_blank(rest[0]),
        rest[0] != '\n',
    ensures
        without_blanks(first_line(rest)) == seq![rest[0]] + without_blanks(
            first_line(rest.drop_first()),
        ),
        later_lines(rest) == later_lines(rest.drop_first()),
{
    lemma_first_line_step(rest);
    lemma_without_blanks_cons(rest[0], first_line(rest.drop_first()));
}

proof fn lemma_line_end(rest: Seq<char>)
    requires
        rest.len() == 0 || rest[0] == '\n',
    ensures
        without_blanks(first_line(rest)) == Seq::<char>::empty(),
        later_lines(rest) == if rest.len() == 0 {
            None
        } else {
            Some(rest.drop_first())
        },
{
    assert(first_line(rest) =~= Seq::<char>::empty());
    lemma_without_blanks_empty();
    if rest.len() > 0 {
        assert(rest.skip(1) =~= rest.drop_first());
    }
}

/// A blank changes nothing.
proof fn lemma_finish_blank(
    done: Seq<Seq<WordView>>,
    words: Seq<WordView>,
    held: Seq<char>,
    rest: Seq<char>,
)
    requires
        rest.len() > 0,
        is_blank(rest[0]),
    ensures
        finish(done, words, held, rest) == finish(done, words, held, rest.drop_first()),
{
    reveal(finish);
    lemma_first_line_step(rest);
    lemma_without_blanks_cons(rest[0], first_line(rest.drop_first()));
}

/// Any other character of the line joins what is held.
proof fn lemma_finish_hold(
    done: Seq<Seq<WordView>>,
    words: Seq<WordView>,
    held: Seq<char>,
    rest: Seq<char>,
)
    requires
        rest.len() > 0,
        !is_blank(rest[0]),
        rest[0] != '\n',
    ensures
        finish(done, words, held, rest) == finish(
            done,
            words,
            held.push(rest[0]),
            rest.drop_first(),
        ),
{
    reveal(finish);
    lemma_line_step(rest);
    let tail = without_blanks(first_line(rest.drop_first()));
    assert(held + (seq![rest[0]] + tail) =~= held.push(rest[0]) + tail);
}

/// Where a line ends and nothing is held, the line is done.
proof fn lemma_finish_idle_end(done: Seq<Seq<WordView>>, words: Seq<WordView>, rest: Seq<char>)
    requires
        rest.len() == 0 || rest[0] == '\n',
    ensures
        finish(done, words, Seq::empty(), rest) == if rest.len() == 0 {
            Ok::<Seq<Seq<WordView>>, ParserErrorView>(done.push(words))
        } else {
            finish(done.push(words), Seq::empty(), Seq::empty(), rest.drop_first())
        },
{
    reveal(finish);
    lemma_line_end(rest);
    assert(Seq::<char>::empty() + Seq::<char>::empty() =~= Seq::<char>::empty());
    assert(words + Seq::<WordView>::empty() =~= words);
    if rest.len() > 0 {
        lemma_append_start(done.push(words), rest.drop_first());
    }
}

/// What is no letter and opens no comment is a fault where a word must
/// start.
proof fn lemma_finish_letter_missing(
    done: Seq<Seq<WordView>>,
    words: Seq<WordView>,
    rest: Seq<char>,
)
    requires
        rest.len() > 0,
        !is_blank(rest[0]),
        rest[0] != '\n',
        rest[0] != '(',
        letter_of(rest[0]) is None,
    ensures
        finish(done, words, Seq::empty(), rest) == fault_here(
            done,
            ParserErrorReason::ExpectedLetter,
        ),
{
    reveal(finish);
    lemma_line_step(rest);
    let line = without_blanks(first_line(rest));
    assert(Seq::<char>::empty() + line =~= line);
}

proof fn lemma_position_exact(s: Seq<char>, c: char, k: int)
    requires
        0 <= k <= s.len(),
        forall|i: int| 0 <= i < k ==> s[i] != c,
        k < s.len() ==> s[k] == c,
    ensures
        position(s, c) == k,
    decreases s.len(),
{
    if s.len() == 0 || s[0] == c {
    } else {
        let tail = s.drop_first();
        assert forall|i: int| 0 <= i < k - 1 implies tail[i] != c by {
            assert(tail[i] == s[i + 1]);
        }
        lemma_position_exact(tail, c, k - 1);
    }
}

proof fn lemma_run_length_exact(s: Seq<char>, k: int)
    requires
        0 <= k <= s.len(),
        forall|i: int| 0 <= i < k ==> is_number_char(s[i]),
        k < s.len() ==> !is_number_char(s[k]),
    ensures
        run_length(s) == k,
    decreases s.len(),
{
    if s.len() == 0 || !is_number_char(s[0]) {
    } else {
        let tail = s.drop_first();
        assert forall|i: int| 0 <= i < k - 1 implies is_number_char(tail[i]) by {
            assert(tail[i] == s[i + 1]);
        }
        lemma_run_length_exact(tail, k - 1);
    }
}

/// What is held of an open comment: `(`, and no `)` behind it.
spec fn holds_comment(held: Seq<char>) -> bool {
    &&& held.len() >= 1
    &&& held[0] == '('
    &&& forall|i: int| 1 <= i < held.len() ==> held[i] != ')'
}

/// What is held of a word: the character of `letter`, then the number
/// characters in `value`.
spec fn holds_word(held: Seq<char>, letter: GcodeLetter, value: Seq<char>) -> bool {
    &&& held.len() >= 1
    &&& letter_of(held[0]) == Some(letter)
    &&& held.skip(1) == value
    &&& forall|i: int| 0 <= i < value.len() ==> is_number_char(value[i])
}

/// A comment that is open where its line ends is a fault.
proof fn lemma_finish_comment_open(
    done: Seq<Seq<WordView>>,
    words: Seq<WordView>,
    held: Seq<char>,
    rest: Seq<char>,
)
    requires
        holds_comment(held),
        rest.len() == 0 || rest[0] == '\n',
    ensures
        finish(done, words, held, rest) == fault_here(
            done,
            ParserErrorReason::ExpectedEndOfComment,
        ),
{
    reveal(finish);
    lemma_line_end(rest);
    assert(held + Seq::<char>::empty() =~= held);
    lemma_position_exact(held, ')', held.len() as int);
}

/// Behind its closing bracket a comment is forgotten.
proof fn lemma_finish_comment_closed(
    done: Seq<Seq<WordView>>,
    words: Seq<WordView>,
    held: Seq<char>,
    rest: Seq<char>,
)
    requires
        holds_comment(held),
        rest.len() > 0,
        rest[0] == ')',
    ensures
        finish(done, words, held, rest) == finish(done, words, Seq::empty(), rest.drop_first()),
{
    reveal(finish);
    lemma_line_step(rest);
    let tail = without_blanks(first_line(rest.drop_first()));
    let t = held + (seq![')'] + tail);
    lemma_position_exact(t, ')', held.len() as int);
    assert(t.skip(held.len() as int + 1) =~= tail);
    assert(Seq::<char>::empty() + tail =~= tail);
}

/// Where its number ends, a word is complete, or a fault.
proof fn lemma_finish_word(
    done: Seq<Seq<WordView>>,
    words: Seq<WordView>,
    held: Seq<char>,
    letter: GcodeLetter,
    value: Seq<char>,
    rest: Seq<char>,
)
    requires
        holds_word(held, letter, value),
        rest.len() == 0 || (!is_blank(rest[0]) && !is_number_char(rest[0])),
    ensures
        finish(done, words, held, rest) == if value.len() == 0 {
            fault_here(done, ParserErrorReason::ExpectedNumber)
        } else {
            match number_of(value) {
                None => fault_here(done, ParserErrorReason::ExpectedNumber),
                Some(number) => finish(
                    done,
                    words.push(WordView { letter, number }),
                    Seq::empty(),
                    rest,
                ),
            }
        },
{
    reveal(finish);
    let tail = without_blanks(first_line(rest));
    if rest.len() == 0 || rest[0] == '\n' {
        lemma_line_end(rest);
    } else {
        lemma_line_step(rest);
    }
    let t = held + tail;
    assert(t[0] == held[0]);
    assert(t.drop_first() =~= value + tail);
    assert forall|i: int| 0 <= i < value.len() implies is_number_char((value + tail)[i]) by {
        assert((value + tail)[i] == value[i]);
    }
    lemma_run_length_exact(value + tail, value.len() as int);
    assert(t.subrange(1, 1 + value.len() as int) =~= value);
    assert(t.skip(1 + value.len() as int) =~= tail);
    assert(Seq::<char>::empty() + tail =~= tail);
    if value.len() > 0 {
        match number_of(value) {
            None => {},
            Some(number) => {
                let word = WordView { letter, number };
                match words_of(tail) {
                    Ok(more) => {
                        assert(words + (seq![word] + more) =~= words.push(word) + more);
                    },
                    Err(reason) => {},
                }
            },
        }
    }
}

/// The state of the tokenizer between two characters.
#[derive(Clone, Copy)]
enum ParserState {
    Idle,
    ReadingValue(GcodeLetter),
    EatingComment,
}

/// What `held` must be in each state.
spec fn holds(state: ParserState, held: Seq<char>, value: Seq<char>) -> bool {
    match state {
        ParserState::Idle => held == Seq::<char>::empty(),
        ParserState::ReadingValue(letter) => holds_word(held, letter, value),
        ParserState::EatingComment => holds_comment(held),
    }
}

/// The unread text: the character that was put back, if one was, then what
/// the input still holds.
spec fn unread(put_back: Option<Option<char>>, remaining: Seq<char>) -> Seq<char> {
    match put_back {
        None => remaining,
        Some(None) => Seq::empty(),
        Some(Some(c)) => seq![c] + remaining,
    }
}

spec fn end_rank(put_back: Option<Option<char>>) -> nat {
    if put_back == Some(None::<char>) {
        0
    } else {
        1
    }
}

spec fn put_back_rank(put_back: Option<Option<char>>) -> nat {
    match put_back {
        Some(Some(_)) => 1,
        _ => 0,
    }
}

/// Parses a program text into its lines. Every line of the input gives one
/// record, also an empty one, so that the place of a record tells its line.
///
/// The input is read once, from its first character to its last. It must
/// be an iterator that ends, as the characters of any string are, and hold
/// no more characters than a machine word counts.
pub fn parse<I: Iterator<Item = char>>(input: I) -> (result: Result<Vec<GcodeLine>, ParserError>)
    requires
        input.obeys_prophetic_iter_laws(),
        input.decrease() is Some,
        input.remaining().len() <= usize::MAX,
    ensures
        match parse_spec(input.remaining()) {
            Ok(lines) => result matches Ok(found) && lines_view(found@) == lines,
            Err(fault) => result matches Err(error) && error@ == fault,
        },
{
    let mut source = input;
    let mut state = ParserState::Idle;
    let mut lines: Vec<GcodeLine> = Vec::new();
    let mut words: Vec<GcodeWord> = Vec::new();
    let mut value: Vec<char> = Vec::new();
    let mut next_char: Option<Option<char>> = None;
    let ghost whole = input.remaining();
    let ghost mut held: Seq<char> = Seq::empty();
    proof {
        lemma_finish_start(whole);
        assert(lines_view(lines@) =~= Seq::empty());
        assert(words@.map_values(|w: GcodeWord| w@) =~= Seq::empty());
    }
    loop
        invariant
            source.obeys_prophetic_iter_laws(),
            source.decrease() is Some,
            whole == input.remaining(),
            whole.len() <= usize::MAX,
            holds(state, held, value@),
            next_char is Some ==> state is Idle,
            next_char matches Some(Some(c)) ==> !is_blank(c),
            next_char == Some(None::<char>) ==> source.remaining().len() == 0,
            lines.len() + (if held.len() > 0 { 1int } else { 0int }) + unread(
                next_char,
                source.remaining(),
            ).len() <= whole.len(),
            finish(
                lines_view(lines@),
                words@.map_values(|w: GcodeWord| w@),
                held,
                unread(next_char, source.remaining()),
            ) == parse_spec(whole),
        decreases end_rank(next_char), source.decrease()->0, put_back_rank(next_char),
    {
        let ghost done = lines_view(lines@);
        let ghost so_far = words@.map_values(|w: GcodeWord| w@);
        let ghost before = unread(next_char, source.remaining());
        assert(done.len() == lines.len());
        let c: Option<char> = match next_char {
            Some(c) => {
                next_char = None;
                c
            },
            None => match source.next() {
                Some('\r') => Some(' '),
                c => c,
            },
        };
        let ghost after = source.remaining();
        proof {
            if c is Some {
                assert(before.len() > 0);
                assert(after =~= before.drop_first());
            }
        }
        // Ignore whitespace
        if c == Some(' ') || c == Some('\t') {
            proof {
                lemma_finish_blank(done, so_far, held, before);
            }
            continue;
        }
        match state {
            ParserState::Idle => {
                match c {
                    None => {
                        proof {
                            lemma_finish_idle_end(done, so_far, before);
                        }
                        lines.push(GcodeLine { words });
                        proof {
                            assert(lines_view(lines@) =~= done.push(so_far));
                        }
                        return Ok(lines);
                    },
                    Some('\n') => {
                        proof {
                            lemma_finish_idle_end(done, so_far, before);
                        }
                        lines.push(GcodeLine { words });
                        words = Vec::new();
                        proof {
                            assert(lines_view(lines@) =~= done.push(so_far));
                            assert(words@.map_values(|w: GcodeWord| w@) =~= Seq::empty());
                        }
                    },
                    Some('(') => {
                        proof {
                            lemma_finish_hold(done, so_far, held, before);
                            held = held.push('(');
                        }
                        state = ParserState::EatingComment;
                    },
                    Some(ch) => {
                        match GcodeLetter::try_from(ch) {
                            Ok(letter) => {
                                state = ParserState::ReadingValue(letter);
                                value.clear();
                                proof {
                                    lemma_finish_hold(done, so_far, held, before);
                                    held = held.push(ch);
                                    assert(held.skip(1) =~= value@);
                                }
                            },
                            Err(reason) => {
                                proof {
                                    lemma_finish_letter_missing(done, so_far, before);
                                }
                                return Err(ParserError::new(reason, lines.len() + 1));
                            },
                        }
                    },
                }
            },
            ParserState::EatingComment => {
                match c {
                    None | Some('\n') => {
                        proof {
                            lemma_finish_comment_open(done, so_far, held, before);
                        }
                        return Err(
                            ParserError::new(
                                ParserErrorReason::ExpectedEndOfComment,
                                lines.len() + 1,
                            ),
                        );
                    },
                    Some(')') => {
                        proof {
                            lemma_finish_comment_closed(done, so_far, held, before);
                            held = Seq::empty();
                        }
                        state = ParserState::Idle;
                    },
                    Some(ch) => {
                        proof {
                            lemma_finish_hold(done, so_far, held, before);
                            held = held.push(ch);
                        }
                    },
                }
            },
            ParserState::ReadingValue(letter) => {
                let in_number = match c {
                    Some(ch) => (ch >= '0' && ch <= '9') || ch == '.' || ch == '-',
                    None => false,
                };
                if in_number {
                    let ch = c.unwrap();
                    value.push(ch);
                    proof {
                        lemma_finish_hold(done, so_far, held, before);
                        held = held.push(ch);
                        assert(held.skip(1) =~= value@);
                    }
                } else {
                    proof {
                        lemma_finish_word(done, so_far, held, letter, value@, before);
                    }
                    if value.len() == 0 {
                        return Err(
                            ParserError::new(ParserErrorReason::ExpectedNumber, lines.len() + 1),
                        );
                    }
                    match GcodeNumber::from_chars(value.as_slice()) {
                        Err(reason) => {
                            return Err(ParserError::new(reason, lines.len() + 1));
                        },
                        Ok(number) => {
                            let ghost word = WordView { letter, number: number@ };
                            words.push(GcodeWord { letter, number });
                            state = ParserState::Idle;
                            // Process the character we just read
                            next_char = Some(c);
                            proof {
                                assert(words@.map_values(|w: GcodeWord| w@) =~= so_far.push(word));
                                held = Seq::empty();
                                assert(unread(next_char, after) =~= before);
                            }
                        },
                    }
                }
            },
        }
    }
}

} // verus!
