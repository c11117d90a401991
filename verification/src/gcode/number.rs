//! The numbers of the language: integers, and decimal literals kept as written.

use vstd::prelude::*;
use vstd::string::StringExecFns;
use crate::gcode::parser::ParserErrorReason;

verus! {

pub open spec fn is_digit(c: char) -> bool {
    '0' <= c && c <= '9'
}

/// A character that may stand in a number: a digit, the point or the sign.
pub open spec fn is_number_char(c: char) -> bool {
    is_digit(c) || c == '.' || c == '-'
}

pub open spec fn digit_value(c: char) -> nat {
    (c as nat - '0' as nat) as nat
}

pub open spec fn all_digits(s: Seq<char>) -> bool {
    forall|i: int| 0 <= i < s.len() ==> is_digit(#[trigger] s[i])
}

/// The value of a string of digits, the most significant first.
pub open spec fn digits_value(s: Seq<char>) -> nat
    decreases s.len(),
{
    if s.len() == 0 {
        0
    } else {
        digits_value(s.drop_last()) * 10 + digit_value(s.last())
    }
}

pub open spec fn has_sign(s: Seq<char>) -> bool {
    s.len() > 0 && s[0] == '-'
}

/// The text behind the sign, if there is one.
pub open spec fn magnitude(s: Seq<char>) -> Seq<char> {
    if has_sign(s) {
        s.drop_first()
    } else {
        s
    }
}

/// An integer literal: an optional `-`, then one digit or more.
pub open spec fn is_integer_text(s: Seq<char>) -> bool {
    magnitude(s).len() > 0 && all_digits(magnitude(s))
}

pub open spec fn integer_value(s: Seq<char>) -> int {
    if has_sign(s) {
        -(digits_value(magnitude(s)) as int)
    } else {
        digits_value(magnitude(s)) as int
    }
}

/// How many times `c` stands in `s`.
pub open spec fn occurrences(s: Seq<char>, c: char) -> nat
    decreases s.len(),
{
    if s.len() == 0 {
        0
    } else {
        occurrences(s.drop_last(), c) + if s.last() == c { 1nat } else { 0nat }
    }
}

/// A decimal literal: an optional `-`, then digits with at most one point
/// among them, before them or behind them, and at least one digit.
pub open spec fn is_decimal_text(s: Seq<char>) -> bool {
    let m = magnitude(s);
    &&& forall|i: int| 0 <= i < m.len() ==> is_digit(#[trigger] m[i]) || m[i] == '.'
    &&& occurrences(m, '.') <= 1
    &&& occurrences(m, '.') < m.len()
}

/// What a number is to the specifications: an integer, or the text of a
/// decimal literal.
pub enum NumberView {
    Int(i64),
    Float(Seq<char>),
}

/// The number that a text denotes: an integer where the text is an integer
/// literal that fits 64 bits, else a decimal where it is a decimal literal.
pub open spec fn number_of(s: Seq<char>) -> Option<NumberView> {
    if is_integer_text(s) && i64::MIN <= integer_value(s) <= i64::MAX {
        Some(NumberView::Int(integer_value(s) as i64))
    } else if is_decimal_text(s) {
        Some(NumberView::Float(s))
    } else {
        None
    }
}

pub proof fn lemma_digits_value_push(s: Seq<char>, c: char)
    ensures
        digits_value(s.push(c)) == digits_value(s) * 10 + digit_value(c),
{
    assert(s.push(c).drop_last() =~= s);
}

pub proof fn lemma_occurrences_push(s: Seq<char>, c: char, d: char)
    ensures
        occurrences(s.push(d), c) == occurrences(s, c) + if d == c { 1nat } else { 0nat },
        occurrences(s, c) <= s.len(),
    decreases s.len(),
{
    assert(s.push(d).drop_last() =~= s);
    if s.len() > 0 {
        lemma_occurrences_push(s.drop_last(), c, s.last());
        assert(s.drop_last().push(s.last()) =~= s);
    }
}

/// A longer string of digits has no smaller value than its beginning.
pub proof fn lemma_digits_value_prefix(s: Seq<char>, n: int)
    requires
        0 <= n <= s.len(),
    ensures
        digits_value(s.take(n)) <= digits_value(s),
    decreases s.len() - n,
{
    if n == s.len() {
        assert(s.take(n) =~= s);
    } else {
        lemma_digits_value_prefix(s, n + 1);
        assert(s.take(n + 1).drop_last() =~= s.take(n));
    }
}

/// The largest magnitude that an integer literal may have: that of `i64::MIN`.
pub const MAGNITUDE_LIMIT: u64 = 9223372036854775808;

/// Reads an integer literal.
pub fn parse_integer(text: &[char]) -> (value: Option<i64>)
    ensures
        value == if is_integer_text(text@) && i64::MIN <= integer_value(text@) <= i64::MAX {
            Some(integer_value(text@) as i64)
        } else {
            None::<i64>
        },
{
    let negative = text.len() > 0 && text[0] == '-';
    let start: usize = if negative { 1 } else { 0 };
    if text.len() == start {
        return None;
    }
    let ghost body = magnitude(text@);
    assert(body =~= text@.skip(start as int));
    let mut acc: u64 = 0;
    let mut i: usize = start;
    while i < text.len()
        invariant
            start <= i <= text.len(),
            body == magnitude(text@),
            negative == has_sign(text@),
            body.len() == text.len() - start,
            forall|j: int| 0 <= j < body.len() ==> body[j] == text@[j + start],
            all_digits(body.take(i - start)),
            acc == digits_value(body.take(i - start)),
            acc <= MAGNITUDE_LIMIT,
        decreases text.len() - i,
    {
        let c = text[i];
        assert(c == body[i - start]);
        if !(c >= '0' && c <= '9') {
            return None;
        }
        let d: u64 = (c as u64) - ('0' as u64);
        proof {
            assert(body.take(i - start + 1) =~= body.take(i - start).push(c));
            lemma_digits_value_push(body.take(i - start), c);
            lemma_digits_value_prefix(body, i - start + 1);
        }
        if acc > (MAGNITUDE_LIMIT - d) / 10 {
            return None;
        }
        acc = acc * 10 + d;
        i = i + 1;
    }
    assert(body.take(i - start) =~= body);
    if negative {
        if acc == MAGNITUDE_LIMIT {
            Some(i64::MIN)
        } else {
            Some(-(acc as i64))
        }
    } else if acc == MAGNITUDE_LIMIT {
        None
    } else {
        Some(acc as i64)
    }
}

/// The literal of a number with a fraction, or of an integer that does not
/// fit 64 bits: its characters as they were written.
#[derive(Debug)]
pub struct Decimal {
    text: Vec<char>,
}

impl View for Decimal {
    type V = Seq<char>;

    closed spec fn view(&self) -> Seq<char> {
        self.text@
    }
}

impl Decimal {
    #[verifier::type_invariant]
    spec fn well_formed(self) -> bool {
        is_decimal_text(self.text@)
    }

    /// Keeps `text` if it is a decimal literal.
    pub fn new(text: &[char]) -> (literal: Option<Decimal>)
        ensures
            literal is Some <==> is_decimal_text(text@),
            literal matches Some(d) ==> d@ == text@,
    {
        let negative = text.len() > 0 && text[0] == '-';
        let start: usize = if negative { 1 } else { 0 };
        let ghost body = magnitude(text@);
        assert(body =~= text@.skip(start as int));
        let mut points: usize = 0;
        let mut copy: Vec<char> = Vec::new();
        if negative {
            copy.push('-');
        }
        let mut i: usize = start;
        while i < text.len()
            invariant
                start <= i <= text.len(),
                body == magnitude(text@),
                body.len() == text.len() - start,
                forall|j: int| 0 <= j < body.len() ==> body[j] == text@[j + start],
                forall|j: int| 0 <= j < i - start ==> is_digit(#[trigger] body[j]) || body[j] == '.',
                points == occurrences(body.take(i - start), '.'),
                points <= i - start,
                copy@ == text@.take(i as int),
            decreases text.len() - i,
        {
            let c = text[i];
            assert(c == body[i - start]);
            proof {
                assert(body.take(i - start + 1) =~= body.take(i - start).push(c));
                lemma_occurrences_push(body.take(i - start), '.', c);
                assert(text@.take(i + 1) =~= text@.take(i as int).push(c));
            }
            if c == '.' {
                points = points + 1;
            } else if !(c >= '0' && c <= '9') {
                return None;
            }
            copy.push(c);
            i = i + 1;
        }
        assert(body.take(i - start) =~= body);
        assert(text@.take(i as int) =~= text@);
        if points <= 1 && points < text.len() - start {
            Some(Decimal { text: copy })
        } else {
            None
        }
    }

    /// The characters of the literal.
    pub fn as_slice(&self) -> (text: &[char])
        ensures
            text@ == self@,
            is_decimal_text(text@),
    {
        proof {
            use_type_invariant(self);
        }
        self.text.as_slice()
    }
}

impl Clone for Decimal {
    fn clone(&self) -> (copy: Self)
        ensures
            copy@ == self@,
    {
        proof {
            use_type_invariant(self);
        }
        let text = self.text.clone();
        assert(text@ =~= self.text@);
        Decimal { text }
    }
}

/// A number as the parser found it.
#[derive(Debug)]
pub enum GcodeNumber {
    Int(i64),
    Float(Decimal),
}

impl View for GcodeNumber {
    type V = NumberView;

    open spec fn view(&self) -> NumberView {
        match self {
            GcodeNumber::Int(i) => NumberView::Int(*i),
            GcodeNumber::Float(d) => NumberView::Float(d@),
        }
    }
}

impl Clone for GcodeNumber {
    fn clone(&self) -> (copy: Self)
        ensures
            copy@ == self@,
    {
        match self {
            GcodeNumber::Int(i) => GcodeNumber::Int(*i),
            GcodeNumber::Float(d) => GcodeNumber::Float(d.clone()),
        }
    }
}

impl GcodeNumber {
    /// Reads a number: as an integer first, else as a decimal.
    pub fn from_chars(text: &[char]) -> (number: Result<GcodeNumber, ParserErrorReason>)
        ensures
            match number_of(text@) {
                Some(v) => number matches Ok(n) && n@ == v,
                None => number == Err::<GcodeNumber, ParserErrorReason>(
                    ParserErrorReason::ExpectedNumber,
                ),
            },
    {
        match parse_integer(text) {
            Some(i) => Ok(GcodeNumber::Int(i)),
            None => match Decimal::new(text) {
                Some(d) => Ok(GcodeNumber::Float(d)),
                None => Err(ParserErrorReason::ExpectedNumber),
            },
        }
    }

    /// Reads a number from a string, as `from_chars` reads it from its
    /// characters.
    pub fn from_str(input: &str) -> (number: Result<GcodeNumber, ParserErrorReason>)
        ensures
            match number_of(input@) {
                Some(v) => number matches Ok(n) && n@ == v,
                None => number == Err::<GcodeNumber, ParserErrorReason>(
                    ParserErrorReason::ExpectedNumber,
                ),
            },
    {
        let mut text: Vec<char> = Vec::new();
        proof {
            vstd::string::axiom_spec_iter(input);
        }
        for c in it: input.chars()
            invariant
                it.seq() == input@,
                text@ == it.seq().take(it.index()),
        {
            proof {
                assert(it.seq().take(it.index() + 1) =~= it.seq().take(it.index()).push(c));
            }
            text.push(c);
        }
        assert(text@ =~= input@);
        GcodeNumber::from_chars(text.as_slice())
    }
}

/// The digit that stands for a value below ten.
pub open spec fn digit_of(value: nat) -> char {
    ('0' as nat + value) as char
}

/// A number in decimal notation, without leading zeros.
pub open spec fn decimal_text(n: nat) -> Seq<char>
    decreases n,
{
    if n < 10 {
        seq![digit_of(n)]
    } else {
        decimal_text(n / 10).push(digit_of(n % 10))
    }
}

/// What is written for a number is read as that number.
pub proof fn lemma_decimal_text(n: nat)
    ensures
        decimal_text(n).len() > 0,
        all_digits(decimal_text(n)),
        digits_value(decimal_text(n)) == n,
        is_integer_text(decimal_text(n)),
        integer_value(decimal_text(n)) == n,
    decreases n,
{
    if n < 10 {
        let text = seq![digit_of(n)];
        assert(text.drop_last() =~= Seq::<char>::empty());
        reveal_with_fuel(digits_value, 2);
    } else {
        lemma_decimal_text(n / 10);
        lemma_digits_value_push(decimal_text(n / 10), digit_of(n % 10));
    }
}

fn digit_text(value: usize) -> (text: &'static str)
    requires
        value < 10,
    ensures
        text@ == seq![digit_of(value as nat)],
{
    proof {
        reveal_strlit("0");
        reveal_strlit("1");
        reveal_strlit("2");
        reveal_strlit("3");
        reveal_strlit("4");
        reveal_strlit("5");
        reveal_strlit("6");
        reveal_strlit("7");
        reveal_strlit("8");
        reveal_strlit("9");
    }
    let text = if value == 0 {
        "0"
    } else if value == 1 {
        "1"
    } else if value == 2 {
        "2"
    } else if value == 3 {
        "3"
    } else if value == 4 {
        "4"
    } else if value == 5 {
        "5"
    } else if value == 6 {
        "6"
    } else if value == 7 {
        "7"
    } else if value == 8 {
        "8"
    } else {
        "9"
    };
    assert(text@ =~= seq![digit_of(value as nat)]);
    text
}

/// Writes `n` behind what `out` holds, in decimal notation.
pub fn append_decimal(out: &mut String, n: usize)
    ensures
        final(out)@ == old(out)@ + decimal_text(n as nat),
    decreases n,
{
    if n >= 10 {
        append_decimal(out, n / 10);
    }
    let ghost before = out@;
    out.append(digit_text(n % 10));
    proof {
        if n >= 10 {
            assert(out@ =~= old(out)@ + decimal_text((n / 10) as nat).push(digit_of((n % 10) as nat)));
        }
    }
}

} // verus!
