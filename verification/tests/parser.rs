use gcad_webview::gcode::letter::GcodeLetter;
use gcad_webview::gcode::number::GcodeNumber;
use gcad_webview::gcode::parser::{parse, GcodeLine, ParserError, ParserErrorReason};

fn number_value(number: &GcodeNumber) -> f64 {
    match number {
        GcodeNumber::Int(i) => *i as f64,
        GcodeNumber::Float(d) => d.as_slice().iter().collect::<String>().parse::<f64>().unwrap(),
    }
}

fn is_int(number: &GcodeNumber) -> bool {
    matches!(number, GcodeNumber::Int(_))
}

fn words_of_line(line: &GcodeLine) -> Vec<(GcodeLetter, f64)> {
    line.words.iter().map(|w| (w.letter, number_value(&w.number))).collect()
}

fn parsed(text: &str) -> Vec<Vec<(GcodeLetter, f64)>> {
    parse(text.chars()).unwrap().iter().map(words_of_line).collect()
}

fn rejected(text: &str) -> ParserError {
    parse(text.chars()).unwrap_err()
}

#[test]
fn empty_text_is_one_empty_line() {
    assert_eq!(parsed(""), vec![vec![]]);
}

#[test]
fn every_line_gives_a_record() {
    assert_eq!(parsed("\n").len(), 2);
    assert_eq!(parsed("X1\n").len(), 2);
    assert_eq!(parsed("X1\nY2").len(), 2);
    assert_eq!(parsed("\n\n\n").len(), 4);
    let lines = parsed("G0 X1\n\n(only a comment)\n   \nX2");
    assert_eq!(lines.len(), 5);
    assert_eq!(lines[0], vec![(GcodeLetter::G, 0.0), (GcodeLetter::X, 1.0)]);
    assert!(lines[1].is_empty());
    assert!(lines[2].is_empty());
    assert!(lines[3].is_empty());
    assert_eq!(lines[4], vec![(GcodeLetter::X, 2.0)]);
}

#[test]
fn line_count_is_newlines_plus_one() {
    for text in ["", "X1", "X1\nX2", "\n\nX1\n", "(a)\n(b)\n(c)", "G1 X1 Y2\r\nG1 X2\r\n"] {
        let newlines = text.chars().filter(|c| *c == '\n').count();
        assert_eq!(parse(text.chars()).unwrap().len(), newlines + 1, "{:?}", text);
    }
}

#[test]
fn words_come_in_order() {
    let expected = vec![vec![(GcodeLetter::X, 10.0), (GcodeLetter::Y, -5.5), (GcodeLetter::Z, 0.0)]];
    assert_eq!(parsed("X10 Y-5.5 Z0"), expected);
    let lines = parse("X10 Y-5.5 Z0".chars()).unwrap();
    assert!(is_int(&lines[0].words[0].number));
    assert!(!is_int(&lines[0].words[1].number));
    assert!(is_int(&lines[0].words[2].number));
}

#[test]
fn blanks_between_tokens_mean_nothing() {
    let expected = vec![vec![(GcodeLetter::X, 10.0), (GcodeLetter::Y, -5.5), (GcodeLetter::Z, 0.0)]];
    assert_eq!(parsed("X10Y-5.5Z0"), expected);
    assert_eq!(parsed("  X10   Y-5.5\tZ0  "), expected);
    assert_eq!(parsed("X 10 Y -5.5 Z 0"), expected);
    assert_eq!(parsed("\tX10\tY-5.5\tZ0\r"), expected);
}

#[test]
fn blanks_inside_a_number_mean_nothing() {
    assert_eq!(parsed("X1 0 Y-5 .5"), vec![vec![(GcodeLetter::X, 10.0), (GcodeLetter::Y, -5.5)]]);
}

#[test]
fn letters_are_read_in_either_case() {
    assert_eq!(parsed("g1 x2 y3"), parsed("G1 X2 Y3"));
    assert_eq!(parsed("g1")[0], vec![(GcodeLetter::G, 1.0)]);
}

#[test]
fn carriage_returns_are_blanks() {
    let lines = parsed("G0 X1\r\nG1 X2\r\n");
    assert_eq!(lines.len(), 3);
    assert_eq!(lines[0], vec![(GcodeLetter::G, 0.0), (GcodeLetter::X, 1.0)]);
    assert_eq!(lines[1], vec![(GcodeLetter::G, 1.0), (GcodeLetter::X, 2.0)]);
    assert!(lines[2].is_empty());
    assert_eq!(parsed("X1\r2"), vec![vec![(GcodeLetter::X, 12.0)]]);
}

#[test]
fn comments_are_dropped() {
    assert_eq!(
        parsed("(first) G1 (between) X1 (last)"),
        vec![vec![(GcodeLetter::G, 1.0), (GcodeLetter::X, 1.0)]]
    );
    assert_eq!(parsed("(G999 X)"), vec![vec![]]);
}

#[test]
fn a_comment_ends_a_number() {
    let error = rejected("X1(a)2");
    assert_eq!(error.reason, ParserErrorReason::ExpectedLetter);
    assert_eq!(error.line, 1);
    assert_eq!(parsed("X1(a)Y2"), vec![vec![(GcodeLetter::X, 1.0), (GcodeLetter::Y, 2.0)]]);
}

#[test]
fn a_comment_closes_at_the_first_bracket() {
    assert_eq!(parsed("((a)X1"), vec![vec![(GcodeLetter::X, 1.0)]]);
    let error = rejected("(a))");
    assert_eq!(error.reason, ParserErrorReason::ExpectedLetter);
}

#[test]
fn an_open_comment_is_rejected() {
    let error = rejected("G1 (never closed");
    assert_eq!(error.reason, ParserErrorReason::ExpectedEndOfComment);
    assert_eq!(error.line, 1);
    let error = rejected("X1\n(open\n)");
    assert_eq!(error.reason, ParserErrorReason::ExpectedEndOfComment);
    assert_eq!(error.line, 2);
    let error = rejected("(");
    assert_eq!(error.reason, ParserErrorReason::ExpectedEndOfComment);
    assert_eq!(error.line, 1);
}

#[test]
fn what_is_no_letter_is_rejected() {
    for text in ["5", "E1", "N10", "O100", ")", "-1", ".", "G0 X1 ;", "é1", "e1", "n1", "o1"] {
        let error = rejected(text);
        assert_eq!(error.reason, ParserErrorReason::ExpectedLetter, "{:?}", text);
        assert_eq!(error.line, 1);
    }
    let error = rejected("G0 X1\n5");
    assert_eq!(error, ParserError::new(ParserErrorReason::ExpectedLetter, 2));
}

#[test]
fn a_letter_without_a_number_is_rejected() {
    for text in ["G", "G X1", "X\n1", "X(1)", "G0 X", "X Y"] {
        let error = rejected(text);
        assert_eq!(error.reason, ParserErrorReason::ExpectedNumber, "{:?}", text);
        assert_eq!(error.line, 1);
    }
}

#[test]
fn a_malformed_number_is_rejected() {
    for text in ["X1.2.3", "X-", "X.", "X-.", "X--1", "X1-2", "X1-", "X..1", "X-1-"] {
        let error = rejected(text);
        assert_eq!(error.reason, ParserErrorReason::ExpectedNumber, "{:?}", text);
        assert_eq!(error.line, 1);
    }
}

#[test]
fn an_error_names_its_line() {
    assert_eq!(rejected("\n\n\nQ"), ParserError::new(ParserErrorReason::ExpectedNumber, 4));
    assert_eq!(rejected("X1\nY2\n(c)\n?\nZ"), ParserError::new(ParserErrorReason::ExpectedLetter, 4));
    assert_eq!(rejected("X1\r\nY\r\n"), ParserError::new(ParserErrorReason::ExpectedNumber, 2));
}

#[test]
fn the_first_error_is_reported() {
    assert_eq!(rejected("X\n(open"), ParserError::new(ParserErrorReason::ExpectedNumber, 1));
    assert_eq!(rejected("(open\nX"), ParserError::new(ParserErrorReason::ExpectedEndOfComment, 1));
    assert_eq!(rejected("5 X"), ParserError::new(ParserErrorReason::ExpectedLetter, 1));
}

#[test]
fn integers_and_decimals_are_told_apart() {
    let lines = parse("X007 Y-0 Z1.0 A.5 B5. C-9223372036854775808 D9223372036854775808".chars()).unwrap();
    let words = &lines[0].words;
    assert!(matches!(words[0].number, GcodeNumber::Int(7)));
    assert!(matches!(words[1].number, GcodeNumber::Int(0)));
    assert!(!is_int(&words[2].number));
    assert_eq!(number_value(&words[2].number), 1.0);
    assert!(!is_int(&words[3].number));
    assert_eq!(number_value(&words[3].number), 0.5);
    assert!(!is_int(&words[4].number));
    assert_eq!(number_value(&words[4].number), 5.0);
    assert!(matches!(words[5].number, GcodeNumber::Int(i64::MIN)));
    assert!(!is_int(&words[6].number));
    assert_eq!(number_value(&words[6].number), 9223372036854775808.0);
}

#[test]
fn a_decimal_keeps_its_text() {
    let lines = parse("X-5.50".chars()).unwrap();
    match &lines[0].words[0].number {
        GcodeNumber::Float(d) => assert_eq!(d.as_slice().iter().collect::<String>(), "-5.50"),
        GcodeNumber::Int(_) => panic!("a decimal was read as an integer"),
    }
}

#[test]
fn parser_error_new_keeps_its_parts() {
    let error = ParserError::new(ParserErrorReason::ExpectedEndOfComment, 17);
    assert_eq!(error.reason, ParserErrorReason::ExpectedEndOfComment);
    assert_eq!(error.line, 17);
}

#[test]
fn parser_errors_are_put_in_words() {
    assert_eq!(ParserErrorReason::ExpectedLetter.description(), "Expected a valid Gcode letter");
    assert_eq!(ParserErrorReason::ExpectedNumber.description(), "Expected a valid Gcode number");
    assert_eq!(ParserErrorReason::ExpectedEndOfComment.description(), "Expected end of comment");
    assert_eq!(
        ParserError::new(ParserErrorReason::ExpectedLetter, 3).to_string(),
        "Parser error: Expected a valid Gcode letter at line 3"
    );
    assert_eq!(
        ParserError::new(ParserErrorReason::ExpectedNumber, 0).to_string(),
        "Parser error: Expected a valid Gcode number at line 0"
    );
    assert_eq!(
        rejected("X1\nY2\n(").to_string(),
        "Parser error: Expected end of comment at line 3"
    );
}

#[test]
fn the_parser_is_reached_from_the_gcode_module() {
    let lines: Vec<gcad_webview::gcode::GcodeLine> = gcad_webview::gcode::parse("G0 X1".chars()).unwrap();
    let word: &gcad_webview::gcode::GcodeWord = &lines[0].words[1];
    assert_eq!(word.letter, gcad_webview::gcode::GcodeLetter::X);
    assert!(matches!(word.number, gcad_webview::gcode::GcodeNumber::Int(1)));
}
