//! The pipeline held against a plain reading of its rules: a tokenizer that
//! goes character by character and leaves the numbers to the standard
//! library, and an interpreter that computes in `f32` as it goes.

use std::collections::HashMap;

use gcad_webview::gcode::interpreter::{
    run, Coordinate, InterpreterErrorReason, InterpreterMotion, MotionType, Point,
};
use gcad_webview::gcode::letter::GcodeLetter;
use gcad_webview::gcode::number::GcodeNumber;
use gcad_webview::gcode::parser::{parse, GcodeLine, ParserErrorReason};

#[derive(Clone, Copy, Debug, PartialEq)]
enum PlainNumber {
    Int(i64),
    Float(f64),
}

impl PlainNumber {
    fn widened(self) -> f32 {
        match self {
            PlainNumber::Int(i) => i as f32,
            PlainNumber::Float(f) => f as f32,
        }
    }
}

type PlainLine = Vec<(GcodeLetter, PlainNumber)>;

#[derive(Clone, Copy, PartialEq)]
enum Reading {
    Idle,
    Value(GcodeLetter),
    Comment,
}

fn plain_number(text: &str) -> Option<PlainNumber> {
    if let Ok(i) = text.parse::<i64>() {
        Some(PlainNumber::Int(i))
    } else if let Ok(f) = text.parse::<f64>() {
        Some(PlainNumber::Float(f))
    } else {
        None
    }
}

fn plain_parse(text: &str) -> Result<Vec<PlainLine>, (ParserErrorReason, usize)> {
    let mut input = text.chars();
    let mut state = Reading::Idle;
    let mut lines = Vec::new();
    let mut words = Vec::new();
    let mut value = String::new();
    let mut line_num = 1;
    let mut again: Option<Option<char>> = None;
    loop {
        let c = match again.take() {
            Some(c) => c,
            None => match input.next() {
                Some('\r') => Some(' '),
                c => c,
            },
        };
        if c == Some(' ') || c == Some('\t') {
            continue;
        }
        match (state, c) {
            (Reading::Idle, Some('\n')) | (Reading::Idle, None) => {
                lines.push(std::mem::take(&mut words));
                line_num += 1;
                if c.is_none() {
                    break;
                }
            },
            (Reading::Idle, Some('(')) => state = Reading::Comment,
            (Reading::Idle, Some(c)) => match GcodeLetter::try_from(c) {
                Ok(letter) => {
                    state = Reading::Value(letter);
                    value.clear();
                },
                Err(reason) => return Err((reason, line_num)),
            },
            (Reading::Comment, Some('\n')) | (Reading::Comment, None) => {
                return Err((ParserErrorReason::ExpectedEndOfComment, line_num))
            },
            (Reading::Comment, Some(')')) => state = Reading::Idle,
            (Reading::Comment, _) => {},
            (Reading::Value(_), Some(c)) if c.is_ascii_digit() || c == '.' || c == '-' => {
                value.push(c)
            },
            (Reading::Value(_), _) if value.is_empty() => {
                return Err((ParserErrorReason::ExpectedNumber, line_num))
            },
            (Reading::Value(letter), c) => {
                match plain_number(&value) {
                    Some(number) => words.push((letter, number)),
                    None => return Err((ParserErrorReason::ExpectedNumber, line_num)),
                }
                state = Reading::Idle;
                again = Some(c);
            },
        }
    }
    Ok(lines)
}

fn plain_of(number: &GcodeNumber) -> PlainNumber {
    match number {
        GcodeNumber::Int(i) => PlainNumber::Int(*i),
        GcodeNumber::Float(d) => {
            PlainNumber::Float(d.as_slice().iter().collect::<String>().parse::<f64>().unwrap())
        },
    }
}

fn plain_lines(lines: &[GcodeLine]) -> Vec<PlainLine> {
    lines
        .iter()
        .map(|line| line.words.iter().map(|w| (w.letter, plain_of(&w.number))).collect())
        .collect()
}

fn library_parse(text: &str) -> Result<Vec<PlainLine>, (ParserErrorReason, usize)> {
    match parse(text.chars()) {
        Ok(lines) => Ok(plain_lines(&lines)),
        Err(error) => Err((error.reason, error.line)),
    }
}

/// All texts of up to `longest` characters over `alphabet`.
fn texts_over(alphabet: &[char], longest: usize) -> Vec<String> {
    let mut all = vec![String::new()];
    let mut last = vec![String::new()];
    for _ in 0..longest {
        let mut next = Vec::new();
        for text in &last {
            for c in alphabet {
                let mut longer = text.clone();
                longer.push(*c);
                next.push(longer);
            }
        }
        all.extend(next.iter().cloned());
        last = next;
    }
    all
}

#[test]
fn parse_agrees_with_the_plain_tokenizer_on_short_texts() {
    let alphabet = ['G', 'x', 'E', '1', '.', '-', ' ', '\n', '(', ')', '\r'];
    let texts = texts_over(&alphabet, 5);
    assert_eq!(texts.len(), 1 + 11 + 121 + 1331 + 14641 + 161051);
    let mut accepted = 0;
    let mut rejected = 0;
    for text in &texts {
        let expected = plain_parse(text);
        assert_eq!(library_parse(text), expected, "{:?}", text);
        if expected.is_ok() {
            accepted += 1;
        } else {
            rejected += 1;
        }
    }
    assert!(accepted > 1000 && rejected > 1000);
}

#[test]
fn parse_agrees_with_the_plain_tokenizer_on_programs() {
    for text in [
        "G21 (mm)\nG90\nG0 Z5\nG0 X0 Y0\nG1 Z-1 F100\nG2 X10 Y0 I5 J0 F300\nG0 Z5\nM2\n",
        "g1x1y2\r\n   \r\n(a)(b)X3(c)\tY-4.5\nM5",
        "N10 G1 X1",
        "G1 X1 (one\nG1 X2",
        "G1 X 1 . 5 Y - 2\nG1X.5Y5.\nG1 X-.5\nG1 X1.2.3",
        "X99999999999999999999 Y-9223372036854775808 Z9223372036854775807",
        "T1 M3 S12000 G0 A1 B2 C3 D4 H5 K6 L7 P8 Q9 R10 U11 V12 W13",
    ] {
        assert_eq!(library_parse(text), plain_parse(text), "{:?}", text);
    }
}

type Spot = (f32, f32, f32);

#[derive(Debug, PartialEq)]
struct PlainMotion {
    motion_type: MotionType,
    start: Spot,
    end: Spot,
    center: Spot,
    feed: Option<f32>,
}

#[derive(Clone, Copy, PartialEq)]
enum Distance {
    Absolute,
    Relative,
}

fn radii_differ(start: Spot, end: Spot, center: Spot) -> bool {
    let radius0 = ((start.0 - center.0) * (start.0 - center.0)
        + (start.1 - center.1) * (start.1 - center.1))
        .sqrt();
    let radius1 =
        ((end.0 - center.0) * (end.0 - center.0) + (end.1 - center.1) * (end.1 - center.1)).sqrt();
    let diff = (radius0 - radius1).abs();
    diff > 0.5 || (diff > 0.005 && diff > 0.001 * radius0)
}

fn plain_run(program: &[PlainLine]) -> Result<Vec<PlainMotion>, (InterpreterErrorReason, usize)> {
    let mut motions = Vec::new();
    let mut state: HashMap<GcodeLetter, f32> = HashMap::new();
    let mut motion_state = MotionType::Rapid;
    let mut distance_mode = Distance::Absolute;
    for letter in [
        GcodeLetter::X,
        GcodeLetter::Y,
        GcodeLetter::Z,
        GcodeLetter::F,
        GcodeLetter::I,
        GcodeLetter::J,
    ] {
        state.insert(letter, 0.0);
    }
    for (line_num, words) in program.iter().enumerate() {
        let mut new_state: HashMap<GcodeLetter, f32> = HashMap::new();
        let mut machine_coordinates = false;
        if words.is_empty() {
            continue;
        }
        for (letter, number) in words {
            match (letter, number) {
                (GcodeLetter::G, PlainNumber::Int(0)) => motion_state = MotionType::Rapid,
                (GcodeLetter::G, PlainNumber::Int(1)) => motion_state = MotionType::Linear,
                (GcodeLetter::G, PlainNumber::Int(2)) => motion_state = MotionType::ClockwiseArc,
                (GcodeLetter::G, PlainNumber::Int(3)) => {
                    motion_state = MotionType::CounterClockwiseArc
                },
                (GcodeLetter::G, PlainNumber::Int(21)) => {},
                (GcodeLetter::G, PlainNumber::Int(53)) => machine_coordinates = true,
                (GcodeLetter::G, PlainNumber::Int(90)) => distance_mode = Distance::Absolute,
                (GcodeLetter::G, PlainNumber::Int(91)) => distance_mode = Distance::Relative,
                (GcodeLetter::M, PlainNumber::Int(2)) => return Ok(motions),
                (GcodeLetter::M, PlainNumber::Int(3)) => {},
                (GcodeLetter::M, PlainNumber::Int(5)) => {},
                (GcodeLetter::G, _) | (GcodeLetter::M, _) => {
                    return Err((InterpreterErrorReason::UnknownCommand, line_num + 1))
                },
                (letter, number) => {
                    new_state.insert(*letter, number.widened());
                },
            }
        }
        if machine_coordinates {
            continue;
        }
        if new_state.contains_key(&GcodeLetter::X)
            || new_state.contains_key(&GcodeLetter::Y)
            || new_state.contains_key(&GcodeLetter::Z)
        {
            let along = |letter: GcodeLetter| -> f32 {
                let from = state[&letter];
                match (new_state.get(&letter), distance_mode) {
                    (Some(to), Distance::Absolute) => *to,
                    (Some(by), Distance::Relative) => from + *by,
                    (None, _) => from,
                }
            };
            let latest = |letter: GcodeLetter| -> f32 {
                *new_state.get(&letter).unwrap_or(&state[&letter])
            };
            let start = (state[&GcodeLetter::X], state[&GcodeLetter::Y], state[&GcodeLetter::Z]);
            let end = (along(GcodeLetter::X), along(GcodeLetter::Y), along(GcodeLetter::Z));
            let center =
                (start.0 + latest(GcodeLetter::I), start.1 + latest(GcodeLetter::J), start.2);
            let arc = motion_state == MotionType::ClockwiseArc
                || motion_state == MotionType::CounterClockwiseArc;
            if arc && radii_differ(start, end, center) {
                return Err((InterpreterErrorReason::BadArc, line_num + 1));
            }
            motions.push(PlainMotion {
                motion_type: motion_state,
                start,
                end,
                center,
                feed: if motion_state == MotionType::Rapid {
                    None
                } else {
                    Some(latest(GcodeLetter::F))
                },
            });
        }
        state.extend(new_state);
    }
    Ok(motions)
}

fn widened(number: &GcodeNumber) -> f32 {
    plain_of(number).widened()
}

fn measured(coordinate: &Coordinate) -> f32 {
    match &coordinate.offset {
        Some(offset) => widened(&coordinate.base) + widened(offset),
        None => widened(&coordinate.base),
    }
}

fn spot(point: &Point) -> Spot {
    (measured(&point.x), measured(&point.y), measured(&point.z))
}

fn library_run(lines: &[GcodeLine]) -> Result<Vec<PlainMotion>, (InterpreterErrorReason, usize)> {
    let judged = run(lines, |motion: &InterpreterMotion| {
        !radii_differ(spot(&motion.start), spot(&motion.end), spot(&motion.center))
    });
    match judged {
        Ok(motions) => Ok(motions
            .iter()
            .map(|m| PlainMotion {
                motion_type: m.motion_type,
                start: spot(&m.start),
                end: spot(&m.end),
                center: spot(&m.center),
                feed: m.feed.as_ref().map(widened),
            })
            .collect()),
        Err(error) => Err((error.reason, error.line_number)),
    }
}

/// A small generator of numbers that are the same on every run.
struct Dice(u64);

impl Dice {
    fn roll(&mut self, sides: usize) -> usize {
        self.0 = self.0.wrapping_mul(6364136223846793005).wrapping_add(1442695040888963407);
        ((self.0 >> 33) % sides as u64) as usize
    }
}

#[test]
fn run_agrees_with_the_plain_interpreter_on_many_programs() {
    let tokens = [
        "G0", "G1", "G2", "G3", "G1", "G2", "G21", "G90", "G91", "M3", "M5", "X1", "X-2.5", "X10",
        "X0", "Y3", "Y0.5", "Y-4", "Z1", "Z-0.25", "I1", "I-1", "I5", "J2", "J0", "F100", "F9.5",
        "S5", "\n", "\n", "\n", "\n", "\n", "\n", "(c)", "G53", "M2", "G999", "G1.0",
    ];
    let mut dice = Dice(20240607);
    let mut succeeded = 0;
    let mut bad_arcs = 0;
    let mut unknown = 0;
    let mut moved = 0;
    for _ in 0..20000 {
        let length = 1 + dice.roll(24);
        let mut text = String::new();
        for _ in 0..length {
            text.push_str(tokens[dice.roll(tokens.len())]);
            text.push(' ');
        }
        let lines = parse(text.chars()).unwrap();
        let expected = plain_run(&plain_lines(&lines));
        assert_eq!(library_run(&lines), expected, "{:?}", text);
        match expected {
            Ok(motions) => {
                succeeded += 1;
                moved += motions.len();
            },
            Err((InterpreterErrorReason::BadArc, _)) => bad_arcs += 1,
            Err((InterpreterErrorReason::UnknownCommand, _)) => unknown += 1,
        }
    }
    assert!(succeeded > 1000 && bad_arcs > 1000 && unknown > 1000 && moved > 1000);
}

#[test]
fn run_agrees_with_the_plain_interpreter_on_programs() {
    for text in [
        "G21\nG90\nG0 Z5\nG0 X0 Y0\nG1 Z-1 F100\nG2 X10 Y0 I5 J0 F300\nG3 X0 Y0 I-5 J0\nG0 Z5\nM2\nG0 X99",
        "G91\nG1 X1 F10\nX1\nX1 Y1\nG90 X0 Y0",
        "G2 X10 Y0 I5 J0\nG2 X10.3 Y0 I5 J0",
        "G0 X1\nG53 G1 X5\nX2\nG999",
        "G1 X0.1 Y0.2 Z0.3 F0.4\nG91 X0.1 Y0.2 Z0.3\nG2 X0.2 I0.1",
        "X16777217 Y9223372036854775807 Z99999999999999999999\nG91 X1 Y1 Z1",
    ] {
        let lines = parse(text.chars()).unwrap();
        assert_eq!(library_run(&lines), plain_run(&plain_lines(&lines)), "{:?}", text);
    }
}
