//! The interpreter: parsed lines in, motions out.
//!
//! The values behind the letters persist from line to line, and so do the
//! two modes: how to move, and how to read a coordinate. A line that names
//! one of X, Y and Z resolves into one motion. The interpreter does no
//! arithmetic: a coordinate is kept as the terms of its sum, as they were
//! written, and the one judgement that needs their values, whether the two
//! radii of an arc agree, is asked of the caller.

use vstd::prelude::*;
use vstd::string::StringExecFns;
use crate::gcode::letter::GcodeLetter;
use crate::gcode::letter_map::LetterMap;
use crate::gcode::number::{append_decimal, decimal_text, GcodeNumber, NumberView};
use crate::gcode::parser::{lines_view, GcodeLine, GcodeWord, WordView};

verus! {

/// How a motion travels.
#[derive(Clone, Copy, Debug, PartialEq, Eq, Structural)]
pub enum MotionType {
    Rapid,
    Linear,
    ClockwiseArc,
    CounterClockwiseArc,
}

/// How a coordinate word is read: as a position, or as a distance from the
/// position that the motion starts at.
#[derive(Clone, Copy, Debug, PartialEq, Eq, Structural)]
pub enum DistanceMode {
    Absolute,
    Relative,
}

#[derive(Clone, Copy, Debug, PartialEq, Eq, Structural)]
pub enum InterpreterErrorReason {
    /// A G or M word with a code that the interpreter does not know.
    UnknownCommand,
    /// The radius of the arc is not constant.
    BadArc,
}

/// A failure, with the 1-based number of the line that caused it.
#[derive(Clone, Copy, Debug, PartialEq, Eq, Structural)]
pub struct InterpreterError {
    pub reason: InterpreterErrorReason,
    pub line_number: usize,
}

pub struct InterpreterErrorView {
    pub reason: InterpreterErrorReason,
    pub line_number: nat,
}

impl View for InterpreterError {
    type V = InterpreterErrorView;

    open spec fn view(&self) -> InterpreterErrorView {
        InterpreterErrorView { reason: self.reason, line_number: self.line_number as nat }
    }
}

impl InterpreterErrorReason {
    /// The reason in words.
    pub open spec fn spec_description(self) -> Seq<char> {
        match self {
            InterpreterErrorReason::UnknownCommand => "Unknown command"@,
            InterpreterErrorReason::BadArc => "The radius of the arc is not constant"@,
        }
    }

    pub fn description(self) -> (text: &'static str)
        ensures
            text@ == self.spec_description(),
    {
        match self {
            InterpreterErrorReason::UnknownCommand => "Unknown command",
            InterpreterErrorReason::BadArc => "The radius of the arc is not constant",
        }
    }
}

impl InterpreterError {
    pub fn new(reason: InterpreterErrorReason, line_number: usize) -> (error: Self)
        ensures
            error == (InterpreterError { reason, line_number }),
    {
        InterpreterError { reason, line_number }
    }

    /// The message of the error: what went wrong, and on which line.
    pub fn to_string(&self) -> (message: String)
        ensures
            message@ == "Interpreter error: "@ + self.reason.spec_description() + " at line "@
                + decimal_text(self.line_number as nat),
    {
        let mut message = String::from_str("Interpreter error: ");
        message.append(self.reason.description());
        message.append(" at line ");
        append_decimal(&mut message, self.line_number);
        message
    }
}

/// One coordinate of a point: `base`, or the sum of `base` and `offset`.
#[derive(Debug)]
pub struct Coordinate {
    pub base: GcodeNumber,
    pub offset: Option<GcodeNumber>,
}

pub struct CoordinateView {
    pub base: NumberView,
    pub offset: Option<NumberView>,
}

pub open spec fn option_view(number: Option<GcodeNumber>) -> Option<NumberView> {
    match number {
        Some(n) => Some(n@),
        None => None,
    }
}

impl View for Coordinate {
    type V = CoordinateView;

    open spec fn view(&self) -> CoordinateView {
        CoordinateView { base: self.base@, offset: option_view(self.offset) }
    }
}

impl Clone for Coordinate {
    fn clone(&self) -> (copy: Self)
        ensures
            copy@ == self@,
    {
        Coordinate {
            base: self.base.clone(),
            offset: match &self.offset {
                Some(offset) => Some(offset.clone()),
                None => None,
            },
        }
    }
}

#[derive(Debug)]
pub struct Point {
    pub x: Coordinate,
    pub y: Coordinate,
    pub z: Coordinate,
}

pub struct PointView {
    pub x: CoordinateView,
    pub y: CoordinateView,
    pub z: CoordinateView,
}

impl View for Point {
    type V = PointView;

    open spec fn view(&self) -> PointView {
        PointView { x: self.x@, y: self.y@, z: self.z@ }
    }
}

impl Clone for Point {
    fn clone(&self) -> (copy: Self)
        ensures
            copy@ == self@,
    {
        Point { x: self.x.clone(), y: self.y.clone(), z: self.z.clone() }
    }
}

/// One resolved motion.
#[derive(Debug)]
pub struct InterpreterMotion {
    pub motion_type: MotionType,
    pub start: Point,
    pub end: Point,
    /// The centre of the arc; of no meaning in a straight motion.
    pub center: Point,
    /// The feed rate. A rapid motion has none.
    pub feed: Option<GcodeNumber>,
}

pub struct MotionView {
    pub motion_type: MotionType,
    pub start: PointView,
    pub end: PointView,
    pub center: PointView,
    pub feed: Option<NumberView>,
}

impl View for InterpreterMotion {
    type V = MotionView;

    open spec fn view(&self) -> MotionView {
        MotionView {
            motion_type: self.motion_type,
            start: self.start@,
            end: self.end@,
            center: self.center@,
            feed: option_view(self.feed),
        }
    }
}

impl Clone for InterpreterMotion {
    fn clone(&self) -> (copy: Self)
        ensures
            copy@ == self@,
    {
        InterpreterMotion {
            motion_type: self.motion_type,
            start: self.start.clone(),
            end: self.end.clone(),
            center: self.center.clone(),
            feed: match &self.feed {
                Some(feed) => Some(feed.clone()),
                None => None,
            },
        }
    }
}

pub open spec fn motions_view(motions: Seq<InterpreterMotion>) -> Seq<MotionView> {
    motions.map_values(|m: InterpreterMotion| m@)
}

pub open spec fn is_arc(kind: MotionType) -> bool {
    kind == MotionType::ClockwiseArc || kind == MotionType::CounterClockwiseArc
}

/// What a G or M word asks for.
#[derive(Clone, Copy, Debug, PartialEq, Eq, Structural)]
pub enum Command {
    /// G0, G1, G2, G3: how to move from now on.
    Move(MotionType),
    /// G90, G91: how to read coordinates from now on.
    Measure(DistanceMode),
    /// G53: this line is in machine coordinates, which are not followed.
    MachineCoordinates,
    /// G21, M3, M5: known, and without effect here.
    Ignored,
    /// M2: the program ends.
    End,
    /// Any other G or M word.
    Unknown,
}

/// The command of a word; `None` for a word that sets a value.
pub open spec fn command_of(word: WordView) -> Option<Command> {
    if word.letter == GcodeLetter::G {
        Some(
            if word.number == NumberView::Int(0) {
                Command::Move(MotionType::Rapid)
            } else if word.number == NumberView::Int(1) {
                Command::Move(MotionType::Linear)
            } else if word.number == NumberView::Int(2) {
                Command::Move(MotionType::ClockwiseArc)
            } else if word.number == NumberView::Int(3) {
                Command::Move(MotionType::CounterClockwiseArc)
            } else if word.number == NumberView::Int(21) {
                Command::Ignored
            } else if word.number == NumberView::Int(53) {
                Command::MachineCoordinates
            } else if word.number == NumberView::Int(90) {
                Command::Measure(DistanceMode::Absolute)
            } else if word.number == NumberView::Int(91) {
                Command::Measure(DistanceMode::Relative)
            } else {
                Command::Unknown
            },
        )
    } else if word.letter == GcodeLetter::M {
        Some(
            if word.number == NumberView::Int(2) {
                Command::End
            } else if word.number == NumberView::Int(3) || word.number == NumberView::Int(5) {
                Command::Ignored
            } else {
                Command::Unknown
            },
        )
    } else {
        None
    }
}

/// The state of the machine between two lines, to the specifications.
pub struct MachineView {
    /// The last value of each letter that has had one.
    pub values: Map<GcodeLetter, NumberView>,
    pub motion: MotionType,
    pub distance: DistanceMode,
}

/// The letters that a motion reads: they have a value from the start.
pub open spec fn seeded(values: Map<GcodeLetter, NumberView>) -> bool {
    &&& values.contains_key(GcodeLetter::X)
    &&& values.contains_key(GcodeLetter::Y)
    &&& values.contains_key(GcodeLetter::Z)
    &&& values.contains_key(GcodeLetter::F)
    &&& values.contains_key(GcodeLetter::I)
    &&& values.contains_key(GcodeLetter::J)
}

/// The machine before the first line: at the origin, the offsets and the
/// feed rate zero, moving rapidly, reading positions.
pub open spec fn initial_machine() -> MachineView {
    let zero = NumberView::Int(0);
    MachineView {
        values: Map::empty().insert(GcodeLetter::X, zero).insert(GcodeLetter::Y, zero).insert(
            GcodeLetter::Z,
            zero,
        ).insert(GcodeLetter::F, zero).insert(GcodeLetter::I, zero).insert(GcodeLetter::J, zero),
        motion: MotionType::Rapid,
        distance: DistanceMode::Absolute,
    }
}

/// What the words of a line have asked for so far.
pub struct Staged {
    pub motion: MotionType,
    pub distance: DistanceMode,
    pub machine_coordinates: bool,
    /// The values that the line sets; of two for one letter, the later.
    pub delta: Map<GcodeLetter, NumberView>,
}

pub enum Scan {
    /// All words were read.
    Done(Staged),
    /// The program ends at this line.
    End,
    /// The line holds an unknown command.
    Unknown,
}

/// Reads the words of a line in their order. The first M2 or unknown
/// command ends the reading.
pub open spec fn scan(staged: Staged, words: Seq<WordView>) -> Scan
    decreases words.len(),
{
    if words.len() == 0 {
        Scan::Done(staged)
    } else {
        let rest = words.drop_first();
        match command_of(words[0]) {
            Some(Command::End) => Scan::End,
            Some(Command::Unknown) => Scan::Unknown,
            Some(Command::Move(kind)) => scan(Staged { motion: kind, ..staged }, rest),
            Some(Command::Measure(mode)) => scan(Staged { distance: mode, ..staged }, rest),
            Some(Command::MachineCoordinates) => scan(
                Staged { machine_coordinates: true, ..staged },
                rest,
            ),
            Some(Command::Ignored) => scan(staged, rest),
            None => scan(
                Staged { delta: staged.delta.insert(words[0].letter, words[0].number), ..staged },
                rest,
            ),
        }
    }
}

pub open spec fn plain(number: NumberView) -> CoordinateView {
    CoordinateView { base: number, offset: None }
}

/// The value of `letter` for this line: what the line sets, else what
/// persists.
pub open spec fn latest(
    values: Map<GcodeLetter, NumberView>,
    delta: Map<GcodeLetter, NumberView>,
    letter: GcodeLetter,
) -> NumberView {
    if delta.contains_key(letter) {
        delta[letter]
    } else {
        values[letter]
    }
}

/// Where a motion ends along the axis of `letter`: where the line says,
/// which in relative mode is that far from the start; where the line names
/// no such coordinate, where the motion starts.
pub open spec fn target(
    values: Map<GcodeLetter, NumberView>,
    delta: Map<GcodeLetter, NumberView>,
    distance: DistanceMode,
    letter: GcodeLetter,
) -> CoordinateView {
    if delta.contains_key(letter) {
        match distance {
            DistanceMode::Absolute => plain(delta[letter]),
            DistanceMode::Relative => CoordinateView {
                base: values[letter],
                offset: Some(delta[letter]),
            },
        }
    } else {
        plain(values[letter])
    }
}

/// The motion of a line that sets `delta`, on a machine with `values`.
pub open spec fn resolve_spec(
    values: Map<GcodeLetter, NumberView>,
    delta: Map<GcodeLetter, NumberView>,
    motion: MotionType,
    distance: DistanceMode,
) -> MotionView {
    MotionView {
        motion_type: motion,
        start: PointView {
            x: plain(values[GcodeLetter::X]),
            y: plain(values[GcodeLetter::Y]),
            z: plain(values[GcodeLetter::Z]),
        },
        end: PointView {
            x: target(values, delta, distance, GcodeLetter::X),
            y: target(values, delta, distance, GcodeLetter::Y),
            z: target(values, delta, distance, GcodeLetter::Z),
        },
        center: PointView {
            x: CoordinateView {
                base: values[GcodeLetter::X],
                offset: Some(latest(values, delta, GcodeLetter::I)),
            },
            y: CoordinateView {
                base: values[GcodeLetter::Y],
                offset: Some(latest(values, delta, GcodeLetter::J)),
            },
            z: plain(values[GcodeLetter::Z]),
        },
        feed: if motion == MotionType::Rapid {
            None
        } else {
            Some(latest(values, delta, GcodeLetter::F))
        },
    }
}

pub open spec fn moves(delta: Map<GcodeLetter, NumberView>) -> bool {
    delta.contains_key(GcodeLetter::X) || delta.contains_key(GcodeLetter::Y) || delta.contains_key(
        GcodeLetter::Z,
    )
}

/// What one line does to the machine.
pub enum LineOutcome {
    /// The program ends here.
    End,
    /// The line holds an unknown command.
    Unknown,
    /// The machine goes on, after the motion that the line resolved into,
    /// if it did.
    Next { machine: MachineView, motion: Option<MotionView> },
}

/// A line without words changes nothing. Of any other line the words are
/// read first; the modes they set persist. In machine coordinates the line
/// does no more. Else it resolves into a motion if it names X, Y or Z, and
/// the values that it sets persist.
pub open spec fn line_outcome(machine: MachineView, line: Seq<WordView>) -> LineOutcome {
    if line.len() == 0 {
        LineOutcome::Next { machine, motion: None }
    } else {
        let start = Staged {
            motion: machine.motion,
            distance: machine.distance,
            machine_coordinates: false,
            delta: Map::empty(),
        };
        match scan(start, line) {
            Scan::End => LineOutcome::End,
            Scan::Unknown => LineOutcome::Unknown,
            Scan::Done(staged) => if staged.machine_coordinates {
                LineOutcome::Next {
                    machine: MachineView {
                        values: machine.values,
                        motion: staged.motion,
                        distance: staged.distance,
                    },
                    motion: None,
                }
            } else {
                LineOutcome::Next {
                    machine: MachineView {
                        values: machine.values.union_prefer_right(staged.delta),
                        motion: staged.motion,
                        distance: staged.distance,
                    },
                    motion: if moves(staged.delta) {
                        Some(
                            resolve_spec(
                                machine.values,
                                staged.delta,
                                staged.motion,
                                staged.distance,
                            ),
                        )
                    } else {
                        None
                    },
                }
            },
        }
    }
}

/// The motions of the lines from `at` on, on a machine that has reached
/// line `at`; `rounds` tells of an arc whether its radii agree. The first
/// unknown command and the first arc whose radii do not agree fail the
/// run, with the number of their line; M2 ends it.
pub open spec fn run_from(
    machine: MachineView,
    program: Seq<Seq<WordView>>,
    at: int,
    rounds: spec_fn(MotionView) -> bool,
) -> Result<Seq<MotionView>, InterpreterErrorView>
    decreases program.len() - at,
{
    if at < 0 || at >= program.len() {
        Ok(Seq::empty())
    } else {
        match line_outcome(machine, program[at]) {
            LineOutcome::End => Ok(Seq::empty()),
            LineOutcome::Unknown => Err(
                InterpreterErrorView {
                    reason: InterpreterErrorReason::UnknownCommand,
                    line_number: (at + 1) as nat,
                },
            ),
            LineOutcome::Next { machine: next, motion } => match motion {
                None => run_from(next, program, at + 1, rounds),
                Some(m) => if is_arc(m.motion_type) && !rounds(m) {
                    Err(
                        InterpreterErrorView {
                            reason: InterpreterErrorReason::BadArc,
                            line_number: (at + 1) as nat,
                        },
                    )
                } else {
                    match run_from(next, program, at + 1, rounds) {
                        Ok(later) => Ok(seq![m] + later),
                        Err(e) => Err(e),
                    }
                },
            },
        }
    }
}

/// What a program resolves into, from the first line on.
pub open spec fn run_spec(program: Seq<Seq<WordView>>, rounds: spec_fn(MotionView) -> bool) -> Result<
    Seq<MotionView>,
    InterpreterErrorView,
> {
    run_from(initial_machine(), program, 0, rounds)
}

/// The command of a word.
pub fn command(word: &GcodeWord) -> (found: Option<Command>)
    ensures
        found == command_of(word@),
{
    match word.letter {
        GcodeLetter::G => Some(
            match word.number {
                GcodeNumber::Int(0) => Command::Move(MotionType::Rapid),
                GcodeNumber::Int(1) => Command::Move(MotionType::Linear),
                GcodeNumber::Int(2) => Command::Move(MotionType::ClockwiseArc),
                GcodeNumber::Int(3) => Command::Move(MotionType::CounterClockwiseArc),
                GcodeNumber::Int(21) => Command::Ignored,
                GcodeNumber::Int(53) => Command::MachineCoordinates,
                GcodeNumber::Int(90) => Command::Measure(DistanceMode::Absolute),
                GcodeNumber::Int(91) => Command::Measure(DistanceMode::Relative),
                _ => Command::Unknown,
            },
        ),
        GcodeLetter::M => Some(
            match word.number {
                GcodeNumber::Int(2) => Command::End,
                GcodeNumber::Int(3) => Command::Ignored,
                GcodeNumber::Int(5) => Command::Ignored,
                _ => Command::Unknown,
            },
        ),
        _ => None,
    }
}

/// What the words of a line asked for, with the values in a table.
enum Scanned {
    Done { motion: MotionType, distance: DistanceMode, machine_coordinates: bool, delta: LetterMap },
    End,
    Unknown,
}

spec fn scanned_view(scanned: Scanned) -> Scan {
    match scanned {
        Scanned::Done { motion, distance, machine_coordinates, delta } => Scan::Done(
            Staged { motion, distance, machine_coordinates, delta: delta@ },
        ),
        Scanned::End => Scan::End,
        Scanned::Unknown => Scan::Unknown,
    }
}

/// Reads the words of a line on a machine in the modes `motion` and
/// `distance`.
fn scan_line(words: &Vec<GcodeWord>, motion: MotionType, distance: DistanceMode) -> (scanned:
    Scanned)
    ensures
        scanned_view(scanned) == scan(
            Staged { motion, distance, machine_coordinates: false, delta: Map::empty() },
            words@.map_values(|w: GcodeWord| w@),
        ),
{
    let ghost line = words@.map_values(|w: GcodeWord| w@);
    let ghost start = Staged { motion, distance, machine_coordinates: false, delta: Map::empty() };
    let mut motion_state = motion;
    let mut distance_mode = distance;
    let mut g53_enabled = false;
    let mut new_state = LetterMap::new();
    let mut i: usize = 0;
    assert(line.skip(0) =~= line);
    while i < words.len()
        invariant
            0 <= i <= words.len(),
            line == words@.map_values(|w: GcodeWord| w@),
            start == (Staged { motion, distance, machine_coordinates: false, delta: Map::empty() }),
            scan(start, line) == scan(
                Staged {
                    motion: motion_state,
                    distance: distance_mode,
                    machine_coordinates: g53_enabled,
                    delta: new_state@,
                },
                line.skip(i as int),
            ),
        decreases words.len() - i,
    {
        let word = &words[i];
        proof {
            assert(line.skip(i as int)[0] == word@);
            assert(line.skip(i as int).drop_first() =~= line.skip(i + 1));
        }
        match command(word) {
            Some(Command::Move(kind)) => {
                motion_state = kind;
            },
            Some(Command::Measure(mode)) => {
                distance_mode = mode;
            },
            Some(Command::MachineCoordinates) => {
                g53_enabled = true;
            },
            Some(Command::Ignored) => {},
            Some(Command::End) => {
                return Scanned::End;
            },
            Some(Command::Unknown) => {
                return Scanned::Unknown;
            },
            None => {
                new_state.insert(word.letter, word.number.clone());
            },
        }
        i = i + 1;
    }
    Scanned::Done {
        motion: motion_state,
        distance: distance_mode,
        machine_coordinates: g53_enabled,
        delta: new_state,
    }
}

fn stored(values: &LetterMap, letter: GcodeLetter) -> (number: GcodeNumber)
    requires
        values@.contains_key(letter),
    ensures
        number@ == values@[letter],
{
    values.get(letter).unwrap().clone()
}

fn latest_of(values: &LetterMap, delta: &LetterMap, letter: GcodeLetter) -> (number: GcodeNumber)
    requires
        values@.contains_key(letter),
    ensures
        number@ == latest(values@, delta@, letter),
{
    match delta.get(letter) {
        Some(number) => number.clone(),
        None => stored(values, letter),
    }
}

fn target_of(values: &LetterMap, delta: &LetterMap, distance: DistanceMode, letter: GcodeLetter) -> (end:
    Coordinate)
    requires
        values@.contains_key(letter),
    ensures
        end@ == target(values@, delta@, distance, letter),
{
    match delta.get(letter) {
        Some(number) => match distance {
            DistanceMode::Absolute => Coordinate { base: number.clone(), offset: None },
            DistanceMode::Relative => Coordinate {
                base: stored(values, letter),
                offset: Some(number.clone()),
            },
        },
        None => Coordinate { base: stored(values, letter), offset: None },
    }
}

/// The motion of a line that sets `delta`, on a machine with `values`.
pub fn resolve(
    values: &LetterMap,
    delta: &LetterMap,
    motion: MotionType,
    distance: DistanceMode,
) -> (resolved: InterpreterMotion)
    requires
        seeded(values@),
    ensures
        resolved@ == resolve_spec(values@, delta@, motion, distance),
{
    let start = Point {
        x: Coordinate { base: stored(values, GcodeLetter::X), offset: None },
        y: Coordinate { base: stored(values, GcodeLetter::Y), offset: None },
        z: Coordinate { base: stored(values, GcodeLetter::Z), offset: None },
    };
    let end = Point {
        x: target_of(values, delta, distance, GcodeLetter::X),
        y: target_of(values, delta, distance, GcodeLetter::Y),
        z: target_of(values, delta, distance, GcodeLetter::Z),
    };
    let center = Point {
        x: Coordinate {
            base: stored(values, GcodeLetter::X),
            offset: Some(latest_of(values, delta, GcodeLetter::I)),
        },
        y: Coordinate {
            base: stored(values, GcodeLetter::Y),
            offset: Some(latest_of(values, delta, GcodeLetter::J)),
        },
        z: Coordinate { base: stored(values, GcodeLetter::Z), offset: None },
    };
    let feed = match motion {
        MotionType::Rapid => None,
        _ => Some(latest_of(values, delta, GcodeLetter::F)),
    };
    InterpreterMotion { motion_type: motion, start, end, center, feed }
}

/// The machine that carries its state from line to line.
#[derive(Debug)]
pub struct Machine {
    values: LetterMap,
    motion: MotionType,
    distance: DistanceMode,
}

impl View for Machine {
    type V = MachineView;

    closed spec fn view(&self) -> MachineView {
        MachineView { values: self.values@, motion: self.motion, distance: self.distance }
    }
}

/// What a line has done to the machine.
#[derive(Debug)]
pub enum Step {
    /// The program ends here.
    End,
    /// The line holds an unknown command.
    Unknown,
    /// The machine goes on, after the motion that the line resolved into,
    /// if it did.
    Next(Option<InterpreterMotion>),
}

pub open spec fn option_motion_view(motion: Option<InterpreterMotion>) -> Option<MotionView> {
    match motion {
        Some(m) => Some(m@),
        None => None,
    }
}

impl Machine {
    #[verifier::type_invariant]
    spec fn well_formed(self) -> bool {
        seeded(self.values@)
    }

    /// The machine before the first line.
    pub fn new() -> (machine: Self)
        ensures
            machine@ == initial_machine(),
    {
        let mut state = LetterMap::new();
        state.insert(GcodeLetter::X, GcodeNumber::Int(0));
        state.insert(GcodeLetter::Y, GcodeNumber::Int(0));
        state.insert(GcodeLetter::Z, GcodeNumber::Int(0));
        state.insert(GcodeLetter::F, GcodeNumber::Int(0));
        state.insert(GcodeLetter::I, GcodeNumber::Int(0));
        state.insert(GcodeLetter::J, GcodeNumber::Int(0));
        Machine { values: state, motion: MotionType::Rapid, distance: DistanceMode::Absolute }
    }

    /// How the machine moves, unless a line says otherwise.
    pub fn motion(&self) -> (kind: MotionType)
        ensures
            kind == self@.motion,
    {
        self.motion
    }

    /// How the machine reads coordinates, unless a line says otherwise.
    pub fn distance(&self) -> (mode: DistanceMode)
        ensures
            mode == self@.distance,
    {
        self.distance
    }

    /// The last value of `letter`.
    pub fn value(&self, letter: GcodeLetter) -> (found: Option<&GcodeNumber>)
        ensures
            match found {
                Some(number) => self@.values.contains_key(letter) && number@
                    == self@.values[letter],
                None => !self@.values.contains_key(letter),
            },
            seeded(self@.values),
    {
        proof {
            use_type_invariant(self);
        }
        self.values.get(letter)
    }

    /// Takes the machine through one line.
    pub fn step(&mut self, line: &GcodeLine) -> (step: Step)
        ensures
            match line_outcome(old(self)@, line@) {
                LineOutcome::End => step is End && final(self)@ == old(self)@,
                LineOutcome::Unknown => step is Unknown && final(self)@ == old(self)@,
                LineOutcome::Next { machine, motion } => {
                    &&& final(self)@ == machine
                    &&& step matches Step::Next(found)
                    &&& option_motion_view(found) == motion
                },
            },
    {
        proof {
            use_type_invariant(&*self);
        }
        if line.words.len() == 0 {
            return Step::Next(None);
        }
        match scan_line(&line.words, self.motion, self.distance) {
            Scanned::End => Step::End,
            Scanned::Unknown => Step::Unknown,
            Scanned::Done { motion, distance, machine_coordinates, delta } => {
                self.motion = motion;
                self.distance = distance;
                if machine_coordinates {
                    return Step::Next(None);
                }
                // Perform motion if X, Y, or Z were present
                let resolved = if delta.contains_key(GcodeLetter::X) || delta.contains_key(
                    GcodeLetter::Y,
                ) || delta.contains_key(GcodeLetter::Z) {
                    Some(resolve(&self.values, &delta, motion, distance))
                } else {
                    None
                };
                // Update state
                let mut merged = self.values.clone();
                merged.extend(&delta);
                self.values = merged;
                Step::Next(resolved)
            },
        }
    }
}

/// `rounds` is how `arc_ok` judges: it answers nothing else of any motion.
pub open spec fn answers<F: Fn(&InterpreterMotion) -> bool>(
    arc_ok: F,
    rounds: spec_fn(MotionView) -> bool,
) -> bool {
    forall|m: InterpreterMotion, b: bool| #[trigger] call_ensures(arc_ok, (&m,), b) ==> b == rounds(m@)
}

/// The judgement that finds every arc round.
pub open spec fn every_arc() -> spec_fn(MotionView) -> bool {
    |m: MotionView| true
}

pub open spec fn run_view(result: Result<Vec<InterpreterMotion>, InterpreterError>) -> Result<
    Seq<MotionView>,
    InterpreterErrorView,
> {
    match result {
        Ok(motions) => Ok(motions_view(motions@)),
        Err(e) => Err(e@),
    }
}

/// The motions `done`, then what `later` holds.
spec fn prepend(
    done: Seq<MotionView>,
    later: Result<Seq<MotionView>, InterpreterErrorView>,
) -> Result<Seq<MotionView>, InterpreterErrorView> {
    match later {
        Ok(motions) => Ok(done + motions),
        Err(e) => Err(e),
    }
}

/// The machine and the motions after the first `n` lines of a run that
/// none of them has ended or failed.
spec fn progress(program: Seq<Seq<WordView>>, rounds: spec_fn(MotionView) -> bool, n: nat) -> Option<
    (MachineView, Seq<MotionView>),
>
    decreases n,
{
    if n == 0 {
        Some((initial_machine(), Seq::empty()))
    } else if n > program.len() {
        None
    } else {
        match progress(program, rounds, (n - 1) as nat) {
            None => None,
            Some((machine, done)) => match line_outcome(machine, program[n - 1]) {
                LineOutcome::Next { machine: next, motion } => match motion {
                    None => Some((next, done)),
                    Some(m) => if is_arc(m.motion_type) && !rounds(m) {
                        None
                    } else {
                        Some((next, done.push(m)))
                    },
                },
                _ => None,
            },
        }
    }
}

/// From where a run has come to, it goes on as a run from there.
proof fn lemma_progress_run(
    program: Seq<Seq<WordView>>,
    rounds: spec_fn(MotionView) -> bool,
    n: nat,
)
    ensures
        progress(program, rounds, n) matches Some((machine, done)) ==> run_spec(program, rounds)
            == prepend(done, run_from(machine, program, n as int, rounds)),
    decreases n,
{
    if n == 0 {
        match run_spec(program, rounds) {
            Ok(motions) => {
                assert(Seq::<MotionView>::empty() + motions =~= motions);
            },
            Err(e) => {},
        }
    } else if n <= program.len() {
        lemma_progress_run(program, rounds, (n - 1) as nat);
        match progress(program, rounds, (n - 1) as nat) {
            None => {},
            Some((machine, done)) => {
                match line_outcome(machine, program[n - 1]) {
                    LineOutcome::Next { machine: next, motion } => {
                        match motion {
                            Some(m) => {
                                match run_from(next, program, n as int, rounds) {
                                    Ok(later) => {
                                        assert(done + (seq![m] + later) =~= done.push(m) + later);
                                    },
                                    Err(e) => {},
                                }
                            },
                            None => {},
                        }
                    },
                    _ => {},
                }
            },
        }
    }
}

/// How far a run has come rests on the lines that it has passed.
proof fn lemma_progress_take(
    program: Seq<Seq<WordView>>,
    rounds: spec_fn(MotionView) -> bool,
    n: nat,
    k: int,
)
    requires
        n <= k <= program.len(),
    ensures
        progress(program.take(k), rounds, n) == progress(program, rounds, n),
    decreases n,
{
    if n > 0 {
        lemma_progress_take(program, rounds, (n - 1) as nat, k);
        assert(program.take(k)[n - 1] == program[n - 1]);
    }
}

/// What the lines that a run has passed have resolved into is the run of
/// those lines.
proof fn lemma_progress_lines(
    program: Seq<Seq<WordView>>,
    rounds: spec_fn(MotionView) -> bool,
    n: nat,
)
    requires
        n <= program.len(),
    ensures
        progress(program, rounds, n) matches Some((machine, done)) ==> run_spec(
            program.take(n as int),
            rounds,
        ) == Ok::<Seq<MotionView>, InterpreterErrorView>(done),
{
    lemma_progress_take(program, rounds, n, n as int);
    lemma_progress_run(program.take(n as int), rounds, n);
    match progress(program, rounds, n) {
        Some((machine, done)) => {
            assert(done + Seq::<MotionView>::empty() =~= done);
        },
        None => {},
    }
}

/// What the line that a run has come to makes of the run, where it is the
/// last that the run comes to.
proof fn lemma_progress_stop(
    program: Seq<Seq<WordView>>,
    rounds: spec_fn(MotionView) -> bool,
    at: nat,
)
    requires
        at < program.len(),
    ensures
        progress(program, rounds, at) matches Some((machine, done)) ==> match line_outcome(
            machine,
            program[at as int],
        ) {
            LineOutcome::End => run_spec(program, rounds) == Ok::<
                Seq<MotionView>,
                InterpreterErrorView,
            >(done),
            LineOutcome::Unknown => run_spec(program, rounds) == Err::<
                Seq<MotionView>,
                InterpreterErrorView,
            >(
                InterpreterErrorView {
                    reason: InterpreterErrorReason::UnknownCommand,
                    line_number: at + 1,
                },
            ),
            LineOutcome::Next { machine: next, motion } => motion matches Some(m) && is_arc(
                m.motion_type,
            ) && !rounds(m) ==> run_spec(program, rounds) == Err::<
                Seq<MotionView>,
                InterpreterErrorView,
            >(
                InterpreterErrorView {
                    reason: InterpreterErrorReason::BadArc,
                    line_number: at + 1,
                },
            ),
        },
{
    lemma_progress_run(program, rounds, at);
    match progress(program, rounds, at) {
        Some((machine, done)) => {
            assert(done + Seq::<MotionView>::empty() =~= done);
        },
        None => {},
    }
}

/// `arc_ok` has refused the arc of line `line_number`, which the run has
/// come to with every arc before it found round.
pub open spec fn refused_at<F: Fn(&InterpreterMotion) -> bool>(
    arc_ok: F,
    program: Seq<Seq<WordView>>,
    line_number: int,
) -> bool {
    exists|m: InterpreterMotion|
        {
            &&& is_arc(m@.motion_type)
            &&& #[trigger] call_ensures(arc_ok, (&m,), false)
            &&& 1 <= line_number <= program.len()
            &&& run_spec(program.take(line_number), every_arc()) matches Ok(motions)
            &&& motions.len() > 0
            &&& motions.last() == m@
        }
}

/// What becomes of an arc once its radii are judged: it joins the run, or
/// fails it at its line.
pub fn judge_arc(arc: InterpreterMotion, round: bool, line_number: usize) -> (judged: Result<
    InterpreterMotion,
    InterpreterError,
>)
    ensures
        round ==> judged == Ok::<InterpreterMotion, InterpreterError>(arc),
        !round ==> judged == Err::<InterpreterMotion, InterpreterError>(
            InterpreterError { reason: InterpreterErrorReason::BadArc, line_number },
        ),
{
    if round {
        Ok(arc)
    } else {
        Err(InterpreterError::new(InterpreterErrorReason::BadArc, line_number))
    }
}

/// Interprets a parsed program: the motions of its lines, in their order.
///
/// `arc_ok` is asked of each arc, as it is resolved, whether its two radii
/// agree; the first arc that it refuses fails the run. Where `arc_ok` judges
/// a motion by what the motion holds, the result is that of `run_spec` with
/// its judgement. Whatever `arc_ok` answers: a run that succeeds is the run
/// in which every arc is found round, and so is one that fails for an
/// unknown command; a run that fails for an arc fails at the line of an arc
/// that `arc_ok` has refused, after lines whose arcs it has found round.
pub fn run<F: Fn(&InterpreterMotion) -> bool>(program: &[GcodeLine], arc_ok: F) -> (result: Result<
    Vec<InterpreterMotion>,
    InterpreterError,
>)
    requires
        forall|m: &InterpreterMotion| is_arc(m@.motion_type) ==> call_requires(arc_ok, (m,)),
    ensures
        forall|rounds: spec_fn(MotionView) -> bool| #[trigger]
            answers(arc_ok, rounds) ==> run_view(result) == run_spec(
                lines_view(program@),
                rounds,
            ),
        match result {
            Ok(_) => run_view(result) == run_spec(lines_view(program@), every_arc()),
            Err(e) => match e.reason {
                InterpreterErrorReason::UnknownCommand => run_view(result) == run_spec(
                    lines_view(program@),
                    every_arc(),
                ),
                InterpreterErrorReason::BadArc => refused_at(
                    arc_ok,
                    lines_view(program@),
                    e.line_number as int,
                ),
            },
        },
{
    let ghost lines = lines_view(program@);
    let mut motions: Vec<InterpreterMotion> = Vec::new();
    let mut machine = Machine::new();
    let mut line_num: usize = 0;
    proof {
        assert(motions_view(motions@) =~= Seq::empty());
    }
    while line_num < program.len()
        invariant
            0 <= line_num <= program.len(),
            lines == lines_view(program@),
            forall|m: &InterpreterMotion| is_arc(m@.motion_type) ==> call_requires(arc_ok, (m,)),
            forall|rounds: spec_fn(MotionView) -> bool| #[trigger]
                answers(arc_ok, rounds) ==> progress(lines, rounds, line_num as nat) == Some(
                    (machine@, motions_view(motions@)),
                ),
            progress(lines, every_arc(), line_num as nat) == Some(
                (machine@, motions_view(motions@)),
            ),
        decreases program.len() - line_num,
    {
        let ghost done = motions_view(motions@);
        let ghost at = line_num as nat;
        proof {
            assert(lines[line_num as int] == program[line_num as int]@);
            lemma_progress_stop(lines, every_arc(), at);
        }
        match machine.step(&program[line_num]) {
            Step::End => {
                // End of program
                proof {
                    assert forall|rounds: spec_fn(MotionView) -> bool| #[trigger]
                        answers(arc_ok, rounds) implies run_spec(lines, rounds) == Ok::<
                        Seq<MotionView>,
                        InterpreterErrorView,
                    >(done) by {
                        lemma_progress_stop(lines, rounds, at);
                    }
                }
                return Ok(motions);
            },
            Step::Unknown => {
                let error = InterpreterError::new(
                    InterpreterErrorReason::UnknownCommand,
                    line_num + 1,
                );
                proof {
                    assert forall|rounds: spec_fn(MotionView) -> bool| #[trigger]
                        answers(arc_ok, rounds) implies run_spec(lines, rounds) == Err::<
                        Seq<MotionView>,
                        InterpreterErrorView,
                    >(error@) by {
                        lemma_progress_stop(lines, rounds, at);
                    }
                }
                return Err(error);
            },
            Step::Next(None) => {},
            Step::Next(Some(resolved)) => {
                let ghost motion = resolved@;
                let arc = match resolved.motion_type {
                    MotionType::ClockwiseArc => true,
                    MotionType::CounterClockwiseArc => true,
                    _ => false,
                };
                let kept = if arc {
                    let round = arc_ok(&resolved);
                    proof {
                        if !round {
                            assert forall|rounds: spec_fn(MotionView) -> bool| #[trigger]
                                answers(arc_ok, rounds) implies run_spec(lines, rounds) == Err::<
                                Seq<MotionView>,
                                InterpreterErrorView,
                            >(
                                InterpreterErrorView {
                                    reason: InterpreterErrorReason::BadArc,
                                    line_number: at + 1,
                                },
                            ) by {
                                lemma_progress_stop(lines, rounds, at);
                            }
                            // With every arc found round, the run comes past this line.
                            assert(progress(lines, every_arc(), at + 1) == Some(
                                (machine@, done.push(motion)),
                            ));
                            lemma_progress_lines(lines, every_arc(), at + 1);
                            assert(refused_at(arc_ok, lines, line_num + 1)) by {
                                assert(call_ensures(arc_ok, (&resolved,), false));
                            }
                        }
                    }
                    judge_arc(resolved, round, line_num + 1)?
                } else {
                    resolved
                };
                motions.push(kept);
                proof {
                    assert(motions_view(motions@) =~= done.push(motion));
                }
            },
        }
        line_num = line_num + 1;
    }
    proof {
        assert(lines.take(lines.len() as int) =~= lines);
        lemma_progress_lines(lines, every_arc(), lines.len());
        assert forall|rounds: spec_fn(MotionView) -> bool| #[trigger]
            answers(arc_ok, rounds) implies run_spec(lines, rounds) == Ok::<
            Seq<MotionView>,
            InterpreterErrorView,
        >(motions_view(motions@)) by {
            lemma_progress_lines(lines, rounds, lines.len());
        }
    }
    Ok(motions)
}

} // verus!
