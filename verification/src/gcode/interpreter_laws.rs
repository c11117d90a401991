//! What holds of every run.

use vstd::prelude::*;
use crate::gcode::interpreter::{
    command_of, initial_machine, is_arc, line_outcome, run_from, run_spec, scan, seeded, Command,
    InterpreterErrorReason, InterpreterErrorView, LineOutcome, MachineView, MotionType,
    MotionView, Scan, Staged,
};
use crate::gcode::parser::WordView;

verus! {

/// The command that ends the reading of a line: its first M2 or unknown
/// command, if it has one.
pub open spec fn stop_of(words: Seq<WordView>) -> Option<Command>
    decreases words.len(),
{
    if words.len() == 0 {
        None
    } else {
        match command_of(words[0]) {
            Some(Command::End) => Some(Command::End),
            Some(Command::Unknown) => Some(Command::Unknown),
            _ => stop_of(words.drop_first()),
        }
    }
}

/// Whether a line ends or fails the run rests on its words alone, not on
/// the machine that it meets.
pub proof fn lemma_scan_stops(staged: Staged, words: Seq<WordView>)
    ensures
        scan(staged, words) is End <==> stop_of(words) == Some(Command::End),
        scan(staged, words) is Unknown <==> stop_of(words) == Some(Command::Unknown),
        scan(staged, words) is Done <==> stop_of(words) is None,
        stop_of(words) is Some ==> words.len() > 0,
    decreases words.len(),
{
    if words.len() > 0 {
        let rest = words.drop_first();
        match command_of(words[0]) {
            Some(Command::End) => {},
            Some(Command::Unknown) => {},
            Some(Command::Move(kind)) => {
                lemma_scan_stops(Staged { motion: kind, ..staged }, rest);
            },
            Some(Command::Measure(mode)) => {
                lemma_scan_stops(Staged { distance: mode, ..staged }, rest);
            },
            Some(Command::MachineCoordinates) => {
                lemma_scan_stops(Staged { machine_coordinates: true, ..staged }, rest);
            },
            Some(Command::Ignored) => {
                lemma_scan_stops(staged, rest);
            },
            None => {
                lemma_scan_stops(
                    Staged {
                        delta: staged.delta.insert(words[0].letter, words[0].number),
                        ..staged
                    },
                    rest,
                );
            },
        }
    }
}

proof fn lemma_line_stops(machine: MachineView, line: Seq<WordView>)
    ensures
        line_outcome(machine, line) is End <==> stop_of(line) == Some(Command::End),
        line_outcome(machine, line) is Unknown <==> stop_of(line) == Some(Command::Unknown),
{
    let start = Staged {
        motion: machine.motion,
        distance: machine.distance,
        machine_coordinates: false,
        delta: Map::empty(),
    };
    lemma_scan_stops(start, line);
}

proof fn lemma_end_from(
    machine: MachineView,
    program: Seq<Seq<WordView>>,
    at: int,
    n: int,
    rounds: spec_fn(MotionView) -> bool,
)
    requires
        0 <= at <= n < program.len(),
        stop_of(program[n]) == Some(Command::End),
    ensures
        run_from(machine, program, at, rounds) == run_from(machine, program.take(n), at, rounds),
    decreases n - at,
{
    if at == n {
        lemma_line_stops(machine, program[n]);
    } else {
        assert(program.take(n)[at] == program[at]);
        match line_outcome(machine, program[at]) {
            LineOutcome::Next { machine: next, motion } => {
                lemma_end_from(next, program, at + 1, n, rounds);
            },
            _ => {},
        }
    }
}

/// M2 ends the program: a run that holds M2 on a line is the run of the
/// lines before that line. What stands behind M2 on its line and what
/// follows the line never shows; nothing of what the lines before it
/// resolved into is lost.
pub proof fn lemma_end_of_program(
    program: Seq<Seq<WordView>>,
    n: int,
    rounds: spec_fn(MotionView) -> bool,
)
    requires
        0 <= n < program.len(),
        stop_of(program[n]) == Some(Command::End),
    ensures
        run_spec(program, rounds) == run_spec(program.take(n), rounds),
{
    lemma_end_from(initial_machine(), program, 0, n, rounds);
}

proof fn lemma_failure_from(
    machine: MachineView,
    program: Seq<Seq<WordView>>,
    at: int,
    k: int,
    rounds: spec_fn(MotionView) -> bool,
)
    requires
        0 <= at,
        0 <= k <= program.len(),
        run_from(machine, program.take(k), at, rounds) is Err,
    ensures
        run_from(machine, program, at, rounds) == run_from(machine, program.take(k), at, rounds),
    decreases k - at,
{
    if at < k {
        assert(program.take(k)[at] == program[at]);
        match line_outcome(machine, program[at]) {
            LineOutcome::Next { machine: next, motion } => {
                if !(motion matches Some(m) && is_arc(m.motion_type) && !rounds(m)) {
                    lemma_failure_from(next, program, at + 1, k, rounds);
                }
            },
            _ => {},
        }
    }
}

/// A failure is final: where the first lines of a program fail, the
/// program fails alike, whatever follows them.
pub proof fn lemma_failure_persists(
    program: Seq<Seq<WordView>>,
    k: int,
    rounds: spec_fn(MotionView) -> bool,
)
    requires
        0 <= k <= program.len(),
        run_spec(program.take(k), rounds) is Err,
    ensures
        run_spec(program, rounds) == run_spec(program.take(k), rounds),
{
    lemma_failure_from(initial_machine(), program, 0, k, rounds);
}

proof fn lemma_unknown_from(
    machine: MachineView,
    program: Seq<Seq<WordView>>,
    at: int,
    n: int,
    rounds: spec_fn(MotionView) -> bool,
)
    requires
        0 <= at <= n < program.len(),
        forall|j: int| at <= j < n ==> stop_of(#[trigger] program[j]) is None,
        stop_of(program[n]) == Some(Command::Unknown),
        run_from(machine, program.take(n), at, rounds) is Ok,
    ensures
        run_from(machine, program, at, rounds) == Err::<Seq<MotionView>, InterpreterErrorView>(
            InterpreterErrorView {
                reason: InterpreterErrorReason::UnknownCommand,
                line_number: (n + 1) as nat,
            },
        ),
    decreases n - at,
{
    lemma_line_stops(machine, program[at]);
    if at < n {
        assert(program.take(n)[at] == program[at]);
        match line_outcome(machine, program[at]) {
            LineOutcome::Next { machine: next, motion } => {
                lemma_unknown_from(next, program, at + 1, n, rounds);
            },
            _ => {},
        }
    }
}

/// An unknown command fails the run with the number of its line, if the
/// run comes that far: if no line before it ends the program, and the
/// lines before it do not fail.
pub proof fn lemma_unknown_command(
    program: Seq<Seq<WordView>>,
    n: int,
    rounds: spec_fn(MotionView) -> bool,
)
    requires
        0 <= n < program.len(),
        forall|j: int| 0 <= j < n ==> stop_of(#[trigger] program[j]) is None,
        stop_of(program[n]) == Some(Command::Unknown),
        run_spec(program.take(n), rounds) is Ok,
    ensures
        run_spec(program, rounds) == Err::<Seq<MotionView>, InterpreterErrorView>(
            InterpreterErrorView {
                reason: InterpreterErrorReason::UnknownCommand,
                line_number: (n + 1) as nat,
            },
        ),
{
    lemma_unknown_from(initial_machine(), program, 0, n, rounds);
}

/// The letters that a motion reads keep a value: they have one before the
/// first line, and no line takes one away.
pub proof fn lemma_seeded(machine: MachineView, line: Seq<WordView>)
    ensures
        seeded(initial_machine().values),
        seeded(machine.values) ==> (line_outcome(machine, line) matches LineOutcome::Next {
            machine: next,
            ..
        } ==> seeded(next.values)),
{
}

/// In machine coordinates a line moves nothing and sets no value.
pub proof fn lemma_machine_coordinates(machine: MachineView, line: Seq<WordView>)
    requires
        line.len() > 0,
        scan(
            Staged {
                motion: machine.motion,
                distance: machine.distance,
                machine_coordinates: false,
                delta: Map::empty(),
            },
            line,
        ) matches Scan::Done(staged) && staged.machine_coordinates,
    ensures
        line_outcome(machine, line) matches LineOutcome::Next { machine: next, motion }
            && motion is None && next.values == machine.values,
{
}

proof fn lemma_motions_from(
    machine: MachineView,
    program: Seq<Seq<WordView>>,
    at: int,
    rounds: spec_fn(MotionView) -> bool,
)
    requires
        0 <= at <= program.len(),
    ensures
        run_from(machine, program, at, rounds) matches Ok(motions) ==> {
            &&& motions.len() <= program.len() - at
            &&& forall|i: int|
                0 <= i < motions.len() ==> {
                    &&& (#[trigger] motions[i]).feed is None <==> motions[i].motion_type
                        == MotionType::Rapid
                    &&& is_arc(motions[i].motion_type) ==> rounds(motions[i])
                }
        },
    decreases program.len() - at,
{
    if at < program.len() {
        match line_outcome(machine, program[at]) {
            LineOutcome::Next { machine: next, motion } => {
                lemma_motions_from(next, program, at + 1, rounds);
            },
            _ => {},
        }
    }
}

/// Of the motions of a run: no line gives more than one; a motion has a
/// feed rate unless it is rapid; and the radii of each arc agree.
pub proof fn lemma_motions(program: Seq<Seq<WordView>>, rounds: spec_fn(MotionView) -> bool)
    ensures
        run_spec(program, rounds) matches Ok(motions) ==> {
            &&& motions.len() <= program.len()
            &&& forall|i: int|
                0 <= i < motions.len() ==> {
                    &&& (#[trigger] motions[i]).feed is None <==> motions[i].motion_type
                        == MotionType::Rapid
                    &&& is_arc(motions[i].motion_type) ==> rounds(motions[i])
                }
        },
{
    lemma_motions_from(initial_machine(), program, 0, rounds);
}

proof fn lemma_failure_line_from(
    machine: MachineView,
    program: Seq<Seq<WordView>>,
    at: int,
    rounds: spec_fn(MotionView) -> bool,
)
    requires
        0 <= at <= program.len(),
    ensures
        run_from(machine, program, at, rounds) matches Err(e) ==> {
            &&& at < e.line_number <= program.len()
            &&& run_from(machine, program.take(e.line_number as int), at, rounds) == Err::<
                Seq<MotionView>,
                InterpreterErrorView,
            >(e)
            &&& run_from(machine, program.take(e.line_number - 1), at, rounds) is Ok
        },
    decreases program.len() - at,
{
    if at < program.len() {
        match run_from(machine, program, at, rounds) {
            Ok(motions) => {},
            Err(e) => {
                match line_outcome(machine, program[at]) {
                    LineOutcome::Next { machine: next, motion } => {
                        if !(motion matches Some(m) && is_arc(m.motion_type) && !rounds(m)) {
                            lemma_failure_line_from(next, program, at + 1, rounds);
                            assert(program.take(e.line_number as int)[at] == program[at]);
                            assert(program.take(e.line_number - 1)[at] == program[at]);
                        } else {
                            assert(program.take(at + 1)[at] == program[at]);
                        }
                    },
                    LineOutcome::Unknown => {
                        assert(program.take(at + 1)[at] == program[at]);
                    },
                    LineOutcome::End => {},
                }
            },
        }
    }
}

/// A failure names the line that causes it: the lines before that line
/// run without failure, and with that line they fail as the program does.
pub proof fn lemma_failure_line(program: Seq<Seq<WordView>>, rounds: spec_fn(MotionView) -> bool)
    ensures
        run_spec(program, rounds) matches Err(e) ==> {
            &&& 1 <= e.line_number <= program.len()
            &&& run_spec(program.take(e.line_number as int), rounds) == Err::<
                Seq<MotionView>,
                InterpreterErrorView,
            >(e)
            &&& run_spec(program.take(e.line_number - 1), rounds) is Ok
        },
{
    lemma_failure_line_from(initial_machine(), program, 0, rounds);
}

} // verus!
