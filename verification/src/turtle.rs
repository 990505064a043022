//! The turtle interpreter: a stack machine that walks a symbol sequence and
//! emits line segments and leaf markers.

use crate::lattice::{lemma_opposite_turns_cancel, Heading, Point};
use vstd::prelude::*;

verus! {

/// What a symbol makes the turtle do.
#[derive(Clone, Copy, Debug, PartialEq, Eq, Structural)]
pub enum Action {
    /// Move along the heading by the step length and draw a segment.
    Forward,
    /// Turn to the left by the turn angle.
    TurnLeft,
    /// Turn to the right by the turn angle.
    TurnRight,
    /// Save position and heading.
    Push,
    /// Mark a leaf, then go back to the position and heading saved last.
    Pop,
    /// Do nothing: a symbol that only the grammar uses.
    Noop,
}

/// Why an interpretation stopped. `index` is the place in the sequence of the
/// symbol that could not be carried out.
#[derive(Clone, Copy, Debug, PartialEq, Eq, Structural)]
pub enum TurtleError {
    /// The symbol is not part of the alphabet.
    UnexpectedSymbol { index: usize, symbol: char },
    /// A branch was closed that had not been opened.
    StackUnderflow { index: usize },
    /// The step leads to a position whose coordinates cannot be held.
    OutOfRange { index: usize },
}

/// How a turtle moves: how far a forward step leads, in steps of the
/// lattice, and by how many eighths of a full turn a turning symbol turns.
#[derive(Clone, Copy, Debug, PartialEq, Eq, Structural)]
pub struct Gait {
    pub step_length: u32,
    pub turn_angle: u8,
}

/// A saved turtle state.
#[derive(Clone, Copy, Debug, PartialEq, Eq, Structural)]
pub struct Frame {
    pub position: Point,
    pub heading: Heading,
}

/// A line segment, from where the turtle stood to where it moved.
#[derive(Clone, Copy, Debug, PartialEq, Eq, Structural)]
pub struct Segment {
    pub start: Point,
    pub end: Point,
}

/// What an interpretation emits, in the order of the symbols that caused it.
#[derive(Debug, PartialEq, Eq)]
pub struct Drawing {
    pub segments: Vec<Segment>,
    pub leaves: Vec<Point>,
}

/// The state of an interpretation: where the turtle is, the saved states, and
/// what has been emitted so far.
pub struct Trace {
    pub position: Point,
    pub heading: Heading,
    pub stack: Seq<Frame>,
    pub segments: Seq<Segment>,
    pub leaves: Seq<Point>,
}

/// The action that a symbol stands for, if it belongs to the alphabet.
pub open spec fn action_of(symbol: char) -> Option<Action> {
    if symbol == 'F' {
        Some(Action::Forward)
    } else if symbol == '-' {
        Some(Action::TurnLeft)
    } else if symbol == '+' {
        Some(Action::TurnRight)
    } else if symbol == '[' {
        Some(Action::Push)
    } else if symbol == ']' {
        Some(Action::Pop)
    } else if symbol == 'X' {
        Some(Action::Noop)
    } else {
        None
    }
}

/// The state before the first symbol.
pub open spec fn initial(start: Point, heading: Heading) -> Trace {
    Trace {
        position: start,
        heading,
        stack: Seq::empty(),
        segments: Seq::empty(),
        leaves: Seq::empty(),
    }
}

/// The state after `action`, carried out for the symbol at `index`.
pub open spec fn perform(trace: Trace, gait: Gait, action: Action, index: int) -> Result<
    Trace,
    TurtleError,
> {
    match action {
        Action::Forward => if trace.position.can_step(trace.heading, gait.step_length as int) {
            let end = trace.position.stepped(trace.heading, gait.step_length as int);
            Ok(
                Trace {
                    position: end,
                    segments: trace.segments.push(Segment { start: trace.position, end }),
                    ..trace
                },
            )
        } else {
            Err(TurtleError::OutOfRange { index: index as usize })
        },
        Action::TurnLeft => Ok(
            Trace { heading: trace.heading.turned(gait.turn_angle as int), ..trace },
        ),
        Action::TurnRight => Ok(
            Trace { heading: trace.heading.turned(-(gait.turn_angle as int)), ..trace },
        ),
        Action::Push => Ok(
            Trace {
                stack: trace.stack.push(
                    Frame { position: trace.position, heading: trace.heading },
                ),
                ..trace
            },
        ),
        Action::Pop => if trace.stack.len() > 0 {
            Ok(
                Trace {
                    position: trace.stack.last().position,
                    heading: trace.stack.last().heading,
                    stack: trace.stack.drop_last(),
                    leaves: trace.leaves.push(trace.position),
                    ..trace
                },
            )
        } else {
            Err(TurtleError::StackUnderflow { index: index as usize })
        },
        Action::Noop => Ok(trace),
    }
}

/// The state after the symbol at `index`.
pub open spec fn feed(trace: Trace, gait: Gait, symbol: char, index: int) -> Result<
    Trace,
    TurtleError,
> {
    match action_of(symbol) {
        Some(action) => perform(trace, gait, action, index),
        None => Err(TurtleError::UnexpectedSymbol { index: index as usize, symbol }),
    }
}

/// The state after the whole sequence, or the first failure on the way.
pub open spec fn run(sequence: Seq<char>, start: Point, heading: Heading, gait: Gait) -> Result<
    Trace,
    TurtleError,
>
    decreases sequence.len(),
{
    if sequence.len() == 0 {
        Ok(initial(start, heading))
    } else {
        match run(sequence.drop_last(), start, heading, gait) {
            Ok(trace) => feed(trace, gait, sequence.last(), sequence.len() - 1),
            Err(error) => Err(error),
        }
    }
}

/// Whether `outcome` is what interpreting `sequence` gives: the segments and
/// leaves of the run, or its failure.
pub open spec fn drawn(
    sequence: Seq<char>,
    start_pos: Point,
    start_dir: Heading,
    step_length: u32,
    turn_angle: u8,
    outcome: Result<Drawing, TurtleError>,
) -> bool {
    match run(sequence, start_pos, start_dir, Gait { step_length, turn_angle }) {
        Ok(trace) => outcome is Ok && outcome->Ok_0.segments@ == trace.segments
            && outcome->Ok_0.leaves@ == trace.leaves,
        Err(error) => outcome == Err::<Drawing, TurtleError>(error),
    }
}

/// The action that a symbol stands for: `F` forward, `-` left, `+` right,
/// `[` push, `]` pop, `X` nothing. `None` for any other symbol.
pub fn classify(symbol: char) -> (action: Option<Action>)
    ensures
        action == action_of(symbol),
{
    if symbol == 'F' {
        Some(Action::Forward)
    } else if symbol == '-' {
        Some(Action::TurnLeft)
    } else if symbol == '+' {
        Some(Action::TurnRight)
    } else if symbol == '[' {
        Some(Action::Push)
    } else if symbol == ']' {
        Some(Action::Pop)
    } else if symbol == 'X' {
        Some(Action::Noop)
    } else {
        None
    }
}

/// A turtle at work: its position and heading, the states it has saved, and
/// what it has drawn.
pub struct Turtle {
    pub position: Point,
    pub heading: Heading,
    pub stack: Vec<Frame>,
    pub drawing: Drawing,
}

impl View for Turtle {
    type V = Trace;

    open spec fn view(&self) -> Trace {
        Trace {
            position: self.position,
            heading: self.heading,
            stack: self.stack@,
            segments: self.drawing.segments@,
            leaves: self.drawing.leaves@,
        }
    }
}

impl Turtle {
    /// A turtle at `start` that looks along `heading` and has neither saved
    /// nor drawn anything.
    pub fn new(start: Point, heading: Heading) -> (turtle: Turtle)
        ensures
            turtle@ == initial(start, heading),
    {
        Turtle {
            position: start,
            heading,
            stack: Vec::new(),
            drawing: Drawing { segments: Vec::new(), leaves: Vec::new() },
        }
    }

    /// Carries out `action` for the symbol at `index`. On failure the turtle
    /// stays as it was.
    pub fn perform(&mut self, gait: Gait, action: Action, index: usize) -> (outcome: Result<
        (),
        TurtleError,
    >)
        ensures
            match perform(old(self)@, gait, action, index as int) {
                Ok(trace) => outcome is Ok && final(self)@ == trace,
                Err(error) => outcome == Err::<(), TurtleError>(error) && final(self)@ == old(
                    self,
                )@,
            },
    {
        match action {
            Action::Forward => {
                match self.position.step(self.heading, gait.step_length) {
                    Some(end) => {
                        self.drawing.segments.push(Segment { start: self.position, end });
                        self.position = end;
                        Ok(())
                    },
                    None => Err(TurtleError::OutOfRange { index }),
                }
            },
            Action::TurnLeft => {
                self.heading = self.heading.turn_left(gait.turn_angle);
                Ok(())
            },
            Action::TurnRight => {
                self.heading = self.heading.turn_right(gait.turn_angle);
                Ok(())
            },
            Action::Push => {
                self.stack.push(Frame { position: self.position, heading: self.heading });
                Ok(())
            },
            Action::Pop => {
                match self.stack.pop() {
                    Some(frame) => {
                        self.drawing.leaves.push(self.position);
                        self.position = frame.position;
                        self.heading = frame.heading;
                        Ok(())
                    },
                    None => Err(TurtleError::StackUnderflow { index }),
                }
            },
            Action::Noop => Ok(()),
        }
    }
}

/// Walks `sequence` from `start_pos`, looking along `start_dir` at first.
///
/// `F` moves by `step_length` steps and draws a segment, `-` and `+` turn to
/// the left and to the right by `turn_angle` eighths of a full turn, `[` saves
/// position and heading, `]` marks a leaf where the turtle stands and returns
/// to the state saved last, `X` does nothing. Segments and leaves come out in
/// the order of their symbols. The first symbol that cannot be carried out
/// ends the walk with its error.
pub fn interpret(
    sequence: &Vec<char>,
    start_pos: Point,
    start_dir: Heading,
    step_length: u32,
    turn_angle: u8,
) -> (outcome: Result<Drawing, TurtleError>)
    ensures
        drawn(sequence@, start_pos, start_dir, step_length, turn_angle, outcome),
{
    let gait = Gait { step_length, turn_angle };
    let mut turtle = Turtle::new(start_pos, start_dir);
    let mut i: usize = 0;
    while i < sequence.len()
        invariant
            i <= sequence.len(),
            gait == (Gait { step_length, turn_angle }),
            run(sequence@.take(i as int), start_pos, start_dir, gait) == Ok::<Trace, TurtleError>(
                turtle@,
            ),
        decreases sequence.len() - i,
    {
        let symbol = sequence[i];
        proof {
            assert(sequence@.take(i + 1).drop_last() == sequence@.take(i as int));
            assert(sequence@.take(i + 1).last() == symbol);
            lemma_failure_stays(sequence@, i + 1, start_pos, start_dir, gait);
        }
        match classify(symbol) {
            Some(action) => {
                match turtle.perform(gait, action, i) {
                    Ok(()) => {},
                    Err(error) => {
                        return Err(error);
                    },
                }
            },
            None => {
                return Err(TurtleError::UnexpectedSymbol { index: i, symbol });
            },
        }
        i += 1;
    }
    assert(sequence@.take(i as int) == sequence@);
    Ok(turtle.drawing)
}

/// A walk that has failed after `count` symbols fails in the same way on the
/// whole sequence.
proof fn lemma_failure_stays(
    sequence: Seq<char>,
    count: int,
    start: Point,
    heading: Heading,
    gait: Gait,
)
    requires
        0 <= count <= sequence.len(),
    ensures
        run(sequence.take(count), start, heading, gait) is Err ==> run(
            sequence,
            start,
            heading,
            gait,
        ) == run(sequence.take(count), start, heading, gait),
    decreases sequence.len(),
{
    if count < sequence.len() {
        assert(sequence.drop_last().take(count) == sequence.take(count));
        lemma_failure_stays(sequence.drop_last(), count, start, heading, gait);
    } else {
        assert(sequence.take(count) == sequence);
    }
}

/// The interpreter is deterministic: for one sequence, start, heading, step
/// length and turn angle there is one outcome. Two outcomes that both are
/// what the interpreter gives for the same arguments fail with the same
/// error, or hold the same segments and the same leaves in the same order.
pub proof fn lemma_interpretation_is_determined(
    sequence: Seq<char>,
    start_pos: Point,
    start_dir: Heading,
    step_length: u32,
    turn_angle: u8,
    first: Result<Drawing, TurtleError>,
    second: Result<Drawing, TurtleError>,
)
    requires
        drawn(sequence, start_pos, start_dir, step_length, turn_angle, first),
        drawn(sequence, start_pos, start_dir, step_length, turn_angle, second),
    ensures
        first is Ok <==> second is Ok,
        first is Ok ==> first->Ok_0.segments@ == second->Ok_0.segments@ && first->Ok_0.leaves@
            == second->Ok_0.leaves@,
        first is Err ==> first->Err_0 == second->Err_0,
{
}

/// By how much a symbol changes the number of open branches.
pub open spec fn depth_change(symbol: char) -> int {
    if symbol == '[' {
        1
    } else if symbol == ']' {
        -1
    } else {
        0
    }
}

/// The number of `[` in the sequence less the number of `]`.
pub open spec fn depth(sequence: Seq<char>) -> int
    decreases sequence.len(),
{
    if sequence.len() == 0 {
        0
    } else {
        depth(sequence.drop_last()) + depth_change(sequence.last())
    }
}

/// Whether every `]` of the sequence closes a branch that a `[` before it has
/// opened: no beginning of the sequence holds more `]` than `[`.
pub open spec fn closes_only_opened(sequence: Seq<char>) -> bool {
    forall|count: int| 0 <= count <= sequence.len() ==> depth(#[trigger] sequence.take(count)) >= 0
}

/// Whether the brackets of the sequence are balanced: every `]` closes an
/// open branch, and no branch stays open.
pub open spec fn balanced(sequence: Seq<char>) -> bool {
    closes_only_opened(sequence) && depth(sequence) == 0
}

/// After a walk that succeeded, the stack holds one saved state for each
/// branch that is still open, and no `]` on the way closed an unopened one.
pub proof fn lemma_stack_follows_depth(
    sequence: Seq<char>,
    start: Point,
    heading: Heading,
    gait: Gait,
)
    requires
        run(sequence, start, heading, gait) is Ok,
    ensures
        run(sequence, start, heading, gait)->Ok_0.stack.len() == depth(sequence),
        closes_only_opened(sequence),
    decreases sequence.len(),
{
    if sequence.len() > 0 {
        let front = sequence.drop_last();
        lemma_stack_follows_depth(front, start, heading, gait);
        assert forall|count: int| 0 <= count <= sequence.len() implies depth(
            #[trigger] sequence.take(count),
        ) >= 0 by {
            if count < sequence.len() {
                assert(sequence.take(count) == front.take(count));
            } else {
                assert(sequence.take(count) == sequence);
            }
        }
    } else {
        assert forall|count: int| 0 <= count <= sequence.len() implies depth(
            #[trigger] sequence.take(count),
        ) >= 0 by {
            assert(sequence.take(count) == sequence);
        }
    }
}

/// Stack discipline, first half: where every `]` closes an open branch, and
/// so in every balanced sequence, the walk never fails for want of a saved
/// state.
pub proof fn lemma_balanced_never_underflows(
    sequence: Seq<char>,
    start: Point,
    heading: Heading,
    gait: Gait,
)
    requires
        closes_only_opened(sequence),
    ensures
        !(run(sequence, start, heading, gait) matches Err(TurtleError::StackUnderflow { .. })),
    decreases sequence.len(),
{
    if sequence.len() > 0 {
        let front = sequence.drop_last();
        assert forall|count: int| 0 <= count <= front.len() implies depth(
            #[trigger] front.take(count),
        ) >= 0 by {
            assert(front.take(count) == sequence.take(count));
        }
        lemma_balanced_never_underflows(front, start, heading, gait);
        if run(front, start, heading, gait) is Ok {
            lemma_stack_follows_depth(front, start, heading, gait);
            assert(sequence.take(sequence.len() as int) == sequence);
        }
    }
}

/// Stack discipline, second half: a sequence with more `]` than `[`, or with
/// a `]` anywhere that closes an unopened branch, does not yield a drawing:
/// the walk fails.
pub proof fn lemma_unbalanced_fails(
    sequence: Seq<char>,
    start: Point,
    heading: Heading,
    gait: Gait,
)
    requires
        depth(sequence) < 0 || !closes_only_opened(sequence),
    ensures
        run(sequence, start, heading, gait) is Err,
{
    if run(sequence, start, heading, gait) is Ok {
        lemma_stack_follows_depth(sequence, start, heading, gait);
    }
}

/// Rotation composition: `-` followed by `+`, or `+` followed by `-`, leaves
/// the turtle exactly as it was, heading included.
pub proof fn lemma_turn_symbols_cancel(trace: Trace, gait: Gait, first: int, second: int)
    ensures
        feed(trace, gait, '-', first) is Ok,
        feed(feed(trace, gait, '-', first)->Ok_0, gait, '+', second) == Ok::<Trace, TurtleError>(
            trace,
        ),
        feed(trace, gait, '+', first) is Ok,
        feed(feed(trace, gait, '+', first)->Ok_0, gait, '-', second) == Ok::<Trace, TurtleError>(
            trace,
        ),
{
    lemma_opposite_turns_cancel(trace.heading, gait.turn_angle as int);
}

} // verus!
