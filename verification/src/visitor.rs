//! Following a game and its variations, one event at a time.
//!
//! A reader of game records reports what it meets as events: a game begins,
//! a move, a variation opens or closes, a comment, the game ends. The visitor
//! keeps the position that the moves so far lead to and the one before it,
//! and for each open variation the pair it has to go back to.

use crate::parser::{parse_annotations, scan, Diagnostic};
use crate::position::{board_of, placement, resolve, san_successor, sound, standard_start};
use crate::shape::Shape;
use shakmaty::{Board, Chess};
use vstd::prelude::*;

verus! {

/// What the visitor gathers.
#[derive(Clone, Copy, Debug, PartialEq, Eq, Structural)]
pub enum Mode {
    /// A training position for each comment that carries shapes.
    AnnotationCollection,
    /// The positions of the main line, one after the other.
    FlatReplay,
}

/// What a reader of game records reports.
#[derive(Clone, Debug, PartialEq, Eq)]
pub enum Event {
    BeginGame,
    Move(Vec<u8>),
    BeginVariation,
    EndVariation,
    Comment(Vec<u8>),
    EndGame,
}

/// A fault in the order of the events themselves. It ends the game it occurs
/// in: the events that follow, up to the next game, change nothing.
#[derive(Clone, Copy, Debug, PartialEq, Eq, Structural)]
pub enum StructuralError {
    /// A variation closes that was never opened.
    UnmatchedEndVariation,
    /// A variation opens before the game's first move.
    VariationBeforeFirstMove,
}

/// The pair of positions that a variation returns to when it closes.
#[derive(Clone, Debug)]
pub struct VariationFrame {
    pub saved_current: Chess,
    pub saved_previous: Chess,
}

/// A board together with the shapes that a comment drew on it.
#[derive(Clone, Debug)]
pub struct TrainingPosition {
    pub annotations: Vec<Shape>,
    pub board: Board,
}

/// A training position as contracts see it.
pub ghost struct Training {
    pub annotations: Seq<Shape>,
    pub board: Board,
}

impl DeepView for TrainingPosition {
    type V = Training;

    open spec fn deep_view(&self) -> Training {
        Training { annotations: self.annotations@, board: self.board }
    }
}

/// The state of a visitor as contracts see it.
pub ghost struct TreeState {
    pub mode: Mode,
    /// The position every game starts from.
    pub start: Chess,
    pub current: Chess,
    pub previous: Chess,
    /// Whether a move has been played since the game began.
    pub moved: bool,
    /// The open variations, the innermost last.
    pub stack: Seq<VariationFrame>,
    /// The fault that ended the game, if one did.
    pub failure: Option<StructuralError>,
    pub positions: Seq<Training>,
    pub line: Seq<Chess>,
}

/// Follows the events of a game record.
pub struct GameTreeVisitor {
    mode: Mode,
    start: Chess,
    current: Chess,
    previous: Chess,
    moved: bool,
    stack: Vec<VariationFrame>,
    failure: Option<StructuralError>,
    positions: Vec<TrainingPosition>,
    line: Vec<Chess>,
}

impl TreeState {
    /// The state before any game.
    pub open spec fn idle(start: Chess, mode: Mode) -> TreeState {
        TreeState {
            mode,
            start,
            current: start,
            previous: start,
            moved: false,
            stack: seq![],
            failure: None,
            positions: seq![],
            line: seq![],
        }
    }

    /// The state at the beginning of a game. A replay opens with the
    /// starting position.
    pub open spec fn opened(start: Chess, mode: Mode) -> TreeState {
        TreeState {
            line: if mode == Mode::FlatReplay {
                seq![start]
            } else {
                seq![]
            },
            ..TreeState::idle(start, mode)
        }
    }

    /// After a move that leads to `reached`. One that leads nowhere changes
    /// nothing. A replay records the new position unless a variation is
    /// open.
    pub open spec fn moved_to(self, reached: Option<Chess>) -> TreeState {
        match reached {
            None => self,
            Some(next) => TreeState {
                previous: self.current,
                current: next,
                moved: true,
                line: if self.mode == Mode::FlatReplay && self.stack.len() == 0 {
                    self.line.push(next)
                } else {
                    self.line
                },
                ..self
            },
        }
    }

    /// After a move in standard algebraic notation: it leads to where the
    /// notation leads from the current position.
    pub open spec fn moved_by(self, token: Seq<u8>) -> TreeState {
        self.moved_to(san_successor(self.current, token))
    }

    /// After a variation has opened: it starts from the position before the
    /// move that it replaces.
    pub open spec fn branched(self) -> TreeState {
        if self.moved {
            TreeState {
                stack: self.stack.push(
                    VariationFrame { saved_current: self.current, saved_previous: self.previous },
                ),
                current: self.previous,
                ..self
            }
        } else {
            TreeState { failure: Some(StructuralError::VariationBeforeFirstMove), ..self }
        }
    }

    /// After a variation has closed: both positions are as they were when it
    /// opened.
    pub open spec fn rejoined(self) -> TreeState {
        if self.stack.len() > 0 {
            TreeState {
                current: self.stack.last().saved_current,
                previous: self.stack.last().saved_previous,
                stack: self.stack.drop_last(),
                ..self
            }
        } else {
            TreeState { failure: Some(StructuralError::UnmatchedEndVariation), ..self }
        }
    }

    /// After a comment. Where shapes are collected and the comment carries
    /// some, they are recorded with the board of the current position.
    pub open spec fn commented(self, bytes: Seq<u8>) -> TreeState {
        if self.mode == Mode::AnnotationCollection && scan(bytes).shapes.len() > 0 {
            TreeState {
                positions: self.positions.push(
                    Training { annotations: scan(bytes).shapes, board: placement(self.current) },
                ),
                ..self
            }
        } else {
            self
        }
    }

    /// The state after one event.
    pub open spec fn step(self, event: Event) -> TreeState {
        match event {
            Event::BeginGame => TreeState::opened(self.start, self.mode),
            _ => if self.failure is Some {
                self
            } else {
                match event {
                    Event::Move(token) => self.moved_by(token@),
                    Event::BeginVariation => self.branched(),
                    Event::EndVariation => self.rejoined(),
                    Event::Comment(bytes) => self.commented(bytes@),
                    _ => self,
                }
            },
        }
    }

    /// What an event is answered with: the diagnostics it gave rise to, or
    /// the fault that has ended the game.
    pub open spec fn answer(self, event: Event) -> Result<Seq<Diagnostic>, StructuralError> {
        match event {
            Event::BeginGame => Ok(seq![]),
            _ => match self.failure {
                Some(fault) => Err(fault),
                None => match event {
                    Event::Move(token) => Ok(self.move_report(token@)),
                    Event::BeginVariation => if self.moved {
                        Ok(seq![])
                    } else {
                        Err(StructuralError::VariationBeforeFirstMove)
                    },
                    Event::EndVariation => if self.stack.len() > 0 {
                        Ok(seq![])
                    } else {
                        Err(StructuralError::UnmatchedEndVariation)
                    },
                    Event::Comment(bytes) => Ok(scan(bytes@).diagnostics),
                    _ => Ok(seq![]),
                },
            },
        }
    }

    /// The diagnostics of a move that leads to `reached`: one where it leads
    /// nowhere.
    pub open spec fn reach_report(reached: Option<Chess>) -> Seq<Diagnostic> {
        if reached is None {
            seq![Diagnostic::IllegalMove]
        } else {
            seq![]
        }
    }

    /// The diagnostics of a move: one where it cannot be played.
    pub open spec fn move_report(self, token: Seq<u8>) -> Seq<Diagnostic> {
        TreeState::reach_report(san_successor(self.current, token))
    }

    /// The state after a run of events.
    pub open spec fn run(self, events: Seq<Event>) -> TreeState
        decreases events.len(),
    {
        if events.len() == 0 {
            self
        } else {
            self.run(events.drop_last()).step(events.last())
        }
    }

    /// Every position that a move may be played from is one that has been
    /// reached by legal moves.
    spec fn playable(self) -> bool {
        &&& sound(self.start)
        &&& sound(self.current)
        &&& sound(self.previous)
        &&& forall|i: int|
            0 <= i < self.stack.len() ==> sound(#[trigger] self.stack[i].saved_current) && sound(
                self.stack[i].saved_previous,
            )
    }
}

/// Whether an executable answer is the answer `expected`.
pub open spec fn answered(
    given: Result<Vec<Diagnostic>, StructuralError>,
    expected: Result<Seq<Diagnostic>, StructuralError>,
) -> bool {
    match given {
        Ok(diagnostics) => expected == Ok::<Seq<Diagnostic>, StructuralError>(diagnostics@),
        Err(fault) => expected == Err::<Seq<Diagnostic>, StructuralError>(fault),
    }
}

impl View for GameTreeVisitor {
    type V = TreeState;

    closed spec fn view(&self) -> TreeState {
        TreeState {
            mode: self.mode,
            start: self.start,
            current: self.current,
            previous: self.previous,
            moved: self.moved,
            stack: self.stack@,
            failure: self.failure,
            positions: self.positions.deep_view(),
            line: self.line@,
        }
    }
}

impl GameTreeVisitor {
    #[verifier::type_invariant]
    spec fn playable(self) -> bool {
        self@.playable()
    }

    /// A visitor before any game, on the standard starting position.
    pub fn new(mode: Mode) -> (visitor: GameTreeVisitor)
        ensures
            visitor@ == TreeState::idle(visitor@.start, mode),
    {
        let start = standard_start();
        let current = start.clone();
        let previous = start.clone();
        let visitor = GameTreeVisitor {
            mode,
            start,
            current,
            previous,
            moved: false,
            stack: Vec::new(),
            failure: None,
            positions: Vec::new(),
            line: Vec::new(),
        };
        proof {
            assert(visitor.positions.deep_view() =~= Seq::<Training>::empty());
        }
        visitor
    }

    /// A game begins: both positions are the starting position again, no
    /// variation is open, and what the last game gathered is dropped.
    pub fn begin_game(&mut self)
        ensures
            final(self)@ == old(self)@.step(Event::BeginGame),
    {
        proof {
            use_type_invariant(&*self);
        }
        let current = self.start.clone();
        let previous = self.start.clone();
        let mut line: Vec<Chess> = Vec::new();
        if self.mode == Mode::FlatReplay {
            line.push(self.start.clone());
        }
        self.current = current;
        self.previous = previous;
        self.moved = false;
        self.stack = Vec::new();
        self.failure = None;
        self.positions = Vec::new();
        self.line = line;
        proof {
            assert(self.positions.deep_view() =~= Seq::<Training>::empty());
            assert(self.line@ =~= TreeState::opened(self.start, self.mode).line);
        }
    }

    /// A move, in standard algebraic notation.
    pub fn san(&mut self, token: &[u8]) -> (answer: Result<Vec<Diagnostic>, StructuralError>)
        ensures
            final(self)@ == (if old(self)@.failure is Some {
                old(self)@
            } else {
                old(self)@.moved_by(token@)
            }),
            answered(
                answer,
                match old(self)@.failure {
                    Some(fault) => Err(fault),
                    None => Ok(old(self)@.move_report(token@)),
                },
            ),
    {
        proof {
            use_type_invariant(&*self);
        }
        if let Some(fault) = self.failure {
            return Err(fault);
        }
        let reached = resolve(&self.current, token);
        self.advance(reached)
    }

    /// A move that has been resolved: `reached` is the position it leads to,
    /// or nothing where it cannot be played. The position has to be one that
    /// legal moves lead to.
    pub fn advance(&mut self, reached: Option<Chess>) -> (answer: Result<
        Vec<Diagnostic>,
        StructuralError,
    >)
        requires
            reached matches Some(position) ==> sound(position),
        ensures
            final(self)@ == (if old(self)@.failure is Some {
                old(self)@
            } else {
                old(self)@.moved_to(reached)
            }),
            answered(
                answer,
                match old(self)@.failure {
                    Some(fault) => Err(fault),
                    None => Ok(TreeState::reach_report(reached)),
                },
            ),
    {
        proof {
            use_type_invariant(&*self);
        }
        if let Some(fault) = self.failure {
            return Err(fault);
        }
        let mut diagnostics: Vec<Diagnostic> = Vec::new();
        match reached {
            None => {
                diagnostics.push(Diagnostic::IllegalMove);
            },
            Some(next) => {
                if self.mode == Mode::FlatReplay && self.stack.len() == 0 {
                    let mut line: Vec<Chess> = Vec::new();
                    std::mem::swap(&mut line, &mut self.line);
                    line.push(next.clone());
                    self.line = line;
                }
                self.previous = self.current.clone();
                self.current = next;
                self.moved = true;
            },
        }
        Ok(diagnostics)
    }

    /// A variation opens.
    pub fn begin_variation(&mut self) -> (answer: Result<Vec<Diagnostic>, StructuralError>)
        ensures
            final(self)@ == old(self)@.step(Event::BeginVariation),
            answered(answer, old(self)@.answer(Event::BeginVariation)),
    {
        proof {
            use_type_invariant(&*self);
        }
        if let Some(fault) = self.failure {
            return Err(fault);
        }
        if !self.moved {
            self.failure = Some(StructuralError::VariationBeforeFirstMove);
            return Err(StructuralError::VariationBeforeFirstMove);
        }
        let frame = VariationFrame {
            saved_current: self.current.clone(),
            saved_previous: self.previous.clone(),
        };
        let mut stack: Vec<VariationFrame> = Vec::new();
        std::mem::swap(&mut stack, &mut self.stack);
        stack.push(frame);
        self.stack = stack;
        self.current = self.previous.clone();
        Ok(Vec::new())
    }

    /// A variation closes.
    pub fn end_variation(&mut self) -> (answer: Result<Vec<Diagnostic>, StructuralError>)
        ensures
            final(self)@ == old(self)@.step(Event::EndVariation),
            answered(answer, old(self)@.answer(Event::EndVariation)),
    {
        proof {
            use_type_invariant(&*self);
        }
        if let Some(fault) = self.failure {
            return Err(fault);
        }
        let mut stack: Vec<VariationFrame> = Vec::new();
        std::mem::swap(&mut stack, &mut self.stack);
        match stack.pop() {
            None => {
                self.failure = Some(StructuralError::UnmatchedEndVariation);
                proof {
                    assert(self.stack@ =~= old(self).stack@);
                }
                Err(StructuralError::UnmatchedEndVariation)
            },
            Some(frame) => {
                self.stack = stack;
                self.current = frame.saved_current;
                self.previous = frame.saved_previous;
                Ok(Vec::new())
            },
        }
    }

    /// A comment.
    pub fn comment(&mut self, bytes: &[u8]) -> (answer: Result<Vec<Diagnostic>, StructuralError>)
        ensures
            final(self)@ == (if old(self)@.failure is Some {
                old(self)@
            } else {
                old(self)@.commented(bytes@)
            }),
            answered(
                answer,
                match old(self)@.failure {
                    Some(fault) => Err(fault),
                    None => Ok(scan(bytes@).diagnostics),
                },
            ),
    {
        proof {
            use_type_invariant(&*self);
        }
        if let Some(fault) = self.failure {
            return Err(fault);
        }
        let found = parse_annotations(bytes);
        if self.mode == Mode::AnnotationCollection && found.shapes.len() > 0 {
            let ghost before = self.positions.deep_view();
            let record = TrainingPosition {
                annotations: found.shapes,
                board: board_of(&self.current),
            };
            let ghost added = record.deep_view();
            let mut positions: Vec<TrainingPosition> = Vec::new();
            std::mem::swap(&mut positions, &mut self.positions);
            positions.push(record);
            self.positions = positions;
            proof {
                assert(self.positions.deep_view() =~= before.push(added));
            }
        }
        Ok(found.diagnostics)
    }

    /// The game ends. What it gathered stays until the next game begins.
    pub fn end_game(&mut self) -> (answer: Result<Vec<Diagnostic>, StructuralError>)
        ensures
            final(self)@ == old(self)@,
            answered(answer, old(self)@.answer(Event::EndGame)),
    {
        match self.failure {
            Some(fault) => Err(fault),
            None => Ok(Vec::new()),
        }
    }

    /// Takes one event as a reader reports it.
    pub fn visit(&mut self, event: &Event) -> (answer: Result<Vec<Diagnostic>, StructuralError>)
        ensures
            final(self)@ == old(self)@.step(*event),
            answered(answer, old(self)@.answer(*event)),
    {
        match event {
            Event::BeginGame => {
                self.begin_game();
                Ok(Vec::new())
            },
            Event::Move(token) => self.san(token.as_slice()),
            Event::BeginVariation => self.begin_variation(),
            Event::EndVariation => self.end_variation(),
            Event::Comment(bytes) => self.comment(bytes.as_slice()),
            Event::EndGame => self.end_game(),
        }
    }

    /// Takes a run of events in their order, and answers each of them.
    pub fn replay(&mut self, events: &[Event]) -> (answers: Vec<
        Result<Vec<Diagnostic>, StructuralError>,
    >)
        ensures
            final(self)@ == old(self)@.run(events@),
            answers@.len() == events@.len(),
            forall|i: int|
                0 <= i < events@.len() ==> answered(
                    #[trigger] answers@[i],
                    old(self)@.run(events@.take(i)).answer(events@[i]),
                ),
    {
        let mut answers: Vec<Result<Vec<Diagnostic>, StructuralError>> = Vec::new();
        let mut done: usize = 0;
        while done < events.len()
            invariant
                done <= events@.len(),
                self@ == old(self)@.run(events@.take(done as int)),
                answers@.len() == done,
                forall|i: int|
                    0 <= i < done ==> answered(
                        #[trigger] answers@[i],
                        old(self)@.run(events@.take(i)).answer(events@[i]),
                    ),
            decreases events@.len() - done,
        {
            proof {
                assert(events@.take(done + 1).drop_last() =~= events@.take(done as int));
            }
            let answer = self.visit(&events[done]);
            answers.push(answer);
            done = done + 1;
        }
        proof {
            assert(events@.take(done as int) =~= events@);
        }
        answers
    }

    /// The positions of the main line, the starting position first.
    pub fn game(&self) -> (line: Vec<Chess>)
        ensures
            line@ == self@.line,
    {
        self.line.clone()
    }

    /// The training positions gathered from the comments, in the order of
    /// the events.
    pub fn training_positions(&self) -> (positions: &Vec<TrainingPosition>)
        ensures
            positions.deep_view() == self@.positions,
    {
        &self.positions
    }

    /// The position that the moves so far lead to.
    pub fn current(&self) -> (position: &Chess)
        ensures
            *position == self@.current,
    {
        &self.current
    }

    /// How many variations are open.
    pub fn depth(&self) -> (depth: usize)
        ensures
            depth == self@.stack.len(),
    {
        self.stack.len()
    }
}

} // verus!
