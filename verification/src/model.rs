//! The game on display and the place in it.
//!
//! The window hands over what the user asks for as a message. The model
//! moves its cursor and says what the window has to do in return.

use crate::position::{board_of, placement};
use shakmaty::{Board, Chess};
use vstd::prelude::*;

verus! {

/// What the user asks for.
#[derive(Clone, Copy, Debug, PartialEq, Eq, Structural)]
pub enum Msg {
    Flip,
    ImportPGN,
    NextMove,
    PreviousMove,
    Quit,
}

/// What the window has to do once the model has taken a message.
#[derive(Clone, Copy, Debug, PartialEq, Eq, Structural)]
pub enum Command {
    /// Turn the board round.
    FlipBoard,
    /// Let the user choose the files to import.
    ChooseFiles,
    /// Show the position under the cursor.
    ShowPosition,
    /// Leave.
    Quit,
}

/// A model as contracts see it.
pub ghost struct ModelState {
    pub current_position: nat,
    pub result: Seq<char>,
    pub game: Seq<Chess>,
}

/// The positions of a game and a cursor into them.
pub struct Model {
    current_position: usize,
    result: String,
    game: Vec<Chess>,
}

impl ModelState {
    /// The cursor points at a position, or at the start of a game without any.
    pub open spec fn in_range(self) -> bool {
        self.current_position < self.game.len() || self.current_position == 0
    }

    /// The cursor after a message: one step on, but not past the last
    /// position; one step back, but not before the first; else where it was.
    pub open spec fn cursor_after(self, event: Msg) -> nat {
        match event {
            Msg::NextMove => if self.current_position + 1 < self.game.len() {
                self.current_position + 1
            } else {
                self.current_position
            },
            Msg::PreviousMove => if self.current_position > 0 {
                (self.current_position - 1) as nat
            } else {
                self.current_position
            },
            _ => self.current_position,
        }
    }

    /// The state after a message.
    pub open spec fn updated(self, event: Msg) -> ModelState {
        ModelState { current_position: self.cursor_after(event), ..self }
    }

    /// What the window has to do in answer to a message.
    pub open spec fn command(event: Msg) -> Command {
        match event {
            Msg::Flip => Command::FlipBoard,
            Msg::ImportPGN => Command::ChooseFiles,
            Msg::NextMove => Command::ShowPosition,
            Msg::PreviousMove => Command::ShowPosition,
            Msg::Quit => Command::Quit,
        }
    }

    /// The board under the cursor, if the game has a position there.
    pub open spec fn shown(self) -> Option<Board> {
        if self.current_position < self.game.len() {
            Some(placement(self.game[self.current_position as int]))
        } else {
            None
        }
    }
}

impl View for Model {
    type V = ModelState;

    closed spec fn view(&self) -> ModelState {
        ModelState {
            current_position: self.current_position as nat,
            result: self.result@,
            game: self.game@,
        }
    }
}

impl Model {
    #[verifier::type_invariant]
    spec fn in_range(self) -> bool {
        self@.in_range()
    }

    /// A model without a game.
    pub fn new() -> (model: Model)
        ensures
            model@ == (ModelState { current_position: 0, result: seq![], game: seq![] }),
    {
        let model = Model { current_position: 0, result: String::new(), game: Vec::new() };
        proof {
            assert(model.result@ =~= Seq::<char>::empty());
        }
        model
    }

    /// Takes a message, moves the cursor and says what the window has to do.
    pub fn update(&mut self, event: Msg) -> (command: Command)
        ensures
            final(self)@ == old(self)@.updated(event),
            final(self)@.in_range(),
            command == ModelState::command(event),
    {
        proof {
            use_type_invariant(&*self);
        }
        match event {
            Msg::Flip => Command::FlipBoard,
            Msg::ImportPGN => Command::ChooseFiles,
            Msg::NextMove => {
                if self.current_position < self.game.len() && self.current_position + 1
                    < self.game.len() {
                    self.current_position = self.current_position + 1;
                }
                Command::ShowPosition
            },
            Msg::PreviousMove => {
                if self.current_position > 0 {
                    self.current_position = self.current_position - 1;
                }
                Command::ShowPosition
            },
            Msg::Quit => Command::Quit,
        }
    }

    /// Puts a game on display, with the cursor on its first position.
    pub fn import_game(&mut self, game: Vec<Chess>)
        ensures
            final(self)@ == (ModelState { current_position: 0, game: game@, ..old(self)@ }),
    {
        self.current_position = 0;
        self.game = game;
    }

    /// The board to show: that of the position under the cursor. A model
    /// without a game has none.
    pub fn show_position(&self) -> (board: Option<Board>)
        ensures
            board == self@.shown(),
    {
        if self.current_position < self.game.len() {
            Some(board_of(&self.game[self.current_position]))
        } else {
            None
        }
    }

    /// The text of the result label.
    pub fn result(&self) -> (text: &String)
        ensures
            text@ == self@.result,
    {
        &self.result
    }

    /// Where the cursor stands.
    pub fn current_position(&self) -> (index: usize)
        ensures
            index == self@.current_position,
            self@.in_range(),
    {
        proof {
            use_type_invariant(self);
        }
        self.current_position
    }

    /// The number of positions of the game on display.
    pub fn len(&self) -> (len: usize)
        ensures
            len == self@.game.len(),
    {
        self.game.len()
    }
}

} // verus!
