use vstd::prelude::*;
use crate::board::{config_fits, grid_view, placed_grid};
use crate::config::GameConfig;
use crate::game::{
    initial_state, initialised, move_is_valid, performed, refusal, Game, GameStateResult, GameView,
};
use crate::move_logger::LoggedMoveView;
use crate::piece_move::PieceMove;

verus! {

/// The way into a game for whoever supplies the moves: it accepts a move only where the rules
/// allow it.
pub struct Controller {
    game: Game,
}

impl View for Controller {
    type V = GameView;

    closed spec fn view(&self) -> GameView {
        self.game@
    }
}

impl Controller {
    /// Whether the legal moves of the game are moves on its board.
    pub open spec fn well_formed(&self) -> bool {
        crate::game::moves_are_sound(self@.board, self@.state.valid_moves)
    }

    /// A controller of a new game on the configured board.
    pub fn new(game_config: GameConfig) -> (controller: Controller)
        requires
            config_fits(&game_config.initial_board),
        ensures
            controller@.board == placed_grid(
                game_config.initial_board.pieces@,
                game_config.initial_board.pieces@.len(),
                game_config.initial_board.rows as nat,
                game_config.initial_board.columns as nat,
            ),
            controller@.state == initial_state(game_config),
            controller@.log == seq![Seq::<LoggedMoveView>::empty()],
            controller.well_formed(),
    {
        Controller { game: Game::new(game_config) }
    }

    /// The game as it stands.
    pub fn get_game(&self) -> (game: &Game)
        ensures
            game@ == self@,
    {
        &self.game
    }

    /// Evaluates the starting position and returns the board and the state.
    pub fn initialise_game(&mut self) -> (result: Result<GameStateResult, &'static str>)
        ensures
            final(self)@ == initialised(old(self)@),
            final(self).well_formed(),
            result matches Ok(outcome) && grid_view(&outcome.board) == final(self)@.board && outcome.game_state@
                == final(self)@.state,
    {
        self.game.initialise_game_state()
    }

    /// Makes the move if it is accepted, and returns the board and the state it leaves. A move
    /// that is not accepted is rejected with a reason and changes nothing. In a game whose
    /// legal moves are moves on its board, as they are after every evaluation, each accepted
    /// move is made.
    pub fn process_move(&mut self, piece_move: PieceMove) -> (result: Result<GameStateResult, &'static str>)
        ensures
            !move_is_valid(old(self)@.board, old(self)@.state, piece_move@) ==> final(self)@ == old(self)@,
            old(self).well_formed() ==> final(self).well_formed(),
            old(self).well_formed() ==> (result is Ok <==> move_is_valid(
                old(self)@.board,
                old(self)@.state,
                piece_move@,
            )),
            match result {
                Ok(outcome) => {
                    &&& move_is_valid(old(self)@.board, old(self)@.state, piece_move@)
                    &&& final(self)@ == performed(old(self)@, piece_move@)
                    &&& final(self).well_formed()
                    &&& grid_view(&outcome.board) == final(self)@.board
                    &&& outcome.game_state@ == final(self)@.state
                },
                Err(reason) => {
                    &&& final(self)@ == old(self)@
                    &&& reason@ == if move_is_valid(old(self)@.board, old(self)@.state, piece_move@) {
                        refusal(old(self)@.board, old(self)@.state.white_turn, piece_move@)
                    } else {
                        "Move validation failed."@
                    }
                },
            },
    {
        if self.game.validate_move(&piece_move) {
            return self.game.perform_move(piece_move);
        }
        Err("Move validation failed.")
    }
}

} // verus!
