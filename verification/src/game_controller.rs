//! Game controller: remembers the direction the player last pressed and
//! feeds it to the game logic once per update event.
use crate::game_logic;
use crate::Direction;
use vstd::prelude::*;

verus! {

/// Handles events for the snake game.
pub struct GameController {
    /// The gameboard state.
    pub game_logic: game_logic::GameLogic,
    /// Current direction the snake moves in, if any key was pressed yet.
    pub direction: Option<Direction>,
}

impl GameController {
    /// Creates a new game logic controller.
    pub fn new(game_logic: game_logic::GameLogic) -> (r: GameController)
        ensures
            r.game_logic == game_logic,
            r.direction is None,
    {
        GameController { game_logic, direction: None }
    }

    /// Records a pressed movement key as the direction for coming ticks.
    pub fn press(&mut self, direction: Direction)
        ensures
            final(self).direction == Some(direction),
            final(self).game_logic == old(self).game_logic,
    {
        self.direction = Some(direction);
    }

    /// One update event: runs a single tick with the stored direction.
    pub fn update(&mut self) -> (r: game_logic::Collision)
        requires
            old(self).game_logic.wf(),
            old(self).game_logic.main_loop_counter < usize::MAX,
            old(self).game_logic.snake.body@.len()
                + old(self).game_logic.snake.segments_to_grow_by < usize::MAX,
        ensures
            final(self).game_logic.wf(),
            final(self).direction == old(self).direction,
            game_logic::tick_rel(
                old(self).game_logic,
                final(self).game_logic,
                old(self).direction,
                r,
            ),
    {
        let direction = self.direction;
        self.game_logic.main_loop(direction)
    }
}

} // verus!
