use crate::game::MonteCarloGame;
use vstd::prelude::*;

verus! {

/// A game seen by players: what a move is.
pub trait GameRepr {
    type MOVE;
}

impl<G: MonteCarloGame> GameRepr for G {
    type MOVE = G::MOVE;
}

/// Something that picks a move for the position it is shown, told the opponent's last move.
pub trait GamePlayer<G: GameRepr> {
    fn make_move(&mut self, game: &G, enemy_move: Option<G::MOVE>) -> G::MOVE;
}

/// A way to pick moves that hands back state (`Carry`) to be given to it on its next turn.
pub trait GameStrategy<G: GameRepr>: Sized {
    type Carry;

    type Config;

    fn new(config: Self::Config) -> Self;

    fn make_move(&self, game: &G, carry: Option<(G::MOVE, Self::Carry)>) -> (G::MOVE, Self::Carry);
}

/// A player made of a strategy and the state it carries between turns.
pub struct GameStrategyPlayer<G: GameRepr, GS: GameStrategy<G>> {
    strategy: GS,
    carry: Option<GS::Carry>,
}

impl<G: GameRepr, GS: GameStrategy<G>> GameStrategyPlayer<G, GS> {
    /// The player holds state from an earlier turn.
    pub closed spec fn carries(&self) -> bool {
        self.carry is Some
    }

    /// The strategy the player asks.
    pub closed spec fn strategy_of_player(&self) -> GS {
        self.strategy
    }

    /// A player that has not moved yet: it carries nothing.
    pub fn new(strategy: GS) -> (r: Self)
        ensures
            !r.carries(),
            r.strategy_of_player() == strategy,
    {
        GameStrategyPlayer { strategy, carry: None }
    }

    /// Whether the player holds state from an earlier turn.
    pub fn has_carry(&self) -> (r: bool)
        ensures
            r == self.carries(),
    {
        self.carry.is_some()
    }

    /// Asks the strategy for a move, handing it the opponent's last move together with the
    /// carried state (only where both are there), and keeps the state it hands back.
    pub fn play(&mut self, game: &G, enemy_move: Option<G::MOVE>) -> (r: G::MOVE)
        ensures
            final(self).carries(),
    {
        let carried = self.carry.take();
        let carry = match (enemy_move, carried) {
            (Some(m), Some(c)) => Some((m, c)),
            _ => None,
        };
        let (m, carry) = self.strategy.make_move(game, carry);
        self.carry = Some(carry);
        m
    }
}

impl<G: GameRepr, GS: GameStrategy<G>> GamePlayer<G> for GameStrategyPlayer<G, GS> {
    fn make_move(&mut self, game: &G, enemy_move: Option<G::MOVE>) -> G::MOVE {
        self.play(game, enemy_move)
    }
}

} // verus!
