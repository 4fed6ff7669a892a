use vstd::prelude::*;

verus! {

/// How a finished game ended, seen from the side that made the last move.
#[derive(Copy, Clone, Debug, PartialEq, Eq, Structural)]
pub enum Winner {
    WIN,
    TIE,
}

/// The two sides of a two-player game.
#[derive(Copy, Clone, Debug, PartialEq, Eq, Structural, Hash)]
pub enum TwoPlayer {
    P1,
    P2,
}

impl TwoPlayer {
    /// The side that moves after `self`.
    pub fn next(self) -> (r: TwoPlayer)
        ensures
            r == self.other(),
    {
        match self {
            TwoPlayer::P1 => TwoPlayer::P2,
            TwoPlayer::P2 => TwoPlayer::P1,
        }
    }

    /// The other side.
    pub open spec fn other(self) -> TwoPlayer {
        match self {
            TwoPlayer::P1 => TwoPlayer::P2,
            TwoPlayer::P2 => TwoPlayer::P1,
        }
    }
}

/// Whether a game goes on after a move.
#[derive(Copy, Clone, Debug, PartialEq, Eq, Structural, Hash)]
pub enum GameState {
    Continue,
    Finished,
}

/// A deterministic two-player game: its moves, and the transition that a move makes.
pub trait MonteCarloGame: Sized {
    type MOVE: Copy;

    /// The states that play can reach.
    spec fn valid(&self) -> bool;

    /// The starting position.
    spec fn spec_initial() -> Self;

    /// The legal moves, in the order that `moves` lists them.
    spec fn spec_moves(&self) -> Seq<Self::MOVE>;

    /// The position after `m` and how the game ended, or `Err` for an illegal move.
    spec fn spec_apply(&self, m: Self::MOVE) -> Result<(Self, Option<Winner>), ()>;

    /// The side to move.
    spec fn spec_player(&self) -> TwoPlayer;

    /// A 64-bit digest of the position; equal positions have equal digests.
    spec fn spec_key(&self) -> u64;

    fn new() -> (r: Self)
        ensures
            r == Self::spec_initial(),
            r.valid(),
    ;

    fn moves(&self) -> (r: Vec<Self::MOVE>)
        requires
            self.valid(),
        ensures
            r@ == self.spec_moves(),
    ;

    fn make_move(&self, m: &Self::MOVE) -> (r: Result<(Self, Option<Winner>), ()>)
        requires
            self.valid(),
        ensures
            r == self.spec_apply(*m),
            r is Ok ==> r->Ok_0.0.valid(),
    ;

    fn player(&self) -> (r: TwoPlayer)
        ensures
            r == self.spec_player(),
    ;

    fn position_key(&self) -> (r: u64)
        ensures
            r == self.spec_key(),
    ;

    fn same_position(&self, other: &Self) -> (r: bool)
        ensures
            r == (*self == *other),
    ;

    fn is_valid(&self) -> (r: bool)
        ensures
            r == self.valid(),
    ;
}

/// A game that can tell, from a position alone, whether and how it has ended.
pub trait CheckWinMonteCarloGame: MonteCarloGame {
    /// `None` while the game goes on; else how it ended for the side that moved last.
    spec fn spec_win_state(&self) -> Option<Winner>;

    fn win_state(&self) -> (r: Option<Winner>)
        requires
            self.valid(),
        ensures
            r == self.spec_win_state(),
    ;
}

/// A game that is played in place, one move at a time.
pub trait GameWithMoves {
    type Move;
    type MoveErr;

    fn execute_move(&mut self, m: &Self::Move) -> Result<GameState, Self::MoveErr>;
}

/// Plays `m` on `game` in place: on success `game` becomes the new position and the result
/// says whether the game goes on; an illegal move leaves `game` as it was.
pub fn execute_move<G: MonteCarloGame>(game: &mut G, m: &G::MOVE) -> (r: Result<GameState, ()>)
    requires
        old(game).valid(),
    ensures
        match old(game).spec_apply(*m) {
            Ok((next, w)) => *final(game) == next && r == Ok::<GameState, ()>(
                if w is Some {
                    GameState::Finished
                } else {
                    GameState::Continue
                },
            ),
            Err(()) => r is Err && *final(game) == *old(game),
        },
{
    match game.make_move(m) {
        Ok((next, winner)) => {
            *game = next;
            let state = match winner {
                Some(_) => GameState::Finished,
                None => GameState::Continue,
            };
            Ok(state)
        },
        Err(()) => Err(()),
    }
}

impl<G: MonteCarloGame> GameWithMoves for G {
    type Move = G::MOVE;
    type MoveErr = ();

    fn execute_move(&mut self, m: &G::MOVE) -> Result<GameState, ()> {
        if !self.is_valid() {
            return Err(());
        }
        execute_move(self, m)
    }
}

/// Determinism: equal positions have equal move lists and equal outcomes for every move.
pub proof fn lemma_game_deterministic<G: MonteCarloGame>(a: G, b: G)
    requires
        a == b,
    ensures
        a.spec_moves() == b.spec_moves(),
        a.spec_player() == b.spec_player(),
        forall|m: G::MOVE| a.spec_apply(m) == b.spec_apply(m),
{
}

} // verus!
