use crate::game::{TwoPlayer, Winner};
use vstd::prelude::*;

verus! {

/// Results of a series of games between two configured players, counted per player although
/// they swap seats every game: in even-numbered games the first player takes the first seat,
/// in odd-numbered games the second player does.
pub struct Tally {
    pub first_wins: u32,
    pub second_wins: u32,
    pub ties: u32,
}

/// In game `game_index`, the first configured player sits in `seat`.
pub open spec fn first_sits_in(game_index: u32, seat: TwoPlayer) -> bool {
    (seat == TwoPlayer::P1) == (game_index % 2 == 0)
}

impl Tally {
    /// No games yet.
    pub fn new() -> (r: Tally)
        ensures
            r.first_wins == 0,
            r.second_wins == 0,
            r.ties == 0,
    {
        Tally { first_wins: 0, second_wins: 0, ties: 0 }
    }

    /// Counts game `game_index`, which ended in `winner`; `mover` is the seat that moved last
    /// (the winner's seat where the game was won).
    pub fn record(&mut self, game_index: u32, winner: Winner, mover: TwoPlayer)
        requires
            old(self).first_wins < u32::MAX,
            old(self).second_wins < u32::MAX,
            old(self).ties < u32::MAX,
        ensures
            winner == Winner::TIE ==> *final(self) == (Tally {
                ties: (old(self).ties + 1) as u32,
                ..*old(self)
            }),
            winner == Winner::WIN && first_sits_in(game_index, mover) ==> *final(self) == (Tally {
                first_wins: (old(self).first_wins + 1) as u32,
                ..*old(self)
            }),
            winner == Winner::WIN && !first_sits_in(game_index, mover) ==> *final(self) == (Tally {
                second_wins: (old(self).second_wins + 1) as u32,
                ..*old(self)
            }),
    {
        match winner {
            Winner::TIE => {
                self.ties = self.ties + 1;
            },
            Winner::WIN => {
                let first_seat = game_index % 2 == 0;
                let mover_is_first_seat = match mover {
                    TwoPlayer::P1 => true,
                    TwoPlayer::P2 => false,
                };
                if first_seat == mover_is_first_seat {
                    self.first_wins = self.first_wins + 1;
                } else {
                    self.second_wins = self.second_wins + 1;
                }
            },
        }
    }
}

} // verus!
