use crate::game::{CheckWinMonteCarloGame, MonteCarloGame, TwoPlayer, Winner};
use vstd::prelude::*;
use vstd::std_specs::bits::{axiom_u16_trailing_zeros, u16_trailing_zeros};

verus! {

/// Tic-Tac-Toe in one word: bits 0-8 are the first player's cells, bits 9-17 the second
/// player's, bit 31 is set while the first player is to move. Cell `i` is row `i / 3`,
/// column `i % 3`.
#[derive(Copy, Clone, Debug, PartialEq, Eq, Structural, Hash)]
pub struct TicTacToe {
    game_state: u32,
}

/// A cell of the board, `I1` top left to `I9` bottom right.
#[derive(Copy, Clone, PartialEq, Eq, Structural, Hash, Debug)]
pub enum TicTacToeMove {
    I1,
    I2,
    I3,
    I4,
    I5,
    I6,
    I7,
    I8,
    I9,
}

/// The cells of one player's board.
pub const BOARD_MASK: u32 = 0b111_111_111;

/// The cell of `m`, 0 to 8.
pub open spec fn move_index(m: TicTacToeMove) -> u32 {
    match m {
        TicTacToeMove::I1 => 0,
        TicTacToeMove::I2 => 1,
        TicTacToeMove::I3 => 2,
        TicTacToeMove::I4 => 3,
        TicTacToeMove::I5 => 4,
        TicTacToeMove::I6 => 5,
        TicTacToeMove::I7 => 6,
        TicTacToeMove::I8 => 7,
        TicTacToeMove::I9 => 8,
    }
}

/// The move on cell `i`, for `i < 9`.
pub open spec fn move_at(i: u32) -> TicTacToeMove {
    if i == 0 {
        TicTacToeMove::I1
    } else if i == 1 {
        TicTacToeMove::I2
    } else if i == 2 {
        TicTacToeMove::I3
    } else if i == 3 {
        TicTacToeMove::I4
    } else if i == 4 {
        TicTacToeMove::I5
    } else if i == 5 {
        TicTacToeMove::I6
    } else if i == 6 {
        TicTacToeMove::I7
    } else if i == 7 {
        TicTacToeMove::I8
    } else {
        TicTacToeMove::I9
    }
}

impl TicTacToeMove {
    /// The cell of this move, 0 to 8.
    pub fn index(&self) -> (r: u32)
        ensures
            r == move_index(*self),
    {
        match self {
            TicTacToeMove::I1 => 0,
            TicTacToeMove::I2 => 1,
            TicTacToeMove::I3 => 2,
            TicTacToeMove::I4 => 3,
            TicTacToeMove::I5 => 4,
            TicTacToeMove::I6 => 5,
            TicTacToeMove::I7 => 6,
            TicTacToeMove::I8 => 7,
            TicTacToeMove::I9 => 8,
        }
    }

    /// The move on cell `value`, or `Err` where `value` is not a cell.
    pub fn try_from(value: u32) -> (r: Result<TicTacToeMove, ()>)
        ensures
            value < 9 <==> r is Ok,
            r is Ok ==> r->Ok_0 == move_at(value) && move_index(r->Ok_0) == value,
    {
        match value {
            0 => Ok(TicTacToeMove::I1),
            1 => Ok(TicTacToeMove::I2),
            2 => Ok(TicTacToeMove::I3),
            3 => Ok(TicTacToeMove::I4),
            4 => Ok(TicTacToeMove::I5),
            5 => Ok(TicTacToeMove::I6),
            6 => Ok(TicTacToeMove::I7),
            7 => Ok(TicTacToeMove::I8),
            8 => Ok(TicTacToeMove::I9),
            _ => Err(()),
        }
    }
}

/// Bit `i` of `b`.
pub open spec fn bit16(b: u16, i: u16) -> bool {
    (b >> i) & 1u16 == 1u16
}

/// Bit `i` of `b`.
pub open spec fn bit32(b: u32, i: u32) -> bool {
    (b >> i) & 1u32 == 1u32
}

/// Cells `i`, `j` and `k` are all marked on the 9-cell board `b`.
pub open spec fn three(b: u16, i: u16, j: u16, k: u16) -> bool {
    bit16(b, i) && bit16(b, j) && bit16(b, k)
}

/// The 9-cell board `b` has a complete row, column or diagonal.
pub open spec fn has_line(b: u16) -> bool {
    ||| three(b, 0, 1, 2)
    ||| three(b, 3, 4, 5)
    ||| three(b, 6, 7, 8)
    ||| three(b, 0, 3, 6)
    ||| three(b, 1, 4, 7)
    ||| three(b, 2, 5, 8)
    ||| three(b, 0, 4, 8)
    ||| three(b, 2, 4, 6)
}

/// Cell `i` is taken by one of the two players in the game word `b`.
pub open spec fn cell_taken(b: u32, i: u32) -> bool {
    bit32(b, i) || bit32(b, (i + 9) as u32)
}

/// Every cell is taken.
pub open spec fn board_full(b: u32) -> bool {
    forall|i: u32| i < 9 ==> #[trigger] cell_taken(b, i)
}

/// The side to move in the game word `b`.
pub open spec fn player_of(b: u32) -> TwoPlayer {
    if b >> 31u32 == 1 {
        TwoPlayer::P1
    } else {
        TwoPlayer::P2
    }
}

/// Where the board of side `p` starts in a game word.
pub open spec fn board_offset(p: TwoPlayer) -> u32 {
    match p {
        TwoPlayer::P1 => 0,
        TwoPlayer::P2 => 9,
    }
}

/// The 9-cell board of side `p` in the game word `b`.
pub open spec fn board_of(b: u32, p: TwoPlayer) -> u16 {
    ((b >> board_offset(p)) & BOARD_MASK) as u16
}

/// How the game in word `b` has ended, seen from the side that moved last (which stays the
/// side to move once the game is over).
pub open spec fn outcome_of(b: u32) -> Option<Winner> {
    if has_line(board_of(b, player_of(b))) {
        Some(Winner::WIN)
    } else if board_full(b) {
        Some(Winner::TIE)
    } else {
        None
    }
}

/// The free cells below `n`, in increasing order, as moves.
pub open spec fn free_cells(b: u32, n: u32) -> Seq<TicTacToeMove>
    decreases n,
{
    if n == 0 {
        Seq::empty()
    } else {
        let rest = free_cells(b, (n - 1) as u32);
        if cell_taken(b, (n - 1) as u32) {
            rest
        } else {
            rest.push(move_at((n - 1) as u32))
        }
    }
}

/// Player one's cells.
pub fn pos_player1(board: u32) -> (r: u32)
    ensures
        r == board & BOARD_MASK,
{
    board & BOARD_MASK
}

/// Player two's cells.
pub fn pos_player2(board: u32) -> (r: u32)
    ensures
        r == (board >> 9u32) & BOARD_MASK,
{
    (board >> 9) & BOARD_MASK
}

/// The side to move.
pub fn get_player(board: u32) -> (r: TwoPlayer)
    ensures
        r == player_of(board),
{
    if board >> 31 == 1 {
        TwoPlayer::P1
    } else {
        TwoPlayer::P2
    }
}

/// Whether the 9-cell board has a complete row, column or diagonal.
pub fn won_one_board(board: u16) -> (r: bool)
    ensures
        r == has_line(board),
{
    let line_won: u16 = 0b100_100_100;
    let row_won = (board & board << 1u16 & board << 2u16) & line_won;
    let col_won_mask: u16 = 0b111_000_000;
    let col_won = (board & board << 3u16 & board << 6u16) & col_won_mask;
    let dig1_won = (board >> 8u16 & board >> 4u16 & board) & 1;
    let dig2_won = (board & board >> 2u16 & board >> 4u16) & 0b000_000_100;
    let r = (row_won | col_won | dig1_won | dig2_won) > 0;
    assert(r == (((board >> 0u16) & 1u16 == 1u16 && (board >> 1u16) & 1u16 == 1u16 && (board >> 2u16) & 1u16 == 1u16)
        || ((board >> 3u16) & 1u16 == 1u16 && (board >> 4u16) & 1u16 == 1u16 && (board >> 5u16) & 1u16 == 1u16)
        || ((board >> 6u16) & 1u16 == 1u16 && (board >> 7u16) & 1u16 == 1u16 && (board >> 8u16) & 1u16 == 1u16)
        || ((board >> 0u16) & 1u16 == 1u16 && (board >> 3u16) & 1u16 == 1u16 && (board >> 6u16) & 1u16 == 1u16)
        || ((board >> 1u16) & 1u16 == 1u16 && (board >> 4u16) & 1u16 == 1u16 && (board >> 7u16) & 1u16 == 1u16)
        || ((board >> 2u16) & 1u16 == 1u16 && (board >> 5u16) & 1u16 == 1u16 && (board >> 8u16) & 1u16 == 1u16)
        || ((board >> 0u16) & 1u16 == 1u16 && (board >> 4u16) & 1u16 == 1u16 && (board >> 8u16) & 1u16 == 1u16)
        || ((board >> 2u16) & 1u16 == 1u16 && (board >> 4u16) & 1u16 == 1u16 && (board >> 6u16) & 1u16 == 1u16))) by (bit_vector)
        requires
            row_won == (board & board << 1u16 & board << 2u16) & 0b100_100_100u16,
            col_won == (board & board << 3u16 & board << 6u16) & 0b111_000_000u16,
            dig1_won == (board >> 8u16 & board >> 4u16 & board) & 1u16,
            dig2_won == (board & board >> 2u16 & board >> 4u16) & 0b000_000_100u16,
            r == ((row_won | col_won | dig1_won | dig2_won) > 0u16),
    ;
    r
}

/// Whether every cell is taken.
pub fn is_tie(board: u32) -> (r: bool)
    ensures
        r == board_full(board),
{
    let r = ((board >> 9) | board) & BOARD_MASK == BOARD_MASK;
    proof {
        if r {
            assert forall|i: u32| i < 9 implies #[trigger] cell_taken(board, i) by {
                assert((((board >> 9u32) | board) & 0x1ffu32 == 0x1ffu32 && i < 9) ==> ((board >> i)
                    & 1u32 == 1u32 || (board >> (i + 9)) & 1u32 == 1u32)) by (bit_vector);
            }
        } else {
            assert(!board_full(board)) by {
                if board_full(board) {
                    assert(cell_taken(board, 0));
                    assert(cell_taken(board, 1));
                    assert(cell_taken(board, 2));
                    assert(cell_taken(board, 3));
                    assert(cell_taken(board, 4));
                    assert(cell_taken(board, 5));
                    assert(cell_taken(board, 6));
                    assert(cell_taken(board, 7));
                    assert(cell_taken(board, 8));
                    assert(((board >> 0u32) & 1u32 == 1u32 || (board >> 9u32) & 1u32 == 1u32)
                        && ((board >> 1u32) & 1u32 == 1u32 || (board >> 10u32) & 1u32 == 1u32)
                        && ((board >> 2u32) & 1u32 == 1u32 || (board >> 11u32) & 1u32 == 1u32)
                        && ((board >> 3u32) & 1u32 == 1u32 || (board >> 12u32) & 1u32 == 1u32)
                        && ((board >> 4u32) & 1u32 == 1u32 || (board >> 13u32) & 1u32 == 1u32)
                        && ((board >> 5u32) & 1u32 == 1u32 || (board >> 14u32) & 1u32 == 1u32)
                        && ((board >> 6u32) & 1u32 == 1u32 || (board >> 15u32) & 1u32 == 1u32)
                        && ((board >> 7u32) & 1u32 == 1u32 || (board >> 16u32) & 1u32 == 1u32)
                        && ((board >> 8u32) & 1u32 == 1u32 || (board >> 17u32) & 1u32 == 1u32)
                        ==> ((board >> 9u32) | board) & 0x1ffu32 == 0x1ffu32) by (bit_vector);
                }
            }
        }
    }
    r
}

impl TicTacToe {
    /// The game word.
    pub closed spec fn word(&self) -> u32 {
        self.game_state
    }

    /// The position with game word `b`.
    pub closed spec fn from_word(b: u32) -> TicTacToe {
        TicTacToe { game_state: b }
    }
}

/// The position after side `player_of(b)` marks cell `i` of the game word `b`, and how the
/// game ended; `Err` where the game is over or the cell is taken.
pub open spec fn apply_word(b: u32, i: u32) -> Result<(u32, Option<Winner>), ()> {
    if outcome_of(b) is Some || cell_taken(b, i) {
        Err(())
    } else {
        let marked = b | (1u32 << (i + board_offset(player_of(b))) as u32);
        if has_line(board_of(marked, player_of(b))) {
            Ok((marked, Some(Winner::WIN)))
        } else if board_full(marked) {
            Ok((marked, Some(Winner::TIE)))
        } else {
            Ok((marked ^ (1u32 << 31u32), None))
        }
    }
}

/// The number of bits set in `x` below bit `n`.
pub open spec fn ones16(x: u16, n: nat) -> nat
    decreases n,
{
    if n == 0 {
        0
    } else {
        ones16(x, (n - 1) as nat) + if (x >> (n - 1) as u16) & 1u16 == 1u16 {
            1nat
        } else {
            0nat
        }
    }
}

/// The free cells still to hand out, one bit each (bit `i` for cell `i`).
pub struct TicTacToeMoves {
    pub remaining: u16,
}

impl TicTacToeMoves {
    /// The free cells of `game`; none once the game is over.
    pub fn of(game: &TicTacToe) -> (r: TicTacToeMoves)
        requires
            game.valid(),
        ensures
            forall|i: u16|
                i < 16 ==> (bit16(r.remaining, i) <==> (i < 9 && outcome_of(game.word()) is None
                    && !cell_taken(game.word(), i as u32))),
    {
        if game.win_state().is_some() {
            assert(forall|i: u16| i < 16 ==> (0u16 >> i) & 1u16 == 0u16) by (bit_vector);
            return TicTacToeMoves { remaining: 0 };
        }
        let b = game.game_state;
        let used_pos = pos_player1(b) | pos_player2(b);
        let unused = (!used_pos) & BOARD_MASK;
        assert(((!used_pos) & 0x1ffu32) < 512) by (bit_vector);
        let remaining = unused as u16;
        proof {
            assert forall|i: u16| i < 16 implies (bit16(remaining, i) <==> (i < 9 && !cell_taken(b, i as u32))) by {
                let j = i as u32;
                assert(((remaining >> i) & 1u16 == 1u16) <==> ((unused >> j) & 1u32 == 1u32)) by (bit_vector)
                    requires
                        unused < 512,
                        remaining == unused as u16,
                        j == i as u32,
                        i < 16,
                ;
                assert(((unused >> j) & 1u32 == 1u32) <==> (j < 9 && !((b >> j) & 1u32 == 1u32 || (b >> (j + 9)) & 1u32 == 1u32))) by (bit_vector)
                    requires
                        used_pos == (b & 0x1ffu32) | ((b >> 9u32) & 0x1ffu32),
                        unused == (!used_pos) & 0x1ffu32,
                        j < 16,
                ;
            }
        }
        TicTacToeMoves { remaining }
    }

    /// Hands out the lowest free cell left, if any.
    pub fn next(&mut self) -> (r: Option<TicTacToeMove>)
        requires
            old(self).remaining < 512,
        ensures
            old(self).remaining == 0 <==> r is None,
            r is Some ==> {
                let t = u16_trailing_zeros(old(self).remaining);
                &&& move_index(r->Some_0) == t
                &&& final(self).remaining == old(self).remaining ^ (1u16 << t as u16)
                &&& final(self).remaining < 512
            },
            r is None ==> final(self).remaining == 0,
    {
        let next = self.remaining.trailing_zeros();
        proof {
            axiom_u16_trailing_zeros(self.remaining);
        }
        match TicTacToeMove::try_from(next) {
            Ok(m) => {
                let old_remaining = self.remaining;
                self.remaining = self.remaining ^ (1u16 << (next as u16));
                proof {
                    let n = next as u16;
                    assert(old_remaining < 512 && n < 9 ==> (old_remaining ^ (1u16 << n)) < 512) by (bit_vector);
                }
                Some(m)
            },
            Err(()) => {
                proof {
                    let rem = self.remaining;
                    if rem != 0 {
                        let n = next as u16;
                        assert(rem < 512 && 9 <= n && n < 16 ==> (rem >> n) & 1u16 == 0u16)
                            by (bit_vector);
                    }
                }
                None
            },
        }
    }

    /// The number of cells left, as a lower and an upper bound.
    pub fn size_hint(&self) -> (r: (usize, Option<usize>))
        ensures
            r.0 == ones16(self.remaining, 9),
            r.1 == Some(r.0),
    {
        let mut n: usize = 0;
        let mut j: u16 = 0;
        while j < 9
            invariant
                j <= 9,
                n == ones16(self.remaining, j as nat),
                n <= j,
            decreases 9 - j,
        {
            if (self.remaining >> j) & 1 == 1 {
                n += 1;
            }
            j += 1;
        }
        (n, Some(n))
    }
}

impl MonteCarloGame for TicTacToe {
    type MOVE = TicTacToeMove;

    open spec fn valid(&self) -> bool {
        self.word() & 0x7ffc_0000u32 == 0
    }

    open spec fn spec_initial() -> Self {
        TicTacToe::from_word(1u32 << 31u32)
    }

    open spec fn spec_moves(&self) -> Seq<TicTacToeMove> {
        if outcome_of(self.word()) is Some {
            Seq::empty()
        } else {
            free_cells(self.word(), 9)
        }
    }

    open spec fn spec_apply(&self, m: TicTacToeMove) -> Result<(Self, Option<Winner>), ()> {
        match apply_word(self.word(), move_index(m)) {
            Ok((b, w)) => Ok((TicTacToe::from_word(b), w)),
            Err(()) => Err(()),
        }
    }

    open spec fn spec_player(&self) -> TwoPlayer {
        player_of(self.word())
    }

    fn new() -> (r: Self) {
        let r = TicTacToe { game_state: 1u32 << 31 };
        assert((1u32 << 31u32) & 0x7ffc_0000u32 == 0) by (bit_vector);
        r
    }

    fn moves(&self) -> (r: Vec<TicTacToeMove>) {
        let mut r: Vec<TicTacToeMove> = Vec::new();
        if self.win_state().is_some() {
            return r;
        }
        let used_pos = pos_player1(self.game_state) | pos_player2(self.game_state);
        let b = self.game_state;
        let mut i: u32 = 0;
        while i < 9
            invariant
                i <= 9,
                b == self.word(),
                used_pos == (b & BOARD_MASK) | ((b >> 9u32) & BOARD_MASK),
                r@ == free_cells(b, i),
            decreases 9 - i,
        {
            let taken = (used_pos >> i) & 1 == 1;
            assert(taken == cell_taken(b, i)) by (bit_vector)
                requires
                    used_pos == (b & 0x1ffu32) | ((b >> 9u32) & 0x1ffu32),
                    taken == ((used_pos >> i) & 1u32 == 1u32),
                    i < 9,
            ;
            if !taken {
                let m = TicTacToeMove::try_from(i).unwrap();
                r.push(m);
            }
            i += 1;
        }
        r
    }

    fn make_move(&self, m: &TicTacToeMove) -> (r: Result<(Self, Option<Winner>), ()>) {
        let b = self.game_state;
        if self.win_state().is_some() {
            return Err(());
        }
        let player = get_player(b);
        let player_board_off: u32 = match player {
            TwoPlayer::P1 => 0,
            TwoPlayer::P2 => 9,
        };
        let i = m.index();
        let taken = (b >> i) & 1 == 1 || (b >> (i + 9)) & 1 == 1;
        if taken {
            return Err(());
        }
        let m_bit = 1u32 << (i + player_board_off);
        let new_board = b | m_bit;
        assert(((new_board >> player_board_off) & 0x1ffu32) <= 0x1ffu32) by (bit_vector);
        let mover_board = ((new_board >> player_board_off) & BOARD_MASK) as u16;
        let flip_player: u32;
        let winner: Option<Winner>;
        if won_one_board(mover_board) {
            flip_player = 0;
            winner = Some(Winner::WIN);
        } else if is_tie(new_board) {
            flip_player = 0;
            winner = Some(Winner::TIE);
        } else {
            flip_player = 1u32 << 31;
            winner = None;
        }
        let ghost marked = new_board;
        let new_board = new_board ^ flip_player;
        proof {
            assert(i < 9);
            assert(b & 0x7ffc_0000u32 == 0);
            assert(b & 0x7ffc_0000u32 == 0 && i < 9 && (player_board_off == 0 || player_board_off == 9)
                ==> ((b | (1u32 << (i + player_board_off))) & 0x7ffc_0000u32 == 0
                && ((b | (1u32 << (i + player_board_off))) ^ (1u32 << 31u32)) & 0x7ffc_0000u32 == 0
                && (b | (1u32 << (i + player_board_off))) ^ 0u32 == (b | (1u32 << (i + player_board_off)))))
                by (bit_vector);
            assert(new_board & 0x7ffc_0000u32 == 0);
            assert(player_board_off == board_offset(player_of(b)));
            assert(marked == b | (1u32 << (i + board_offset(player_of(b))) as u32));
            assert(mover_board == board_of(marked, player_of(b)));
        }
        Ok((TicTacToe { game_state: new_board }, winner))
    }

    fn player(&self) -> (r: TwoPlayer) {
        get_player(self.game_state)
    }

    open spec fn spec_key(&self) -> u64 {
        self.word() as u64
    }

    fn position_key(&self) -> (r: u64) {
        self.game_state as u64
    }

    fn is_valid(&self) -> (r: bool) {
        self.game_state & 0x7ffc_0000u32 == 0
    }

    fn same_position(&self, other: &Self) -> (r: bool) {
        self.game_state == other.game_state
    }
}

impl CheckWinMonteCarloGame for TicTacToe {
    open spec fn spec_win_state(&self) -> Option<Winner> {
        outcome_of(self.word())
    }

    fn win_state(&self) -> (r: Option<Winner>) {
        let off: u32 = match get_player(self.game_state) {
            TwoPlayer::P1 => 0,
            TwoPlayer::P2 => 9,
        };
        let b = self.game_state;
        assert(((b >> off) & 0x1ffu32) <= 0x1ffu32) by (bit_vector);
        if won_one_board(((b >> off) & BOARD_MASK) as u16) {
            Some(Winner::WIN)
        } else if is_tie(self.game_state) {
            Some(Winner::TIE)
        } else {
            None
        }
    }
}

} // verus!
