use crate::bits::{bit64, lemma_and4_shl, lemma_and_nonzero, lemma_high_bits_clear};
use crate::game::{CheckWinMonteCarloGame, MonteCarloGame, TwoPlayer, Winner};
use vstd::prelude::*;
use vstd::std_specs::bits::{axiom_u64_trailing_ones, u64_trailing_ones};

verus! {

/// Cells where a vertical four can end: rows 3 to 5 of each column.
pub const VERTICAL_WON: u64 = 0b111000_111000_111000_111000_111000_111000_111000;

/// Cells where a horizontal four can end: columns 3 to 6 (and the unused bits above them).
pub const HORIZONTAL_WON: u64 = 0b1111111_1111111_1111111_1111111_000000_000000_000000;

/// Cells where a rising diagonal four can end.
pub const LTRB_DIAGONAL: u64 = 0b111000_111000_111000_111000_000000_000000_000000;

/// Cells where a falling diagonal four can end.
pub const LBRT_DIAGONAL: u64 = 0b000111_000111_000111_000111_000000_000000_000000;

/// All 42 cells.
pub const FULL_BOARD: u64 = 0b111111_111111_111111_111111_111111_111111_111111;

/// Cell (`c`, `r`), column `c` from the left and row `r` from the bottom, is set in the
/// 7x6 board `b`, whose bit `c * 6 + r` stands for it.
pub open spec fn cell7(b: u64, c: int, r: int) -> bool {
    0 <= c < 7 && 0 <= r < 6 && bit64(b, (c * 6 + r) as u64)
}

/// Four set cells in a row from (`c`, `r`) in step (`dc`, `dr`).
pub open spec fn four7(b: u64, c: int, r: int, dc: int, dr: int) -> bool {
    &&& cell7(b, c, r)
    &&& cell7(b, c + dc, r + dr)
    &&& cell7(b, c + 2 * dc, r + 2 * dr)
    &&& cell7(b, c + 3 * dc, r + 3 * dr)
}

/// Some four set cells lie in a row in step (`dc`, `dr`).
pub open spec fn line7(b: u64, dc: int, dr: int) -> bool {
    exists|c: int, r: int| #[trigger] four7(b, c, r, dc, dr)
}

/// Four set cells lie in a column, a row or a diagonal.
pub open spec fn has_four7(b: u64) -> bool {
    line7(b, 0, 1) || line7(b, 1, 0) || line7(b, 1, 1) || line7(b, 1, -1)
}

proof fn lemma_masks(i: u64)
    requires
        i < 64,
    ensures
        bit64(VERTICAL_WON, i) <==> (i < 42 && i % 6 >= 3),
        bit64(HORIZONTAL_WON, i) <==> (18 <= i < 46),
        bit64(LTRB_DIAGONAL, i) <==> (18 <= i < 42 && i % 6 >= 3),
        bit64(LBRT_DIAGONAL, i) <==> (18 <= i < 42 && i % 6 <= 2),
{
    assert(i < 64 ==> ((((0b111000_111000_111000_111000_111000_111000_111000u64 >> i) & 1u64
        == 1u64) <==> (i < 42 && i % 6 >= 3)) && (((0b1111111_1111111_1111111_1111111_000000_000000_000000u64
        >> i) & 1u64 == 1u64) <==> (18 <= i && i < 46)) && (((0b111000_111000_111000_111000_000000_000000_000000u64
        >> i) & 1u64 == 1u64) <==> (18 <= i && i < 42 && i % 6 >= 3)) && (((0b000111_000111_000111_000111_000000_000000_000000u64
        >> i) & 1u64 == 1u64) <==> (18 <= i && i < 42 && i % 6 <= 2)))) by (bit_vector);
}

/// The vertical test finds exactly the vertical fours.
proof fn lemma_vertical(b: u64)
    requires
        b < (1u64 << 42u64),
    ensures
        ((b & (b << 1u64) & (b << 2u64) & (b << 3u64)) & VERTICAL_WON > 0) == line7(b, 0, 1),
{
    let x = b & (b << 1u64) & (b << 2u64) & (b << 3u64);
    lemma_and_nonzero(x, VERTICAL_WON);
    if x & VERTICAL_WON > 0 {
        let i = choose|i: u64| i < 64 && #[trigger] bit64(x, i) && bit64(VERTICAL_WON, i);
        lemma_and4_shl(b, 1, 2, 3, i);
        lemma_masks(i);
        let c = i as int / 6;
        let r = i as int % 6 - 3;
        assert(four7(b, c, r, 0, 1));
    }
    if line7(b, 0, 1) {
        let (c, r) = choose|c: int, r: int| #[trigger] four7(b, c, r, 0, 1);
        let i = (c * 6 + r + 3) as u64;
        lemma_and4_shl(b, 1, 2, 3, i);
        lemma_masks(i);
        assert(bit64(x, i) && bit64(VERTICAL_WON, i));
    }
}

/// The horizontal test finds exactly the horizontal fours.
proof fn lemma_horizontal(b: u64)
    requires
        b < (1u64 << 42u64),
    ensures
        ((b & (b << 6u64) & (b << 12u64) & (b << 18u64)) & HORIZONTAL_WON > 0) == line7(b, 1, 0),
{
    let x = b & (b << 6u64) & (b << 12u64) & (b << 18u64);
    lemma_and_nonzero(x, HORIZONTAL_WON);
    if x & HORIZONTAL_WON > 0 {
        let i = choose|i: u64| i < 64 && #[trigger] bit64(x, i) && bit64(HORIZONTAL_WON, i);
        lemma_and4_shl(b, 6, 12, 18, i);
        lemma_masks(i);
        if i >= 42 {
            lemma_high_bits_clear(b, 42, i);
        }
        let c = i as int / 6 - 3;
        let r = i as int % 6;
        assert(four7(b, c, r, 1, 0));
    }
    if line7(b, 1, 0) {
        let (c, r) = choose|c: int, r: int| #[trigger] four7(b, c, r, 1, 0);
        let i = (c * 6 + r + 18) as u64;
        lemma_and4_shl(b, 6, 12, 18, i);
        lemma_masks(i);
        assert(bit64(x, i) && bit64(HORIZONTAL_WON, i));
    }
}

/// The rising diagonal test finds exactly the rising diagonal fours.
proof fn lemma_rising(b: u64)
    requires
        b < (1u64 << 42u64),
    ensures
        ((b & (b << 7u64) & (b << 14u64) & (b << 21u64)) & LTRB_DIAGONAL > 0) == line7(b, 1, 1),
{
    let x = b & (b << 7u64) & (b << 14u64) & (b << 21u64);
    lemma_and_nonzero(x, LTRB_DIAGONAL);
    if x & LTRB_DIAGONAL > 0 {
        let i = choose|i: u64| i < 64 && #[trigger] bit64(x, i) && bit64(LTRB_DIAGONAL, i);
        lemma_and4_shl(b, 7, 14, 21, i);
        lemma_masks(i);
        let c = i as int / 6 - 3;
        let r = i as int % 6 - 3;
        assert(four7(b, c, r, 1, 1));
    }
    if line7(b, 1, 1) {
        let (c, r) = choose|c: int, r: int| #[trigger] four7(b, c, r, 1, 1);
        let i = (c * 6 + r + 21) as u64;
        lemma_and4_shl(b, 7, 14, 21, i);
        lemma_masks(i);
        assert(bit64(x, i) && bit64(LTRB_DIAGONAL, i));
    }
}

/// The falling diagonal test finds exactly the falling diagonal fours.
proof fn lemma_falling(b: u64)
    requires
        b < (1u64 << 42u64),
    ensures
        ((b & (b << 5u64) & (b << 10u64) & (b << 15u64)) & LBRT_DIAGONAL > 0) == line7(b, 1, -1),
{
    let x = b & (b << 5u64) & (b << 10u64) & (b << 15u64);
    lemma_and_nonzero(x, LBRT_DIAGONAL);
    if x & LBRT_DIAGONAL > 0 {
        let i = choose|i: u64| i < 64 && #[trigger] bit64(x, i) && bit64(LBRT_DIAGONAL, i);
        lemma_and4_shl(b, 5, 10, 15, i);
        lemma_masks(i);
        let c = i as int / 6 - 3;
        let r = i as int % 6 + 3;
        assert(four7(b, c, r, 1, -1));
    }
    if line7(b, 1, -1) {
        let (c, r) = choose|c: int, r: int| #[trigger] four7(b, c, r, 1, -1);
        let i = (c * 6 + r + 15) as u64;
        lemma_and4_shl(b, 5, 10, 15, i);
        lemma_masks(i);
        assert(bit64(x, i) && bit64(LBRT_DIAGONAL, i));
    }
}

/// A column of the 7-column board, `I0` on the left.
#[derive(Copy, Clone, PartialEq, Eq, Structural, Debug, Hash)]
pub enum LineFourIndex {
    I0,
    I1,
    I2,
    I3,
    I4,
    I5,
    I6,
}

/// The column of `m`, 0 to 6.
pub open spec fn column_of(m: LineFourIndex) -> u64 {
    match m {
        LineFourIndex::I0 => 0,
        LineFourIndex::I1 => 1,
        LineFourIndex::I2 => 2,
        LineFourIndex::I3 => 3,
        LineFourIndex::I4 => 4,
        LineFourIndex::I5 => 5,
        LineFourIndex::I6 => 6,
    }
}

/// The move into column `c`, for `c < 7`.
pub open spec fn column_move(c: u64) -> LineFourIndex {
    if c == 0 {
        LineFourIndex::I0
    } else if c == 1 {
        LineFourIndex::I1
    } else if c == 2 {
        LineFourIndex::I2
    } else if c == 3 {
        LineFourIndex::I3
    } else if c == 4 {
        LineFourIndex::I4
    } else if c == 5 {
        LineFourIndex::I5
    } else {
        LineFourIndex::I6
    }
}

impl LineFourIndex {
    /// The column of this move, 0 to 6.
    pub fn index(&self) -> (r: u64)
        ensures
            r == column_of(*self),
    {
        match self {
            LineFourIndex::I0 => 0,
            LineFourIndex::I1 => 1,
            LineFourIndex::I2 => 2,
            LineFourIndex::I3 => 3,
            LineFourIndex::I4 => 4,
            LineFourIndex::I5 => 5,
            LineFourIndex::I6 => 6,
        }
    }

    /// The move into column `value`, or `Err` where there is no such column.
    pub fn try_from(value: u32) -> (r: Result<LineFourIndex, ()>)
        ensures
            value < 7 <==> r is Ok,
            r is Ok ==> r->Ok_0 == column_move(value as u64) && column_of(r->Ok_0) == value,
    {
        match value {
            0 => Ok(LineFourIndex::I0),
            1 => Ok(LineFourIndex::I1),
            2 => Ok(LineFourIndex::I2),
            3 => Ok(LineFourIndex::I3),
            4 => Ok(LineFourIndex::I4),
            5 => Ok(LineFourIndex::I5),
            6 => Ok(LineFourIndex::I6),
            _ => Err(()),
        }
    }
}

/// The columns `c < n` whose bit `c` is set in `mask`, in increasing order.
pub open spec fn columns_of_mask(mask: u8, n: nat) -> Seq<LineFourIndex>
    decreases n,
{
    if n == 0 {
        Seq::empty()
    } else {
        let rest = columns_of_mask(mask, (n - 1) as nat);
        if (mask >> (n - 1) as u8) & 1u8 == 1u8 {
            rest.push(column_move((n - 1) as u64))
        } else {
            rest
        }
    }
}

/// The columns `c < n` whose top cell is free on the board `all`, in increasing order.
pub open spec fn free_columns(all: u64, n: nat) -> Seq<LineFourIndex>
    decreases n,
{
    if n == 0 {
        Seq::empty()
    } else {
        let rest = free_columns(all, (n - 1) as nat);
        if bit64(all, ((n - 1) * 6 + 5) as u64) {
            rest
        } else {
            rest.push(column_move((n - 1) as u64))
        }
    }
}

/// The columns whose bit is set in `viable`, in increasing order.
pub fn moves_of_mask(viable: u8) -> (r: Vec<LineFourIndex>)
    ensures
        r@ == columns_of_mask(viable, 7),
{
    let mut r: Vec<LineFourIndex> = Vec::new();
    let mut j: u8 = 0;
    while j < 7
        invariant
            j <= 7,
            r@ == columns_of_mask(viable, j as nat),
        decreases 7 - j,
    {
        if (viable >> j) & 1 == 1 {
            let m = LineFourIndex::try_from(j as u32).unwrap();
            r.push(m);
        }
        j += 1;
    }
    r
}

/// For every 7-bit mask, the columns whose bit it sets, in increasing order.
pub fn line_four_move_set() -> (r: Vec<Vec<LineFourIndex>>)
    ensures
        r@.len() == 128,
        forall|i: int| 0 <= i < 128 ==> (#[trigger] r@[i])@ == columns_of_mask(i as u8, 7),
{
    let mut res: Vec<Vec<LineFourIndex>> = Vec::new();
    let mut i: u8 = 0;
    while i <= 0b0111_1111
        invariant
            i <= 128,
            res@.len() == i,
            forall|k: int| 0 <= k < i ==> (#[trigger] res@[k])@ == columns_of_mask(k as u8, 7),
        decreases 128 - i,
    {
        res.push(moves_of_mask(i));
        i += 1;
    }
    res
}

/// Connect-Four on 7 columns of 6 rows: one board word per player, cell (`c`, `r`) at bit
/// `c * 6 + r`, and the side to move.
#[derive(Copy, Clone, Debug, PartialEq, Eq, Structural, Hash)]
pub struct LineFourGame {
    set_by_p1: u64,
    set_by_p2: u64,
    turn: TwoPlayer,
}

/// The lowest free row of column `c` on the board `all` (6 when the column is full).
pub open spec fn height7(all: u64, c: u64) -> u32 {
    u64_trailing_ones((all >> (c * 6) as u64) & 0b111111u64)
}

/// The board of side `p`.
pub open spec fn mine7(v: (u64, u64, TwoPlayer), p: TwoPlayer) -> u64 {
    match p {
        TwoPlayer::P1 => v.0,
        TwoPlayer::P2 => v.1,
    }
}

/// How the game `v` has ended, seen from the side that moved last (which stays the side to
/// move once the game is over).
pub open spec fn outcome7(v: (u64, u64, TwoPlayer)) -> Option<Winner> {
    if has_four7(mine7(v, v.2)) {
        Some(Winner::WIN)
    } else if v.0 | v.1 == FULL_BOARD {
        Some(Winner::TIE)
    } else {
        None
    }
}

/// The game `v` after the side to move drops a piece into column `c`, and how the game ended;
/// `Err` where the game is over or the column is full.
pub open spec fn drop7(v: (u64, u64, TwoPlayer), c: u64) -> Result<((u64, u64, TwoPlayer), Option<Winner>), ()> {
    let h = height7(v.0 | v.1, c);
    if outcome7(v) is Some || h >= 6 {
        Err(())
    } else {
        let cell = 1u64 << (c * 6 + h) as u64;
        let placed = match v.2 {
            TwoPlayer::P1 => (v.0 | cell, v.1, v.2),
            TwoPlayer::P2 => (v.0, v.1 | cell, v.2),
        };
        if has_four7(mine7(placed, v.2)) {
            Ok((placed, Some(Winner::WIN)))
        } else if placed.0 | placed.1 == FULL_BOARD {
            Ok((placed, Some(Winner::TIE)))
        } else {
            Ok(((placed.0, placed.1, v.2.other()), None))
        }
    }
}

/// Both boards lie within the 42 cells and share none.
pub open spec fn valid7(v: (u64, u64, TwoPlayer)) -> bool {
    v.0 < (1u64 << 42u64) && v.1 < (1u64 << 42u64) && v.0 & v.1 == 0
}

impl View for LineFourGame {
    type V = (u64, u64, TwoPlayer);

    closed spec fn view(&self) -> (u64, u64, TwoPlayer) {
        (self.set_by_p1, self.set_by_p2, self.turn)
    }
}

impl LineFourGame {
    /// The game whose view is `v`.
    pub closed spec fn from_view(v: (u64, u64, TwoPlayer)) -> LineFourGame {
        LineFourGame { set_by_p1: v.0, set_by_p2: v.1, turn: v.2 }
    }

    /// Whether `board` holds four cells in a column, a row or a diagonal.
    pub fn has_won_in(board: u64) -> (r: bool)
        requires
            board < (1u64 << 42u64),
        ensures
            r == has_four7(board),
    {
        proof {
            lemma_vertical(board);
            lemma_horizontal(board);
            lemma_rising(board);
            lemma_falling(board);
        }
        if (board & board << 1u64 & board << 2u64 & board << 3u64) & VERTICAL_WON > 0 {
            return true;
        }
        if (board & board << 6u64 & board << 12u64 & board << 18u64) & HORIZONTAL_WON > 0 {
            return true;
        }
        if (board & board << 7u64 & board << 14u64 & board << 21u64) & LTRB_DIAGONAL > 0 {
            return true;
        }
        if (board & board << 5u64 & board << 10u64 & board << 15u64) & LBRT_DIAGONAL > 0 {
            return true;
        }
        false
    }

    /// How the game has ended, if it has.
    pub fn outcome(&self) -> (r: Option<Winner>)
        requires
            valid7(self@),
        ensures
            r == outcome7(self@),
    {
        let mine = match self.turn {
            TwoPlayer::P1 => self.set_by_p1,
            TwoPlayer::P2 => self.set_by_p2,
        };
        if Self::has_won_in(mine) {
            Some(Winner::WIN)
        } else if self.set_by_p1 | self.set_by_p2 == FULL_BOARD {
            Some(Winner::TIE)
        } else {
            None
        }
    }

    /// Drops a piece of the side to move into column `index`; reports how the game ended.
    pub fn set_at_index(&mut self, index: &LineFourIndex) -> (r: Result<Option<Winner>, ()>)
        requires
            valid7(old(self)@),
        ensures
            match drop7(old(self)@, column_of(*index)) {
                Ok((v, w)) => r == Ok::<Option<Winner>, ()>(w) && final(self)@ == v && valid7(v),
                Err(()) => r is Err && *final(self) == *old(self),
            },
    {
        if self.outcome().is_some() {
            return Err(());
        }
        let c = index.index();
        let all = self.set_by_p1 | self.set_by_p2;
        let column = (all >> (c * 6)) & 0b111111;
        let h = column.trailing_ones();
        proof {
            axiom_u64_trailing_ones(column);
            if h > 6 {
                assert((column >> 6u64) & 1u64 == 0u64) by (bit_vector)
                    requires
                        column == (all >> (c * 6)) & 0b111111u64,
                ;
            }
        }
        if h >= 6 {
            return Err(());
        }
        let set_index = (h as u64) + c * 6;
        let pnum: u64 = match self.turn {
            TwoPlayer::P1 => 1,
            TwoPlayer::P2 => 0,
        };
        let ghost old_v = self@;
        proof {
            assert((column >> (h as u64)) & 1u64 == 0u64);
            let hh = h as u64;
            let p1 = old_v.0;
            let p2 = old_v.1;
            assert(column == (all >> (c * 6)) & 0b111111u64 && (column >> hh) & 1u64 == 0u64 && hh < 6
                && c <= 6 && all == p1 | p2 && p1 < (1u64 << 42u64) && p2 < (1u64 << 42u64) && p1 & p2
                == 0 ==> (p1 | (1u64 << (hh + c * 6))) < (1u64 << 42u64) && (p2 | (1u64 << (hh + c * 6)))
                < (1u64 << 42u64) && (p1 | (1u64 << (hh + c * 6))) & p2 == 0 && p1 & (p2 | (1u64 << (hh
                + c * 6))) == 0) by (bit_vector);
            assert(p1 | (0u64 << (hh + c * 6)) == p1 && p2 | (0u64 << (hh + c * 6)) == p2 && (1u64 ^ 1u64)
                == 0u64 && (0u64 ^ 1u64) == 1u64) by (bit_vector);
        }
        self.set_by_p1 = self.set_by_p1 | (pnum << set_index);
        self.set_by_p2 = self.set_by_p2 | ((pnum ^ 1) << set_index);
        let board = if pnum == 1 {
            self.set_by_p1
        } else {
            self.set_by_p2
        };
        if Self::has_won_in(board) {
            Ok(Some(Winner::WIN))
        } else if self.set_by_p2 | self.set_by_p1 == FULL_BOARD {
            proof {
                let a = self.set_by_p1;
                let b = self.set_by_p2;
                assert((b | a == a | b)) by (bit_vector);
            }
            Ok(Some(Winner::TIE))
        } else {
            proof {
                let a = self.set_by_p1;
                let b = self.set_by_p2;
                assert((b | a == a | b)) by (bit_vector);
            }
            self.turn = self.turn.next();
            Ok(None)
        }
    }
}

impl MonteCarloGame for LineFourGame {
    type MOVE = LineFourIndex;

    open spec fn valid(&self) -> bool {
        valid7(self@)
    }

    open spec fn spec_initial() -> Self {
        LineFourGame::from_view((0, 0, TwoPlayer::P1))
    }

    open spec fn spec_moves(&self) -> Seq<LineFourIndex> {
        if outcome7(self@) is Some {
            Seq::empty()
        } else {
            free_columns(self@.0 | self@.1, 7)
        }
    }

    open spec fn spec_apply(&self, m: LineFourIndex) -> Result<(Self, Option<Winner>), ()> {
        match drop7(self@, column_of(m)) {
            Ok((v, w)) => Ok((LineFourGame::from_view(v), w)),
            Err(()) => Err(()),
        }
    }

    open spec fn spec_player(&self) -> TwoPlayer {
        self@.2
    }

    fn new() -> (r: Self) {
        let r = LineFourGame { set_by_p1: 0, set_by_p2: 0, turn: TwoPlayer::P1 };
        assert(0u64 < (1u64 << 42u64) && 0u64 & 0u64 == 0u64) by (bit_vector);
        r
    }

    fn moves(&self) -> (r: Vec<LineFourIndex>) {
        if self.outcome().is_some() {
            return Vec::new();
        }
        let used = self.set_by_p1 | self.set_by_p2;
        let mut viable: u8 = 0;
        let mut i: u64 = 0;
        assert(forall|j: u8| j < 8 ==> (0u8 >> j) & 1u8 == 0u8) by (bit_vector);
        while i < 7
            invariant
                i <= 7,
                used == self@.0 | self@.1,
                forall|j: u8| j < 8 ==> ((#[trigger] ((viable >> j) & 1u8) == 1u8) <==> (j < i && !bit64(used, (j * 6 + 5) as u64))),
            decreases 7 - i,
        {
            let mask: u64 = 1u64 << i;
            let shift_by = 5 * (i + 1);
            let column = used >> shift_by;
            let column_top = column & mask;
            let column_free = column_top ^ mask;
            let ghost before = viable;
            proof {
                assert(i < 7 ==> column_free < 256 && ((column_free == 0) <==> (used >> (i * 6 + 5)) & 1u64 == 1u64) && (column_free == 0 || column_free == 1u64 << i)) by (bit_vector)
                    requires
                        mask == 1u64 << i,
                        shift_by == 5 * (i + 1),
                        column == used >> shift_by,
                        column_top == column & mask,
                        column_free == column_top ^ mask,
                ;
            }
            viable = viable | (column_free as u8);
            proof {
                let cf = column_free as u8;
                let ii = i as u8;
                assert((cf == 0 || cf == 1u8 << ii) && ((cf == 0) == (column_free == 0))) by (bit_vector)
                    requires
                        i < 7,
                        ii == i as u8,
                        cf == column_free as u8,
                        column_free == 0 || column_free == 1u64 << i,
                ;
                assert(ii as int == i as int);
                assert(forall|j: u8| j < 8 ==> ((((before | cf) >> j) & 1u8 == 1u8) <==> (((before >> j) & 1u8 == 1u8) || (cf != 0 && j == ii)))) by (bit_vector)
                    requires
                        ii < 7,
                        cf == 0 || cf == 1u8 << ii,
                ;
                assert forall|j: u8| j < 8 implies ((#[trigger] ((viable >> j) & 1u8) == 1u8) <==> (j < i + 1 && !bit64(used, (j * 6 + 5) as u64))) by {
                    if j == ii {
                        assert(((j * 6 + 5) as u64) == i * 6 + 5);
                    } else {
                        assert(j as int != i as int);
                    }
                    assert(((before >> j) & 1u8 == 1u8) <==> (j < i && !bit64(used, (j * 6 + 5) as u64)));
                }
            }
            i += 1;
        }
        proof {
            self.lemma_columns(viable, used, 7);
        }
        moves_of_mask(viable)
    }

    fn make_move(&self, m: &LineFourIndex) -> (r: Result<(Self, Option<Winner>), ()>) {
        let mut new = *self;
        match new.set_at_index(m) {
            Ok(res) => Ok((new, res)),
            Err(()) => Err(()),
        }
    }

    fn player(&self) -> (r: TwoPlayer) {
        self.turn
    }

    open spec fn spec_key(&self) -> u64 {
        self@.0 ^ (self@.1 << 1u64) ^ (if self@.2 == TwoPlayer::P1 {
            1u64
        } else {
            0u64
        })
    }

    fn position_key(&self) -> (r: u64) {
        let turn_bit: u64 = match self.turn {
            TwoPlayer::P1 => 1,
            TwoPlayer::P2 => 0,
        };
        self.set_by_p1 ^ (self.set_by_p2 << 1u64) ^ turn_bit
    }

    fn is_valid(&self) -> (r: bool) {
        self.set_by_p1 < (1u64 << 42u64) && self.set_by_p2 < (1u64 << 42u64) && self.set_by_p1 & self.set_by_p2 == 0
    }

    fn same_position(&self, other: &Self) -> (r: bool) {
        self.set_by_p1 == other.set_by_p1 && self.set_by_p2 == other.set_by_p2 && self.turn == other.turn
    }
}

impl LineFourGame {
    proof fn lemma_columns(&self, viable: u8, used: u64, n: nat)
        requires
            n <= 7,
            forall|j: u8| j < 8 ==> ((#[trigger] ((viable >> j) & 1u8) == 1u8) <==> (j < 7 && !bit64(used, (j * 6 + 5) as u64))),
        ensures
            columns_of_mask(viable, n) == free_columns(used, n),
        decreases n,
    {
        if n > 0 {
            self.lemma_columns(viable, used, (n - 1) as nat);
            let j = (n - 1) as u8;
            assert(((viable >> j) & 1u8) == 1u8 <==> !bit64(used, (j * 6 + 5) as u64));
        }
    }
}

impl CheckWinMonteCarloGame for LineFourGame {
    open spec fn spec_win_state(&self) -> Option<Winner> {
        outcome7(self@)
    }

    fn win_state(&self) -> (r: Option<Winner>) {
        self.outcome()
    }
}

} // verus!
