use crate::bits::{bit64, lemma_and4_shl, lemma_and4_shr, lemma_and_nonzero};
use crate::game::{CheckWinMonteCarloGame, MonteCarloGame, TwoPlayer, Winner};
use vstd::prelude::*;
use vstd::std_specs::bits::{axiom_u64_trailing_zeros, axiom_u8_trailing_zeros, u64_trailing_zeros, u8_trailing_zeros};

verus! {

/// Cells where a four along a row can end: columns 3 to 7 of each row.
pub const WON_ROW: u64 = 0xF8_F8_F8_F8_F8_F8_F8_F8;

/// Cells where a four along a column can end: rows 3 to 7.
pub const WON_COLUMN: u64 = 0xFF_FF_FF_FF_FF_00_00_00;

/// Cells where a falling diagonal four can start: rows 0 to 4, columns 3 to 7.
pub const WON_LBRT: u64 = 0x00_00_00_F8_F8_F8_F8_F8;

/// Cells where a rising diagonal four can end: rows 3 to 7, columns 3 to 7.
pub const WON_LTRB: u64 = 0xF8_F8_F8_F8_F8_00_00_00;

/// One cell in each row of the leftmost column.
pub const COLUMN_MASK: u64 = 0x01_01_01_01_01_01_01_01;

/// Cell (`c`, `r`), column `c` from the left and row `r` from the bottom, is set in the 8x8
/// board `b`, whose bit `r * 8 + c` stands for it.
pub open spec fn cell8(b: u64, c: int, r: int) -> bool {
    0 <= c < 8 && 0 <= r < 8 && bit64(b, (r * 8 + c) as u64)
}

/// Four set cells in a row from (`c`, `r`) in step (`dc`, `dr`).
pub open spec fn four8(b: u64, c: int, r: int, dc: int, dr: int) -> bool {
    &&& cell8(b, c, r)
    &&& cell8(b, c + dc, r + dr)
    &&& cell8(b, c + 2 * dc, r + 2 * dr)
    &&& cell8(b, c + 3 * dc, r + 3 * dr)
}

/// Some four set cells lie in a row in step (`dc`, `dr`).
pub open spec fn line8(b: u64, dc: int, dr: int) -> bool {
    exists|c: int, r: int| #[trigger] four8(b, c, r, dc, dr)
}

/// Four set cells lie in a row, a column or a diagonal.
pub open spec fn has_four8(b: u64) -> bool {
    line8(b, 1, 0) || line8(b, 0, 1) || line8(b, 1, 1) || line8(b, 1, -1)
}

proof fn lemma_masks8(i: u64)
    requires
        i < 64,
    ensures
        bit64(WON_ROW, i) <==> i % 8 >= 3,
        bit64(WON_COLUMN, i) <==> i >= 24,
        bit64(WON_LBRT, i) <==> (i < 40 && i % 8 >= 3),
        bit64(WON_LTRB, i) <==> (i >= 24 && i % 8 >= 3),
{
    assert(i < 64 ==> ((((0xF8_F8_F8_F8_F8_F8_F8_F8u64 >> i) & 1u64 == 1u64) <==> i % 8 >= 3) && (((
    0xFF_FF_FF_FF_FF_00_00_00u64 >> i) & 1u64 == 1u64) <==> i >= 24) && (((0x00_00_00_F8_F8_F8_F8_F8u64
        >> i) & 1u64 == 1u64) <==> (i < 40 && i % 8 >= 3)) && (((0xF8_F8_F8_F8_F8_00_00_00u64 >> i) & 1u64
        == 1u64) <==> (i >= 24 && i % 8 >= 3)))) by (bit_vector);
}

/// The row test finds exactly the fours along a row.
proof fn lemma_row8(b: u64)
    ensures
        ((b & (b << 1u64) & (b << 2u64) & (b << 3u64)) & WON_ROW > 0) == line8(b, 1, 0),
{
    let x = b & (b << 1u64) & (b << 2u64) & (b << 3u64);
    lemma_and_nonzero(x, WON_ROW);
    if x & WON_ROW > 0 {
        let i = choose|i: u64| i < 64 && #[trigger] bit64(x, i) && bit64(WON_ROW, i);
        lemma_and4_shl(b, 1, 2, 3, i);
        lemma_masks8(i);
        assert(four8(b, i as int % 8 - 3, i as int / 8, 1, 0));
    }
    if line8(b, 1, 0) {
        let (c, r) = choose|c: int, r: int| #[trigger] four8(b, c, r, 1, 0);
        let i = (r * 8 + c + 3) as u64;
        lemma_and4_shl(b, 1, 2, 3, i);
        lemma_masks8(i);
        assert(bit64(x, i) && bit64(WON_ROW, i));
    }
}

/// The column test finds exactly the fours along a column.
proof fn lemma_column8(b: u64)
    ensures
        ((b & (b << 8u64) & (b << 16u64) & (b << 24u64)) & WON_COLUMN > 0) == line8(b, 0, 1),
{
    let x = b & (b << 8u64) & (b << 16u64) & (b << 24u64);
    lemma_and_nonzero(x, WON_COLUMN);
    if x & WON_COLUMN > 0 {
        let i = choose|i: u64| i < 64 && #[trigger] bit64(x, i) && bit64(WON_COLUMN, i);
        lemma_and4_shl(b, 8, 16, 24, i);
        lemma_masks8(i);
        assert(four8(b, i as int % 8, i as int / 8 - 3, 0, 1));
    }
    if line8(b, 0, 1) {
        let (c, r) = choose|c: int, r: int| #[trigger] four8(b, c, r, 0, 1);
        let i = (r * 8 + c + 24) as u64;
        lemma_and4_shl(b, 8, 16, 24, i);
        lemma_masks8(i);
        assert(bit64(x, i) && bit64(WON_COLUMN, i));
    }
}

/// The falling diagonal test finds exactly the falling diagonal fours.
proof fn lemma_falling8(b: u64)
    ensures
        ((b & (b >> 7u64) & (b >> 14u64) & (b >> 21u64)) & WON_LBRT > 0) == line8(b, 1, -1),
{
    let x = b & (b >> 7u64) & (b >> 14u64) & (b >> 21u64);
    lemma_and_nonzero(x, WON_LBRT);
    if x & WON_LBRT > 0 {
        let i = choose|i: u64| i < 64 && #[trigger] bit64(x, i) && bit64(WON_LBRT, i);
        lemma_and4_shr(b, 7, 14, 21, i);
        lemma_masks8(i);
        assert(four8(b, i as int % 8 - 3, i as int / 8 + 3, 1, -1));
    }
    if line8(b, 1, -1) {
        let (c, r) = choose|c: int, r: int| #[trigger] four8(b, c, r, 1, -1);
        let i = ((r - 3) * 8 + c + 3) as u64;
        lemma_and4_shr(b, 7, 14, 21, i);
        lemma_masks8(i);
        assert(bit64(x, i) && bit64(WON_LBRT, i));
    }
}

/// The rising diagonal test finds exactly the rising diagonal fours.
proof fn lemma_rising8(b: u64)
    ensures
        ((b & (b << 9u64) & (b << 18u64) & (b << 27u64)) & WON_LTRB > 0) == line8(b, 1, 1),
{
    let x = b & (b << 9u64) & (b << 18u64) & (b << 27u64);
    lemma_and_nonzero(x, WON_LTRB);
    if x & WON_LTRB > 0 {
        let i = choose|i: u64| i < 64 && #[trigger] bit64(x, i) && bit64(WON_LTRB, i);
        lemma_and4_shl(b, 9, 18, 27, i);
        lemma_masks8(i);
        assert(four8(b, i as int % 8 - 3, i as int / 8 - 3, 1, 1));
    }
    if line8(b, 1, 1) {
        let (c, r) = choose|c: int, r: int| #[trigger] four8(b, c, r, 1, 1);
        let i = ((r + 3) * 8 + c + 3) as u64;
        lemma_and4_shl(b, 9, 18, 27, i);
        lemma_masks8(i);
        assert(bit64(x, i) && bit64(WON_LTRB, i));
    }
}

/// A column of the 8-column board, `I0` on the left.
#[derive(Copy, Clone, Debug, PartialEq, Eq, Structural, Hash)]
pub enum LineFour8x8Index {
    I0,
    I1,
    I2,
    I3,
    I4,
    I5,
    I6,
    I7,
}

/// The column of `m`, 0 to 7.
pub open spec fn column8_of(m: LineFour8x8Index) -> u64 {
    match m {
        LineFour8x8Index::I0 => 0,
        LineFour8x8Index::I1 => 1,
        LineFour8x8Index::I2 => 2,
        LineFour8x8Index::I3 => 3,
        LineFour8x8Index::I4 => 4,
        LineFour8x8Index::I5 => 5,
        LineFour8x8Index::I6 => 6,
        LineFour8x8Index::I7 => 7,
    }
}

impl LineFour8x8Index {
    /// The column of this move, 0 to 7.
    pub fn index(&self) -> (r: u64)
        ensures
            r == column8_of(*self),
    {
        match self {
            LineFour8x8Index::I0 => 0,
            LineFour8x8Index::I1 => 1,
            LineFour8x8Index::I2 => 2,
            LineFour8x8Index::I3 => 3,
            LineFour8x8Index::I4 => 4,
            LineFour8x8Index::I5 => 5,
            LineFour8x8Index::I6 => 6,
            LineFour8x8Index::I7 => 7,
        }
    }

    /// The move into column `num`, or `Err` where there is no such column.
    pub fn try_from(num: u64) -> (r: Result<LineFour8x8Index, ()>)
        ensures
            num < 8 <==> r is Ok,
            r is Ok ==> column8_of(r->Ok_0) == num,
    {
        match num {
            0 => Ok(LineFour8x8Index::I0),
            1 => Ok(LineFour8x8Index::I1),
            2 => Ok(LineFour8x8Index::I2),
            3 => Ok(LineFour8x8Index::I3),
            4 => Ok(LineFour8x8Index::I4),
            5 => Ok(LineFour8x8Index::I5),
            6 => Ok(LineFour8x8Index::I6),
            7 => Ok(LineFour8x8Index::I7),
            _ => Err(()),
        }
    }
}

/// The number of bits set in `x` below bit `n`.
pub open spec fn ones8(x: u8, n: nat) -> nat
    decreases n,
{
    if n == 0 {
        0
    } else {
        ones8(x, (n - 1) as nat) + if (x >> (n - 1) as u8) & 1u8 == 1u8 {
            1nat
        } else {
            0nat
        }
    }
}

/// The columns still to hand out, one bit each.
pub struct AdHocMoves {
    pub remaining: u8,
}

impl AdHocMoves {
    /// Hands out the lowest column left, if any.
    pub fn next(&mut self) -> (r: Option<LineFour8x8Index>)
        ensures
            old(self).remaining == 0 <==> r is None,
            r is Some ==> {
                let t = u8_trailing_zeros(old(self).remaining);
                &&& column8_of(r->Some_0) == t
                &&& final(self).remaining == old(self).remaining ^ (1u8 << t as u8)
            },
            r is None ==> final(self).remaining == 0,
    {
        let next = self.remaining.trailing_zeros();
        proof {
            axiom_u8_trailing_zeros(self.remaining);
        }
        if next == 8 {
            None
        } else {
            self.remaining = self.remaining ^ (1u8 << (next as u8));
            LineFour8x8Index::try_from(next as u64).ok()
        }
    }

    /// The number of columns left, as a lower and an upper bound.
    pub fn size_hint(&self) -> (r: (usize, Option<usize>))
        ensures
            r.0 == ones8(self.remaining, 8),
            r.1 == Some(r.0),
    {
        let mut n: usize = 0;
        let mut j: u8 = 0;
        while j < 8
            invariant
                j <= 8,
                n == ones8(self.remaining, j as nat),
                n <= j,
            decreases 8 - j,
        {
            if (self.remaining >> j) & 1 == 1 {
                n += 1;
            }
            j += 1;
        }
        (n, Some(n))
    }
}

/// The columns `c < n` whose bit `c` is set in `mask`, in increasing order.
pub open spec fn columns8_of_mask(mask: u8, n: nat) -> Seq<LineFour8x8Index>
    decreases n,
{
    if n == 0 {
        Seq::empty()
    } else {
        let rest = columns8_of_mask(mask, (n - 1) as nat);
        if (mask >> (n - 1) as u8) & 1u8 == 1u8 {
            rest.push(column8_move((n - 1) as u64))
        } else {
            rest
        }
    }
}

/// The move into column `c`, for `c < 8`.
pub open spec fn column8_move(c: u64) -> LineFour8x8Index {
    if c == 0 {
        LineFour8x8Index::I0
    } else if c == 1 {
        LineFour8x8Index::I1
    } else if c == 2 {
        LineFour8x8Index::I2
    } else if c == 3 {
        LineFour8x8Index::I3
    } else if c == 4 {
        LineFour8x8Index::I4
    } else if c == 5 {
        LineFour8x8Index::I5
    } else if c == 6 {
        LineFour8x8Index::I6
    } else {
        LineFour8x8Index::I7
    }
}

/// Connect-Four on 8 columns of 8 rows: one board word per player, cell (`c`, `r`) at bit
/// `r * 8 + c`, and the side to move.
#[derive(Copy, Clone, Debug, PartialEq, Eq, Structural, Hash)]
pub struct LineFour8x8 {
    set_by_p1: u64,
    set_by_p2: u64,
    player: TwoPlayer,
}

/// The board of side `p`.
pub open spec fn mine8(v: (u64, u64, TwoPlayer), p: TwoPlayer) -> u64 {
    match p {
        TwoPlayer::P1 => v.0,
        TwoPlayer::P2 => v.1,
    }
}

/// How the game `v` has ended, seen from the side that moved last (which stays the side to
/// move once the game is over).
pub open spec fn outcome8(v: (u64, u64, TwoPlayer)) -> Option<Winner> {
    if has_four8(mine8(v, v.2)) {
        Some(Winner::WIN)
    } else if v.0 | v.1 == u64::MAX {
        Some(Winner::TIE)
    } else {
        None
    }
}

/// The free cells of column `c` on the board `all`.
pub open spec fn free_in_column(all: u64, c: u64) -> u64 {
    (COLUMN_MASK << c) ^ (all & (COLUMN_MASK << c))
}

/// The game `v` after the side to move drops a piece into column `c` (onto its lowest free
/// cell), and how the game ended; `Err` where the game is over or the column is full.
pub open spec fn drop8(v: (u64, u64, TwoPlayer), c: u64) -> Result<((u64, u64, TwoPlayer), Option<Winner>), ()> {
    let free = free_in_column(v.0 | v.1, c);
    if outcome8(v) is Some || free == 0 {
        Err(())
    } else {
        let cell = 1u64 << u64_trailing_zeros(free) as u64;
        let placed = match v.2 {
            TwoPlayer::P1 => (v.0 | cell, v.1, v.2),
            TwoPlayer::P2 => (v.0, v.1 | cell, v.2),
        };
        if has_four8(mine8(placed, v.2)) {
            Ok((placed, Some(Winner::WIN)))
        } else if placed.0 | placed.1 == u64::MAX {
            Ok((placed, Some(Winner::TIE)))
        } else {
            Ok(((placed.0, placed.1, v.2.other()), None))
        }
    }
}

impl View for LineFour8x8 {
    type V = (u64, u64, TwoPlayer);

    closed spec fn view(&self) -> (u64, u64, TwoPlayer) {
        (self.set_by_p1, self.set_by_p2, self.player)
    }
}

impl LineFour8x8 {
    /// The game whose view is `v`.
    pub closed spec fn from_view(v: (u64, u64, TwoPlayer)) -> LineFour8x8 {
        LineFour8x8 { set_by_p1: v.0, set_by_p2: v.1, player: v.2 }
    }

    /// Whether `board` holds four cells in a row, a column or a diagonal.
    pub fn won(board: u64) -> (r: bool)
        ensures
            r == has_four8(board),
    {
        proof {
            lemma_row8(board);
            lemma_column8(board);
            lemma_falling8(board);
            lemma_rising8(board);
        }
        if (board & board << 1u64 & board << 2u64 & board << 3u64) & WON_ROW > 0 {
            return true;
        }
        if (board & board << 8u64 & board << 16u64 & board << 24u64) & WON_COLUMN > 0 {
            return true;
        }
        if (board & board >> 7u64 & board >> 14u64 & board >> 21u64) & WON_LBRT > 0 {
            return true;
        }
        if (board & board << 9u64 & board << 18u64 & board << 27u64) & WON_LTRB > 0 {
            return true;
        }
        false
    }

    /// How the game has ended, if it has.
    pub fn outcome(&self) -> (r: Option<Winner>)
        ensures
            r == outcome8(self@),
    {
        let mine = match self.player {
            TwoPlayer::P1 => self.set_by_p1,
            TwoPlayer::P2 => self.set_by_p2,
        };
        if Self::won(mine) {
            Some(Winner::WIN)
        } else if self.set_by_p1 | self.set_by_p2 == u64::MAX {
            Some(Winner::TIE)
        } else {
            None
        }
    }

    /// The columns whose top cell is free, to hand out one by one; none once the game is over.
    pub fn column_moves(&self) -> (r: AdHocMoves)
        ensures
            outcome8(self@) is Some ==> r.remaining == 0,
            outcome8(self@) is None ==> r.remaining == (!(self@.0 | self@.1) >> 56u64) as u8,
    {
        if self.outcome().is_some() {
            return AdHocMoves { remaining: 0 };
        }
        let all_set = self.set_by_p2 | self.set_by_p1;
        let all_unset = !all_set;
        let unset_top_row = all_unset >> 56u64;
        proof {
            let a = self.set_by_p1;
            let b = self.set_by_p2;
            assert(b | a == a | b) by (bit_vector);
        }
        AdHocMoves { remaining: unset_top_row as u8 }
    }
}

impl MonteCarloGame for LineFour8x8 {
    type MOVE = LineFour8x8Index;

    open spec fn valid(&self) -> bool {
        true
    }

    open spec fn spec_initial() -> Self {
        LineFour8x8::from_view((0, 0, TwoPlayer::P1))
    }

    open spec fn spec_moves(&self) -> Seq<LineFour8x8Index> {
        if outcome8(self@) is Some {
            Seq::empty()
        } else {
            columns8_of_mask((!(self@.0 | self@.1) >> 56u64) as u8, 8)
        }
    }

    open spec fn spec_apply(&self, m: LineFour8x8Index) -> Result<(Self, Option<Winner>), ()> {
        match drop8(self@, column8_of(m)) {
            Ok((v, w)) => Ok((LineFour8x8::from_view(v), w)),
            Err(()) => Err(()),
        }
    }

    open spec fn spec_player(&self) -> TwoPlayer {
        self@.2
    }

    fn new() -> (r: Self) {
        LineFour8x8 { set_by_p1: 0, set_by_p2: 0, player: TwoPlayer::P1 }
    }

    fn moves(&self) -> (r: Vec<LineFour8x8Index>) {
        let mask = self.column_moves().remaining;
        let mut r: Vec<LineFour8x8Index> = Vec::new();
        let mut j: u8 = 0;
        while j < 8
            invariant
                j <= 8,
                r@ == columns8_of_mask(mask, j as nat),
            decreases 8 - j,
        {
            if (mask >> j) & 1 == 1 {
                let m = LineFour8x8Index::try_from(j as u64).unwrap();
                proof {
                    assert(m == column8_move(j as u64));
                }
                r.push(m);
            }
            j += 1;
        }
        proof {
            if outcome8(self@) is Some {
                assert forall|k: nat| k <= 8 implies columns8_of_mask(0u8, k) == Seq::<LineFour8x8Index>::empty() by {
                    self.lemma_no_columns(k);
                }
            }
        }
        r
    }

    fn make_move(&self, m: &LineFour8x8Index) -> (r: Result<(Self, Option<Winner>), ()>) {
        if self.outcome().is_some() {
            return Err(());
        }
        let index = m.index();
        let column_mask = COLUMN_MASK << index;
        let all_set = self.set_by_p1 | self.set_by_p2;
        let set_in_column = all_set & column_mask;
        let not_set_in_column = column_mask ^ set_in_column;
        let set_index = not_set_in_column.trailing_zeros();
        if not_set_in_column == 0 {
            return Err(());
        }
        proof {
            axiom_u64_trailing_zeros(not_set_in_column);
        }
        let pnum: u64 = match self.player {
            TwoPlayer::P1 => 1,
            TwoPlayer::P2 => 0,
        };
        let new_p1 = self.set_by_p1 | (pnum << set_index);
        let new_p2 = self.set_by_p2 | ((pnum ^ 1) << set_index);
        proof {
            let p1 = self.set_by_p1;
            let p2 = self.set_by_p2;
            let s = set_index as u64;
            assert(p1 | (0u64 << s) == p1 && p2 | (0u64 << s) == p2 && (1u64 ^ 1u64) == 0u64 && (0u64
                ^ 1u64) == 1u64) by (bit_vector);
        }
        let check_board = match self.player {
            TwoPlayer::P1 => new_p1,
            TwoPlayer::P2 => new_p2,
        };
        let new_player: TwoPlayer;
        let winner: Option<Winner>;
        if Self::won(check_board) {
            new_player = self.player;
            winner = Some(Winner::WIN);
        } else if new_p2 | new_p1 == u64::MAX {
            new_player = self.player;
            winner = Some(Winner::TIE);
        } else {
            new_player = self.player.next();
            winner = None;
        }
        proof {
            assert(new_p2 | new_p1 == new_p1 | new_p2) by (bit_vector);
        }
        let new_state = LineFour8x8 { set_by_p1: new_p1, set_by_p2: new_p2, player: new_player };
        Ok((new_state, winner))
    }

    fn player(&self) -> (r: TwoPlayer) {
        self.player
    }

    open spec fn spec_key(&self) -> u64 {
        self@.0 ^ (self@.1 << 1u64) ^ (if self@.2 == TwoPlayer::P1 {
            1u64
        } else {
            0u64
        })
    }

    fn position_key(&self) -> (r: u64) {
        let turn_bit: u64 = match self.player {
            TwoPlayer::P1 => 1,
            TwoPlayer::P2 => 0,
        };
        self.set_by_p1 ^ (self.set_by_p2 << 1u64) ^ turn_bit
    }

    fn is_valid(&self) -> (r: bool) {
        true
    }

    fn same_position(&self, other: &Self) -> (r: bool) {
        self.set_by_p1 == other.set_by_p1 && self.set_by_p2 == other.set_by_p2 && self.player == other.player
    }
}

impl LineFour8x8 {
    proof fn lemma_no_columns(&self, k: nat)
        requires
            k <= 8,
        ensures
            columns8_of_mask(0u8, k) == Seq::<LineFour8x8Index>::empty(),
        decreases k,
    {
        if k > 0 {
            self.lemma_no_columns((k - 1) as nat);
            let j = (k - 1) as u8;
            assert((0u8 >> j) & 1u8 == 0u8) by (bit_vector);
        }
    }
}

impl CheckWinMonteCarloGame for LineFour8x8 {
    open spec fn spec_win_state(&self) -> Option<Winner> {
        outcome8(self@)
    }

    fn win_state(&self) -> (r: Option<Winner>) {
        self.outcome()
    }
}

} // verus!
