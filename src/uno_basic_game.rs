use vstd::prelude::*;

verus! {

/// `s` rotated right by `k`: its last `k` elements move to the front.
pub open spec fn rotated_right(s: Seq<u8>, k: int) -> Seq<u8> {
    s.subrange(s.len() - k, s.len() as int) + s.subrange(0, s.len() - k)
}

/// `s` rotated left by `k`: its first `k` elements move to the back.
pub open spec fn rotated_left(s: Seq<u8>, k: int) -> Seq<u8> {
    s.subrange(k, s.len() as int) + s.subrange(0, k)
}

proof fn lemma_rotate_right_twice(s: Seq<u8>, a: int, b: int)
    requires
        0 <= a,
        0 <= b,
        a + b <= s.len(),
    ensures
        rotated_right(rotated_right(s, a), b) =~= rotated_right(s, a + b),
{
}

proof fn lemma_rotate_left_twice(s: Seq<u8>, a: int, b: int)
    requires
        0 <= a,
        0 <= b,
        a + b <= s.len(),
    ensures
        rotated_left(rotated_left(s, a), b) =~= rotated_left(s, a + b),
{
}

proof fn lemma_rotate_none(s: Seq<u8>)
    ensures
        rotated_right(s, 0) =~= s,
        rotated_left(s, 0) =~= s,
{
}

/// Rotates `mem` right by `by`, at most 32, in one pass through a buffer.
pub fn rotate_by_fixed(mem: &mut [u8], by: usize)
    requires
        by <= 32,
        by <= old(mem)@.len(),
    ensures
        final(mem)@ =~= rotated_right(old(mem)@, by as int),
{
    let mem_len = mem.len();
    let mut buf: Vec<u8> = Vec::new();
    let mut k: usize = mem_len - by;
    while k < mem_len
        invariant
            mem_len == mem@.len(),
            mem@ == old(mem)@,
            by <= mem_len,
            mem_len - by <= k <= mem_len,
            buf@.len() == k - (mem_len - by),
            forall|p: int| 0 <= p < buf@.len() ==> buf@[p] == mem@[mem_len - by + p],
        decreases mem_len - k,
    {
        buf.push(mem[k]);
        k += 1;
    }
    let mut j: usize = mem_len;
    while j > by
        invariant
            mem_len == mem@.len(),
            by <= j <= mem_len,
            forall|p: int| j <= p < mem_len ==> mem@[p] == old(mem)@[p - by],
            forall|p: int| 0 <= p < j ==> mem@[p] == old(mem)@[p],
        decreases j,
    {
        let v = mem[j - 1 - by];
        mem[j - 1] = v;
        j -= 1;
    }
    let mut i: usize = 0;
    while i < by
        invariant
            mem_len == mem@.len(),
            i <= by <= mem_len,
            buf@.len() == by,
            forall|p: int| 0 <= p < by ==> buf@[p] == old(mem)@[mem_len - by + p],
            forall|p: int| by <= p < mem_len ==> mem@[p] == old(mem)@[p - by],
            forall|p: int| 0 <= p < i ==> mem@[p] == old(mem)@[mem_len - by + p],
        decreases by - i,
    {
        mem[i] = buf[i];
        i += 1;
    }
}

/// Rotates `mem` left by `by`, at most 32, in one pass through a buffer.
pub fn rotate_by_reverse_fixed(mem: &mut [u8], by: usize)
    requires
        by <= 32,
        by <= old(mem)@.len(),
    ensures
        final(mem)@ =~= rotated_left(old(mem)@, by as int),
{
    let mem_len = mem.len();
    let mut buf: Vec<u8> = Vec::new();
    let mut k: usize = 0;
    while k < by
        invariant
            mem_len == mem@.len(),
            mem@ == old(mem)@,
            k <= by <= mem_len,
            buf@.len() == k,
            forall|p: int| 0 <= p < k ==> buf@[p] == mem@[p],
        decreases by - k,
    {
        buf.push(mem[k]);
        k += 1;
    }
    let mut j: usize = 0;
    while j < mem_len - by
        invariant
            mem_len == mem@.len(),
            by <= mem_len,
            j <= mem_len - by,
            forall|p: int| 0 <= p < j ==> mem@[p] == old(mem)@[p + by],
            forall|p: int| j <= p < mem_len ==> mem@[p] == old(mem)@[p],
        decreases mem_len - by - j,
    {
        let v = mem[j + by];
        mem[j] = v;
        j += 1;
    }
    let mut i: usize = 0;
    while i < by
        invariant
            mem_len == mem@.len(),
            i <= by <= mem_len,
            buf@.len() == by,
            forall|p: int| 0 <= p < by ==> buf@[p] == old(mem)@[p],
            forall|p: int| 0 <= p < mem_len - by ==> mem@[p] == old(mem)@[p + by],
            forall|p: int| 0 <= p < i ==> mem@[mem_len - by + p] == old(mem)@[p],
        decreases by - i,
    {
        mem[mem_len - by + i] = buf[i];
        i += 1;
    }
}

/// Rotates `mem` right by `by` (its last `by` elements move to the front); leaves it as it
/// is where `by` is at least 1 and not below its length.
pub fn rotate_by(mem: &mut [u8], by: usize)
    ensures
        if old(mem)@.len() <= by && by >= 1 {
            final(mem)@ == old(mem)@
        } else {
            final(mem)@ == rotated_right(old(mem)@, by as int)
        },
{
    if mem.len() <= by && by >= 1 {
        return;
    }
    proof {
        lemma_rotate_none(mem@);
    }
    let rounds = by / 32;
    let mut k: usize = 0;
    while k < rounds
        invariant
            k <= rounds,
            rounds == by / 32,
            by <= old(mem)@.len(),
            mem@.len() == old(mem)@.len(),
            mem@ == rotated_right(old(mem)@, 32 * k),
        decreases rounds - k,
    {
        let ghost before = mem@;
        rotate_by_fixed(mem, 32);
        proof {
            lemma_rotate_right_twice(old(mem)@, 32 * k, 32);
        }
        k += 1;
    }
    if by % 32 > 0 {
        let ghost before = mem@;
        rotate_by_fixed(mem, by % 32);
        proof {
            lemma_rotate_right_twice(old(mem)@, 32 * rounds, (by % 32) as int);
        }
    }
}

/// Rotates `mem` left by `by` (its first `by` elements move to the back); leaves it as it
/// is where `by` is at least 1 and not below its length.
pub fn rotate_by_reverse(mem: &mut [u8], by: usize)
    ensures
        if old(mem)@.len() <= by && by >= 1 {
            final(mem)@ == old(mem)@
        } else {
            final(mem)@ == rotated_left(old(mem)@, by as int)
        },
{
    if mem.len() <= by && by >= 1 {
        return;
    }
    proof {
        lemma_rotate_none(mem@);
    }
    let rounds = by / 32;
    let mut k: usize = 0;
    while k < rounds
        invariant
            k <= rounds,
            rounds == by / 32,
            by <= old(mem)@.len(),
            mem@.len() == old(mem)@.len(),
            mem@ == rotated_left(old(mem)@, 32 * k),
        decreases rounds - k,
    {
        rotate_by_reverse_fixed(mem, 32);
        proof {
            lemma_rotate_left_twice(old(mem)@, 32 * k, 32);
        }
        k += 1;
    }
    if by % 32 > 0 {
        rotate_by_reverse_fixed(mem, by % 32);
        proof {
            lemma_rotate_left_twice(old(mem)@, 32 * rounds, (by % 32) as int);
        }
    }
}

/// Kind of a card: 0-9 numbers, then the kinds below.
pub const UNO_CARD_REVERSE: u8 = 10;
pub const UNO_CARD_SKIP: u8 = 11;
pub const UNO_CARD_DRAW_TWO: u8 = 12;
pub const UNO_CARD_CHOOSE_COLOR_COLORED: u8 = 13;
pub const UNO_CARD_CHOOSE_COLOR_BLACK: u8 = 14;
pub const UNO_CARD_DRAW_FOUR: u8 = 15;

/// Where the kind starts in a card byte; bits 0-1 are the color.
pub const UNO_CARD_KIND_OFF: u8 = 2;
pub const UNO_CARD_COLOR_MASK: u8 = 0b11;

/// The kind of card `c`.
pub open spec fn kind_of(c: u8) -> u8 {
    c >> 2u8
}

/// The color of card `c`.
pub open spec fn color_of(c: u8) -> u8 {
    c & 3u8
}

/// A card that makes the next player draw.
pub fn is_draw_card(card: u8) -> (r: bool)
    ensures
        r == (kind_of(card) == UNO_CARD_DRAW_FOUR || kind_of(card) == UNO_CARD_DRAW_TWO),
{
    let card_kind = card >> UNO_CARD_KIND_OFF;
    card_kind == UNO_CARD_DRAW_FOUR || card_kind == UNO_CARD_DRAW_TWO
}

/// Whether `selected` may be put onto `open_card`: same color, same kind, a black card, or an
/// open draw-four.
pub fn can_first_be_put_onto_second(selected: u8, open_card: u8) -> (r: bool)
    requires
        kind_of(selected) != UNO_CARD_CHOOSE_COLOR_COLORED,
        kind_of(open_card) != UNO_CARD_CHOOSE_COLOR_BLACK,
    ensures
        r == (color_of(selected) == color_of(open_card) || kind_of(selected) == kind_of(open_card)
            || kind_of(selected) == UNO_CARD_CHOOSE_COLOR_BLACK || kind_of(selected) == UNO_CARD_DRAW_FOUR
            || kind_of(open_card) == UNO_CARD_DRAW_FOUR),
{
    let selected_kind = selected >> UNO_CARD_KIND_OFF;
    let open_kind = open_card >> UNO_CARD_KIND_OFF;
    let same_color = selected & UNO_CARD_COLOR_MASK == open_card & UNO_CARD_COLOR_MASK;
    let same_kind = selected_kind == open_kind;
    same_color || same_kind || selected_kind == UNO_CARD_CHOOSE_COLOR_BLACK || selected_kind
        == UNO_CARD_DRAW_FOUR || open_kind == UNO_CARD_DRAW_FOUR
}

/// The card as it goes onto the discard stack: a colored choose-color card has its low bits
/// flipped by `13 ^ 14`; any other card is kept.
pub fn post_process_open_card(card: u8) -> (r: u8)
    ensures
        r == if kind_of(card) == UNO_CARD_CHOOSE_COLOR_COLORED {
            card ^ 3u8
        } else {
            card
        },
{
    let card_is_color_choose = (card >> UNO_CARD_KIND_OFF) == UNO_CARD_CHOOSE_COLOR_COLORED;
    let flip: u8 = if card_is_color_choose {
        UNO_CARD_CHOOSE_COLOR_COLORED ^ UNO_CARD_CHOOSE_COLOR_BLACK
    } else {
        0
    };
    proof {
        assert(13u8 ^ 14u8 == 3u8 && card ^ 0u8 == card) by (bit_vector);
    }
    card ^ flip
}

/// `-1` for direction bit 0, `1` for direction bit 1.
pub fn get_signed_direction(direction: u64) -> (r: i64)
    requires
        direction <= 1,
    ensures
        r == 2 * direction - 1,
{
    -1 + 2 * direction as i64
}

/// One xorshift step on `seed`; returns the new seed.
pub fn generate_random_num(seed: &mut u32) -> (r: u32)
    ensures
        r == *final(seed),
        *final(seed) == xorshift32(*old(seed)),
{
    *seed = *seed ^ (*seed << 13u32);
    *seed = *seed ^ (*seed >> 17u32);
    *seed = *seed ^ (*seed << 5u32);
    *seed
}

/// The xorshift step with shifts 13, 17 and 5.
pub open spec fn xorshift32(x: u32) -> u32 {
    let a = x ^ (x << 13u32);
    let b = a ^ (a >> 17u32);
    b ^ (b << 5u32)
}

#[derive(Copy, Clone, PartialEq, Eq, Structural, Debug)]
pub enum CardColor {
    Red,
    Blue,
    Green,
    Yellow,
}

#[derive(Copy, Clone, PartialEq, Eq, Structural, Debug)]
pub enum NumberCardKind {
    Zero,
    One,
    Two,
    Three,
    Four,
    Five,
    Six,
    Seven,
    Eight,
    Nine,
}

#[derive(Copy, Clone, PartialEq, Eq, Structural, Debug)]
pub enum EffectCardKind {
    Skip,
    Reverse,
    DrawTwo,
    ChosenColor,
}

#[derive(Copy, Clone, PartialEq, Eq, Structural, Debug)]
pub enum SpecialCardKind {
    DrawFour,
    ChooseColor,
}

#[derive(Copy, Clone, PartialEq, Eq, Structural, Debug)]
pub enum ColoredCardKind {
    Number(NumberCardKind),
    Effect(EffectCardKind),
}

/// A card, spelled out.
#[derive(Copy, Clone, PartialEq, Eq, Structural, Debug)]
pub enum CardRepr {
    Colored(CardColor, ColoredCardKind),
    Special(SpecialCardKind),
}

/// The number of `n`, 0 to 9.
pub open spec fn number_value(n: NumberCardKind) -> u8 {
    match n {
        NumberCardKind::Zero => 0,
        NumberCardKind::One => 1,
        NumberCardKind::Two => 2,
        NumberCardKind::Three => 3,
        NumberCardKind::Four => 4,
        NumberCardKind::Five => 5,
        NumberCardKind::Six => 6,
        NumberCardKind::Seven => 7,
        NumberCardKind::Eight => 8,
        NumberCardKind::Nine => 9,
    }
}

/// The card byte of `c`.
pub open spec fn card_num(c: CardRepr) -> u8 {
    match c {
        CardRepr::Colored(color, kind) => {
            let color = match color {
                CardColor::Red => 0u8,
                CardColor::Blue => 1u8,
                CardColor::Green => 2u8,
                CardColor::Yellow => 3u8,
            };
            let kind = match kind {
                ColoredCardKind::Number(n) => number_value(n),
                ColoredCardKind::Effect(EffectCardKind::ChosenColor) => UNO_CARD_CHOOSE_COLOR_COLORED,
                ColoredCardKind::Effect(EffectCardKind::Reverse) => UNO_CARD_REVERSE,
                ColoredCardKind::Effect(EffectCardKind::DrawTwo) => UNO_CARD_DRAW_TWO,
                ColoredCardKind::Effect(EffectCardKind::Skip) => UNO_CARD_SKIP,
            };
            (kind * 4 + color) as u8
        },
        CardRepr::Special(SpecialCardKind::ChooseColor) => 56u8,
        CardRepr::Special(SpecialCardKind::DrawFour) => 60u8,
    }
}

/// The card byte of `card_repr`: kind times four plus color.
pub fn card_repr_to_card_num(card_repr: CardRepr) -> (r: u8)
    ensures
        r == card_num(card_repr),
        r < 64,
{
    match card_repr {
        CardRepr::Colored(card_color, card_kind) => {
            let color: u8 = match card_color {
                CardColor::Red => 0,
                CardColor::Blue => 1,
                CardColor::Green => 2,
                CardColor::Yellow => 3,
            };
            let kind: u8 = match card_kind {
                ColoredCardKind::Number(n) => match n {
                    NumberCardKind::Zero => 0,
                    NumberCardKind::One => 1,
                    NumberCardKind::Two => 2,
                    NumberCardKind::Three => 3,
                    NumberCardKind::Four => 4,
                    NumberCardKind::Five => 5,
                    NumberCardKind::Six => 6,
                    NumberCardKind::Seven => 7,
                    NumberCardKind::Eight => 8,
                    NumberCardKind::Nine => 9,
                },
                ColoredCardKind::Effect(EffectCardKind::ChosenColor) => UNO_CARD_CHOOSE_COLOR_COLORED,
                ColoredCardKind::Effect(EffectCardKind::Reverse) => UNO_CARD_REVERSE,
                ColoredCardKind::Effect(EffectCardKind::DrawTwo) => UNO_CARD_DRAW_TWO,
                ColoredCardKind::Effect(EffectCardKind::Skip) => UNO_CARD_SKIP,
            };
            proof {
                assert(kind <= 15 && color <= 3 ==> (kind << 2u8) | color == kind * 4 + color) by (bit_vector);
            }
            (kind << UNO_CARD_KIND_OFF) | color
        },
        CardRepr::Special(SpecialCardKind::ChooseColor) => UNO_CARD_CHOOSE_COLOR_BLACK * 4,
        CardRepr::Special(SpecialCardKind::DrawFour) => UNO_CARD_DRAW_FOUR * 4,
    }
}

/// The card that byte `card` stands for; the kind of a black card decides, its color bits are
/// ignored.
pub fn card_num_to_card_repr(card: u8) -> (r: CardRepr)
    requires
        card < 64,
    ensures
        kind_of(card) < UNO_CARD_CHOOSE_COLOR_BLACK ==> card_num(r) == card,
        kind_of(card) >= UNO_CARD_CHOOSE_COLOR_BLACK ==> card_num(r) == kind_of(card) * 4,
{
    proof {
        assert(card < 64 ==> card >> 2u8 == card / 4 && card & 3u8 == card % 4) by (bit_vector);
    }
    let card_kind = card >> UNO_CARD_KIND_OFF;
    if card_kind == UNO_CARD_CHOOSE_COLOR_BLACK {
        return CardRepr::Special(SpecialCardKind::ChooseColor);
    } else if card_kind == UNO_CARD_DRAW_FOUR {
        return CardRepr::Special(SpecialCardKind::DrawFour);
    }
    let card_color = card & 0b11;
    let color = if card_color == 0 {
        CardColor::Red
    } else if card_color == 1 {
        CardColor::Blue
    } else if card_color == 2 {
        CardColor::Green
    } else {
        CardColor::Yellow
    };
    let kind = if card_kind < 10 {
        let number = match card_kind {
            0 => NumberCardKind::Zero,
            1 => NumberCardKind::One,
            2 => NumberCardKind::Two,
            3 => NumberCardKind::Three,
            4 => NumberCardKind::Four,
            5 => NumberCardKind::Five,
            6 => NumberCardKind::Six,
            7 => NumberCardKind::Seven,
            8 => NumberCardKind::Eight,
            _ => NumberCardKind::Nine,
        };
        ColoredCardKind::Number(number)
    } else if card_kind == UNO_CARD_SKIP {
        ColoredCardKind::Effect(EffectCardKind::Skip)
    } else if card_kind == UNO_CARD_DRAW_TWO {
        ColoredCardKind::Effect(EffectCardKind::DrawTwo)
    } else if card_kind == UNO_CARD_REVERSE {
        ColoredCardKind::Effect(EffectCardKind::Reverse)
    } else {
        ColoredCardKind::Effect(EffectCardKind::ChosenColor)
    };
    CardRepr::Colored(color, kind)
}

/// A move in Uno as one byte: 0-107 play that card of the hand, 108-111 choose that color,
/// 112 and above draw.
#[derive(Copy, Clone, PartialEq, Eq, Structural, Debug)]
pub struct UnoMove(pub u8);

/// A move in Uno, spelled out.
#[derive(Copy, Clone, PartialEq, Eq, Structural, Debug)]
pub enum UnoMoveEnum {
    ChooseCard(u8),
    ChooseColor(u8),
    Nothing,
}

impl UnoMoveEnum {
    /// The byte of this move.
    pub fn to_move(self) -> (r: UnoMove)
        requires
            self matches UnoMoveEnum::ChooseCard(c) ==> c < 108,
            self matches UnoMoveEnum::ChooseColor(c) ==> c < 4,
        ensures
            UnoMoveEnum::from_move(r) == self,
    {
        match self {
            UnoMoveEnum::ChooseCard(c) => UnoMove(c),
            UnoMoveEnum::ChooseColor(c) => UnoMove(c + 108),
            UnoMoveEnum::Nothing => UnoMove(112),
        }
    }

    /// The move that byte `value` stands for.
    pub open spec fn from_move(value: UnoMove) -> UnoMoveEnum {
        if value.0 < 108 {
            UnoMoveEnum::ChooseCard(value.0)
        } else if value.0 < 112 {
            UnoMoveEnum::ChooseColor((value.0 - 108) as u8)
        } else {
            UnoMoveEnum::Nothing
        }
    }

    /// The move that byte `value` stands for.
    pub fn of_move(value: UnoMove) -> (r: UnoMoveEnum)
        ensures
            r == UnoMoveEnum::from_move(value),
    {
        if value.0 < 108 {
            UnoMoveEnum::ChooseCard(value.0)
        } else if value.0 < 112 {
            UnoMoveEnum::ChooseColor(value.0 - 108)
        } else {
            UnoMoveEnum::Nothing
        }
    }
}

} // verus!
