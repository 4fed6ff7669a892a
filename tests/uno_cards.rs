use monte_carlo::uno_basic_game::{
    can_first_be_put_onto_second, card_num_to_card_repr, card_repr_to_card_num, generate_random_num,
    is_draw_card, post_process_open_card, CardColor, CardRepr, ColoredCardKind, EffectCardKind,
    NumberCardKind, SpecialCardKind, UnoMove, UnoMoveEnum, UNO_CARD_CHOOSE_COLOR_BLACK,
    UNO_CARD_CHOOSE_COLOR_COLORED, UNO_CARD_KIND_OFF,
};

fn number_card(color: CardColor, kind: NumberCardKind) -> u8 {
    card_repr_to_card_num(CardRepr::Colored(color, ColoredCardKind::Number(kind)))
}

fn effect_card(color: CardColor, kind: EffectCardKind) -> u8 {
    card_repr_to_card_num(CardRepr::Colored(color, ColoredCardKind::Effect(kind)))
}

fn special_card(kind: SpecialCardKind) -> u8 {
    card_repr_to_card_num(CardRepr::Special(kind))
}

#[test]
fn test_can_be_put_on() {
    let card_blue_7 = number_card(CardColor::Blue, NumberCardKind::Seven);
    let card_blue_2 = number_card(CardColor::Blue, NumberCardKind::Two);
    let card_blue_chosen = effect_card(CardColor::Blue, EffectCardKind::ChosenColor);
    let card_red_7 = number_card(CardColor::Red, NumberCardKind::Seven);
    let card_red_skip = effect_card(CardColor::Red, EffectCardKind::Skip);
    let card_red_chosen = effect_card(CardColor::Red, EffectCardKind::ChosenColor);
    let card_draw_four = special_card(SpecialCardKind::DrawFour);
    let card_choose_color_black = special_card(SpecialCardKind::ChooseColor);

    let cards = [card_blue_7, card_blue_2, card_blue_chosen, card_red_7, card_red_skip, card_red_chosen, card_draw_four, card_choose_color_black];
    let mut eq_sym = vec![(card_blue_7, card_blue_2), (card_blue_2, card_blue_chosen), (card_blue_7, card_red_7), (card_blue_7, card_blue_chosen), (card_red_7, card_red_skip), (card_red_skip, card_red_chosen), (card_red_7, card_red_chosen)];
    eq_sym.extend(cards.iter().map(|card| (*card, card_draw_four)));

    let eq_unsym = cards.iter().map(|card| (card_choose_color_black, *card)).collect::<Vec<_>>();

    let mut can_be_put_on = eq_unsym;
    can_be_put_on.extend(eq_sym.into_iter().flat_map(|(c1, c2)| [(c1, c2), (c2, c1)]));
    can_be_put_on.extend(cards.map(|card| (card, card)));

    let all_cards = cards.iter().copied().flat_map(|card| cards.iter().copied().map(move |card2| (card, card2)));

    for (card1, card2) in all_cards {
        if card1 >> UNO_CARD_KIND_OFF == UNO_CARD_CHOOSE_COLOR_COLORED {
            continue;
        }
        if card2 >> UNO_CARD_KIND_OFF == UNO_CARD_CHOOSE_COLOR_BLACK {
            continue;
        }

        let expected = can_be_put_on.contains(&(card1, card2));
        let actual = can_first_be_put_onto_second(card1, card2);
        assert_eq!(expected, actual, "can you put {:?} on {:?}? Expected {}, but was {}", card_num_to_card_repr(card1), card_num_to_card_repr(card2), expected, actual);
    }
}

#[test]
fn card_bytes_spell_back() {
    let red_3 = number_card(CardColor::Red, NumberCardKind::Three);
    assert_eq!(red_3, 3 << 2);
    assert_eq!(card_num_to_card_repr(red_3), CardRepr::Colored(CardColor::Red, ColoredCardKind::Number(NumberCardKind::Three)));
    let yellow_skip = effect_card(CardColor::Yellow, EffectCardKind::Skip);
    assert_eq!(yellow_skip, (11 << 2) | 3);
    assert_eq!(card_num_to_card_repr(yellow_skip), CardRepr::Colored(CardColor::Yellow, ColoredCardKind::Effect(EffectCardKind::Skip)));
    assert_eq!(special_card(SpecialCardKind::DrawFour), 60);
    assert_eq!(card_num_to_card_repr(61), CardRepr::Special(SpecialCardKind::DrawFour));
}

#[test]
fn draw_cards_and_open_card_processing() {
    assert!(is_draw_card(effect_card(CardColor::Green, EffectCardKind::DrawTwo)));
    assert!(is_draw_card(special_card(SpecialCardKind::DrawFour)));
    assert!(!is_draw_card(effect_card(CardColor::Green, EffectCardKind::Skip)));
    let chosen = effect_card(CardColor::Blue, EffectCardKind::ChosenColor);
    assert_eq!(post_process_open_card(chosen), chosen ^ 3);
    let plain = number_card(CardColor::Blue, NumberCardKind::Five);
    assert_eq!(post_process_open_card(plain), plain);
}

#[test]
fn xorshift_step() {
    let mut seed = 1u32;
    let r = generate_random_num(&mut seed);
    assert_eq!(r, 270369);
    assert_eq!(seed, r);
}

#[test]
fn uno_moves_convert() {
    assert_eq!(UnoMoveEnum::ChooseCard(5).to_move(), UnoMove(5));
    assert_eq!(UnoMoveEnum::ChooseColor(2).to_move(), UnoMove(110));
    assert_eq!(UnoMoveEnum::Nothing.to_move(), UnoMove(112));
    assert_eq!(UnoMoveEnum::of_move(UnoMove(109)), UnoMoveEnum::ChooseColor(1));
    assert_eq!(UnoMoveEnum::of_move(UnoMove(200)), UnoMoveEnum::Nothing);
}
