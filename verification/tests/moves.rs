use klondike::{Card, MoveError, Rank, Source, Stack, StackId, StackType, Suit, Table};

fn up(suit: Suit, rank: Rank) -> Card {
    Card { suit, rank, face_up: true }
}

fn down(suit: Suit, rank: Rank) -> Card {
    Card { suit, rank, face_up: false }
}

fn pile(stack_id: StackId, stack_type: StackType) -> Stack {
    Stack { stack_id, stack_type, cards: Vec::new() }
}

fn blank() -> Table {
    Table {
        stock: pile(StackId::Stock, StackType::Stock),
        waste: pile(StackId::Waste, StackType::Waste),
        in_hand: pile(StackId::Hand, StackType::Hand),
        foundations: klondike::FOUNDATIONS
            .iter()
            .map(|id| pile(*id, StackType::Foundation))
            .collect(),
        tableaux: klondike::TABLEAUX.iter().map(|id| pile(*id, StackType::Tableau)).collect(),
        source: Source::stock(),
        target: StackId::Stock,
    }
}

fn names(cards: &[Card]) -> Vec<(Suit, Rank)> {
    cards.iter().map(|card| (card.suit, card.rank)).collect()
}

fn sorted_names(table: &Table) -> Vec<(Suit, Rank)> {
    let mut all = names(&table.stock.cards);
    all.extend(names(&table.waste.cards));
    all.extend(names(&table.in_hand.cards));
    for pile in table.foundations.iter().chain(table.tableaux.iter()) {
        all.extend(names(&pile.cards));
    }
    all.sort();
    all
}

#[test]
fn source_stock_is_the_bottom_of_the_stock() {
    assert_eq!(Source::stock(), Source { stack: StackId::Stock, index: 0 });
}

#[test]
fn deal_moves_three_cards_face_up_in_stock_order() {
    let mut table = blank();
    table.stock.cards = vec![
        down(Suit::Club, Rank::Two),
        down(Suit::Club, Rank::Three),
        down(Suit::Club, Rank::Four),
        down(Suit::Club, Rank::Five),
        down(Suit::Club, Rank::Six),
    ];
    table.waste.cards = vec![up(Suit::Heart, Rank::King)];
    table.deal_from_stock();
    assert_eq!(
        table.stock.cards,
        vec![down(Suit::Club, Rank::Two), down(Suit::Club, Rank::Three)]
    );
    assert_eq!(
        table.waste.cards,
        vec![
            up(Suit::Heart, Rank::King),
            up(Suit::Club, Rank::Four),
            up(Suit::Club, Rank::Five),
            up(Suit::Club, Rank::Six),
        ]
    );
}

#[test]
fn deal_moves_what_is_left_when_fewer_than_three() {
    let mut table = blank();
    table.stock.cards = vec![down(Suit::Club, Rank::Two), down(Suit::Club, Rank::Three)];
    table.deal_from_stock();
    assert!(table.stock.cards.is_empty());
    assert_eq!(table.waste.cards, vec![up(Suit::Club, Rank::Two), up(Suit::Club, Rank::Three)]);

    let mut table = blank();
    table.stock.cards = vec![down(Suit::Club, Rank::Two)];
    table.deal_from_stock();
    assert!(table.stock.cards.is_empty());
    assert_eq!(table.waste.cards, vec![up(Suit::Club, Rank::Two)]);
}

#[test]
fn deal_from_an_empty_stock_takes_the_waste_back_reversed_and_face_down() {
    let mut table = blank();
    table.waste.cards = vec![
        up(Suit::Club, Rank::Two),
        up(Suit::Club, Rank::Three),
        up(Suit::Club, Rank::Four),
        up(Suit::Club, Rank::Five),
    ];
    table.deal_from_stock();
    assert!(table.waste.cards.is_empty());
    assert_eq!(
        table.stock.cards,
        vec![
            down(Suit::Club, Rank::Five),
            down(Suit::Club, Rank::Four),
            down(Suit::Club, Rank::Three),
            down(Suit::Club, Rank::Two),
        ]
    );
}

#[test]
fn deal_with_nothing_in_stock_or_waste_changes_nothing() {
    let mut table = blank();
    table.deal_from_stock();
    assert!(table.stock.cards.is_empty());
    assert!(table.waste.cards.is_empty());
    table.deal_from_stock();
    assert!(table.stock.cards.is_empty());
    assert!(table.waste.cards.is_empty());
}

#[test]
fn deal_leaves_the_other_piles_and_the_cursor_alone() {
    let mut table = Table::new(17);
    let tableaux: Vec<Vec<(Suit, Rank)>> =
        table.tableaux.iter().map(|pile| names(&pile.cards)).collect();
    table.deal_from_stock();
    let after: Vec<Vec<(Suit, Rank)>> =
        table.tableaux.iter().map(|pile| names(&pile.cards)).collect();
    assert_eq!(tableaux, after);
    assert!(table.foundations.iter().all(|pile| pile.cards.is_empty()));
    assert!(table.in_hand.cards.is_empty());
    assert_eq!(table.source, Source { stack: StackId::Stock, index: 23 });
    assert_eq!(table.target, StackId::Stock);
}

#[test]
fn a_stock_of_one_card_comes_back_after_a_turn() {
    let mut table = blank();
    table.stock.cards = vec![down(Suit::Club, Rank::Two)];
    table.deal_from_stock();
    table.deal_from_stock();
    assert_eq!(table.stock.cards, vec![down(Suit::Club, Rank::Two)]);
    assert!(table.waste.cards.is_empty());
}

#[test]
fn a_turn_through_the_stock_reverses_each_deal() {
    let mut table = blank();
    let ranks = [
        Rank::Ace,
        Rank::Two,
        Rank::Three,
        Rank::Four,
        Rank::Five,
        Rank::Six,
        Rank::Seven,
        Rank::Eight,
    ];
    table.stock.cards = ranks.iter().map(|rank| down(Suit::Spade, *rank)).collect();
    for _ in 0..3 {
        table.deal_from_stock();
    }
    assert!(table.stock.cards.is_empty());
    let waste: Vec<Rank> = table.waste.cards.iter().map(|card| card.rank).collect();
    assert_eq!(
        waste,
        vec![
            Rank::Six,
            Rank::Seven,
            Rank::Eight,
            Rank::Three,
            Rank::Four,
            Rank::Five,
            Rank::Ace,
            Rank::Two,
        ]
    );
    table.deal_from_stock();
    assert!(table.waste.cards.is_empty());
    assert!(table.stock.cards.iter().all(|card| !card.face_up));
    let stock: Vec<Rank> = table.stock.cards.iter().map(|card| card.rank).collect();
    assert_eq!(
        stock,
        vec![
            Rank::Two,
            Rank::Ace,
            Rank::Five,
            Rank::Four,
            Rank::Three,
            Rank::Eight,
            Rank::Seven,
            Rank::Six,
        ]
    );
}

#[test]
fn two_turns_through_the_stock_bring_it_back() {
    let mut table = Table::new(8);
    let before = names(&table.stock.cards);
    for _ in 0..9 {
        table.deal_from_stock();
    }
    assert_eq!(table.stock.cards.len(), 24);
    assert_ne!(names(&table.stock.cards), before);
    for _ in 0..9 {
        table.deal_from_stock();
    }
    assert_eq!(names(&table.stock.cards), before);
    assert!(table.stock.cards.iter().all(|card| !card.face_up));
    assert!(table.waste.cards.is_empty());
}

#[test]
fn take_top_card_moves_one_card_into_the_hand_face_up() {
    let mut table = blank();
    table.stock.cards = vec![down(Suit::Club, Rank::Two), down(Suit::Club, Rank::Three)];
    table.take_top_card_from_stack(StackId::Stock);
    assert_eq!(table.stock.cards, vec![down(Suit::Club, Rank::Two)]);
    assert_eq!(table.in_hand.cards, vec![up(Suit::Club, Rank::Three)]);
    assert!(table.cards_in_hand());
    assert_eq!(table.source, Source::stock());
    assert_eq!(table.target, StackId::Stock);
}

#[test]
fn take_top_card_from_an_empty_pile_takes_nothing() {
    let mut table = blank();
    table.take_top_card_from_stack(StackId::Tableau3);
    assert!(table.in_hand.cards.is_empty());
    assert!(!table.cards_in_hand());
    table.in_hand.cards = vec![up(Suit::Club, Rank::Two)];
    table.take_top_card_from_stack(StackId::Waste);
    assert_eq!(table.in_hand.cards, vec![up(Suit::Club, Rank::Two)]);
}

#[test]
fn take_top_card_adds_to_a_hand_that_holds_cards() {
    let mut table = blank();
    table.in_hand.cards = vec![up(Suit::Club, Rank::Two)];
    table.tableaux[4].cards = vec![down(Suit::Heart, Rank::Nine), up(Suit::Spade, Rank::Ten)];
    table.take_top_card_from_stack(StackId::Tableau5);
    assert_eq!(table.in_hand.cards, vec![up(Suit::Club, Rank::Two), up(Suit::Spade, Rank::Ten)]);
    assert_eq!(table.tableaux[4].cards, vec![down(Suit::Heart, Rank::Nine)]);
}

#[test]
fn take_top_card_of_the_hand_turns_it_up_where_it_is() {
    let mut table = blank();
    table.in_hand.cards = vec![up(Suit::Club, Rank::Two), down(Suit::Club, Rank::Three)];
    table.take_top_card_from_stack(StackId::Hand);
    assert_eq!(table.in_hand.cards, vec![up(Suit::Club, Rank::Two), up(Suit::Club, Rank::Three)]);
}

#[test]
fn take_selected_cards_cuts_the_pile_at_the_index() {
    let mut table = blank();
    table.tableaux[2].cards = vec![
        down(Suit::Club, Rank::Four),
        up(Suit::Spade, Rank::Eight),
        up(Suit::Heart, Rank::Seven),
        up(Suit::Club, Rank::Six),
    ];
    table.take_selected_cards_from_stack(StackId::Tableau3, 2);
    assert_eq!(
        table.tableaux[2].cards,
        vec![down(Suit::Club, Rank::Four), up(Suit::Spade, Rank::Eight)]
    );
    assert_eq!(table.in_hand.cards, vec![up(Suit::Heart, Rank::Seven), up(Suit::Club, Rank::Six)]);
}

#[test]
fn take_selected_cards_from_the_bottom_takes_the_whole_pile() {
    let mut table = blank();
    table.tableaux[2].cards = vec![up(Suit::Spade, Rank::Eight), up(Suit::Heart, Rank::Seven)];
    table.take_selected_cards_from_stack(StackId::Tableau3, 0);
    assert!(table.tableaux[2].cards.is_empty());
    assert_eq!(
        table.in_hand.cards,
        vec![up(Suit::Spade, Rank::Eight), up(Suit::Heart, Rank::Seven)]
    );
}

#[test]
fn take_selected_cards_keeps_the_faces() {
    let mut table = blank();
    table.tableaux[2].cards = vec![down(Suit::Spade, Rank::Eight), up(Suit::Heart, Rank::Seven)];
    table.take_selected_cards_from_stack(StackId::Tableau3, 0);
    assert_eq!(
        table.in_hand.cards,
        vec![down(Suit::Spade, Rank::Eight), up(Suit::Heart, Rank::Seven)]
    );
}

#[test]
fn take_selected_cards_at_the_end_of_the_pile_keeps_the_hand() {
    let mut table = blank();
    table.in_hand.cards = vec![up(Suit::Diamond, Rank::Jack)];
    table.tableaux[2].cards = vec![up(Suit::Spade, Rank::Eight), up(Suit::Heart, Rank::Seven)];
    table.take_selected_cards_from_stack(StackId::Tableau3, 2);
    assert_eq!(table.in_hand.cards, vec![up(Suit::Diamond, Rank::Jack)]);
    assert_eq!(table.tableaux[2].cards.len(), 2);
    table.take_selected_cards_from_stack(StackId::Tableau4, 0);
    assert_eq!(table.in_hand.cards, vec![up(Suit::Diamond, Rank::Jack)]);
}

#[test]
fn take_selected_cards_replaces_a_hand_that_holds_cards() {
    let mut table = blank();
    table.in_hand.cards = vec![up(Suit::Diamond, Rank::Jack)];
    table.tableaux[2].cards = vec![up(Suit::Spade, Rank::Eight), up(Suit::Heart, Rank::Seven)];
    table.take_selected_cards_from_stack(StackId::Tableau3, 1);
    assert_eq!(table.in_hand.cards, vec![up(Suit::Heart, Rank::Seven)]);
    assert_eq!(table.tableaux[2].cards, vec![up(Suit::Spade, Rank::Eight)]);
}

#[test]
fn take_selected_cards_of_the_hand_keeps_the_upper_part() {
    let mut table = blank();
    table.in_hand.cards = vec![
        up(Suit::Diamond, Rank::Jack),
        up(Suit::Club, Rank::Ten),
        up(Suit::Diamond, Rank::Nine),
    ];
    table.take_selected_cards_from_stack(StackId::Hand, 1);
    assert_eq!(table.in_hand.cards, vec![up(Suit::Club, Rank::Ten), up(Suit::Diamond, Rank::Nine)]);
    table.take_selected_cards_from_stack(StackId::Hand, 2);
    assert_eq!(table.in_hand.cards, vec![up(Suit::Club, Rank::Ten), up(Suit::Diamond, Rank::Nine)]);
}

#[test]
fn try_take_selected_cards_reports_an_index_past_the_pile() {
    let mut table = blank();
    table.tableaux[2].cards = vec![up(Suit::Spade, Rank::Eight), up(Suit::Heart, Rank::Seven)];
    assert_eq!(
        table.try_take_selected_cards_from_stack(StackId::Tableau3, 3),
        Err(MoveError::OutOfRangeIndex)
    );
    assert_eq!(table.tableaux[2].cards.len(), 2);
    assert!(table.in_hand.cards.is_empty());
    assert_eq!(
        table.try_take_selected_cards_from_stack(StackId::Tableau4, 1),
        Err(MoveError::OutOfRangeIndex)
    );
    assert_eq!(
        table.try_take_selected_cards_from_stack(StackId::Tableau3, usize::MAX),
        Err(MoveError::OutOfRangeIndex)
    );
}

#[test]
fn try_take_selected_cards_cuts_within_the_pile() {
    let mut table = blank();
    table.tableaux[2].cards = vec![up(Suit::Spade, Rank::Eight), up(Suit::Heart, Rank::Seven)];
    assert_eq!(table.try_take_selected_cards_from_stack(StackId::Tableau3, 2), Ok(()));
    assert!(table.in_hand.cards.is_empty());
    assert_eq!(table.try_take_selected_cards_from_stack(StackId::Tableau3, 1), Ok(()));
    assert_eq!(table.in_hand.cards, vec![up(Suit::Heart, Rank::Seven)]);
    assert_eq!(table.tableaux[2].cards, vec![up(Suit::Spade, Rank::Eight)]);
}

#[test]
fn put_hand_appends_the_hand_and_moves_the_cursor_to_its_first_card() {
    let mut table = blank();
    table.tableaux[0].cards = vec![down(Suit::Club, Rank::Four), up(Suit::Spade, Rank::Eight)];
    table.tableaux[5].cards = vec![down(Suit::Heart, Rank::Two), down(Suit::Diamond, Rank::Queen)];
    table.in_hand.cards = vec![up(Suit::Heart, Rank::Seven), up(Suit::Club, Rank::Six)];
    table.source = Source { stack: StackId::Tableau6, index: 2 };
    table.target = StackId::Tableau1;
    table.put_hand_on_target();
    assert_eq!(
        table.tableaux[0].cards,
        vec![
            down(Suit::Club, Rank::Four),
            up(Suit::Spade, Rank::Eight),
            up(Suit::Heart, Rank::Seven),
            up(Suit::Club, Rank::Six),
        ]
    );
    assert!(table.in_hand.cards.is_empty());
    assert!(!table.cards_in_hand());
    assert_eq!(
        table.tableaux[5].cards,
        vec![down(Suit::Heart, Rank::Two), up(Suit::Diamond, Rank::Queen)]
    );
    assert_eq!(table.source, Source { stack: StackId::Tableau1, index: 2 });
    assert_eq!(table.target, StackId::Tableau1);
}

#[test]
fn put_hand_asks_no_questions() {
    let mut table = blank();
    table.foundations[0].cards = vec![up(Suit::Heart, Rank::Ace)];
    table.in_hand.cards = vec![up(Suit::Club, Rank::Nine), up(Suit::Club, Rank::Four)];
    table.target = StackId::Foundation1;
    table.put_hand_on_target();
    assert_eq!(
        table.foundations[0].cards,
        vec![up(Suit::Heart, Rank::Ace), up(Suit::Club, Rank::Nine), up(Suit::Club, Rank::Four)]
    );
    assert_eq!(table.source, Source { stack: StackId::Foundation1, index: 1 });
}

#[test]
fn put_hand_with_an_empty_hand_still_moves_the_cursor() {
    let mut table = blank();
    table.tableaux[3].cards = vec![down(Suit::Club, Rank::Four), up(Suit::Spade, Rank::Eight)];
    table.stock.cards = vec![down(Suit::Club, Rank::Nine)];
    table.target = StackId::Tableau4;
    table.put_hand_on_target();
    assert_eq!(table.tableaux[3].cards.len(), 2);
    assert_eq!(table.source, Source { stack: StackId::Tableau4, index: 2 });
    assert_eq!(table.stock.cards, vec![up(Suit::Club, Rank::Nine)]);
}

#[test]
fn put_hand_back_where_it_came_from() {
    let mut table = blank();
    table.tableaux[3].cards = vec![down(Suit::Club, Rank::Four), up(Suit::Spade, Rank::Eight)];
    table.source = Source { stack: StackId::Tableau4, index: 1 };
    table.take_selected_cards_from_stack(StackId::Tableau4, 1);
    table.target = StackId::Tableau4;
    table.put_hand_on_target();
    assert_eq!(
        table.tableaux[3].cards,
        vec![down(Suit::Club, Rank::Four), up(Suit::Spade, Rank::Eight)]
    );
    assert_eq!(table.source, Source { stack: StackId::Tableau4, index: 1 });
}

#[test]
fn try_put_hand_reports_an_empty_hand() {
    let mut table = blank();
    table.tableaux[3].cards = vec![down(Suit::Club, Rank::Four)];
    table.source = Source { stack: StackId::Tableau4, index: 0 };
    table.target = StackId::Tableau2;
    assert_eq!(table.try_put_hand_on_target(), Err(MoveError::EmptyHand));
    assert_eq!(table.source, Source { stack: StackId::Tableau4, index: 0 });
    assert_eq!(table.tableaux[3].cards, vec![down(Suit::Club, Rank::Four)]);
}

#[test]
fn try_put_hand_reports_a_drop_against_the_rules() {
    let mut table = blank();
    table.foundations[0].cards = vec![up(Suit::Heart, Rank::Ace)];
    table.in_hand.cards = vec![up(Suit::Club, Rank::Two)];
    table.target = StackId::Foundation1;
    assert_eq!(table.try_put_hand_on_target(), Err(MoveError::IllegalDrop));
    assert_eq!(table.foundations[0].cards, vec![up(Suit::Heart, Rank::Ace)]);
    assert_eq!(table.in_hand.cards, vec![up(Suit::Club, Rank::Two)]);
    assert_eq!(table.source, Source::stock());
    for target in [StackId::Stock, StackId::Waste, StackId::Tableau1, StackId::Foundation2] {
        table.target = target;
        assert_eq!(table.try_put_hand_on_target(), Err(MoveError::IllegalDrop));
    }
    assert_eq!(table.in_hand.cards, vec![up(Suit::Club, Rank::Two)]);
}

#[test]
fn try_put_hand_makes_a_drop_that_the_rules_allow() {
    let mut table = blank();
    table.foundations[0].cards = vec![up(Suit::Heart, Rank::Ace)];
    table.tableaux[6].cards = vec![down(Suit::Club, Rank::Four), down(Suit::Spade, Rank::Eight)];
    table.source = Source { stack: StackId::Tableau7, index: 2 };
    table.in_hand.cards = vec![up(Suit::Heart, Rank::Two)];
    table.target = StackId::Foundation1;
    assert_eq!(table.try_put_hand_on_target(), Ok(()));
    assert_eq!(
        table.foundations[0].cards,
        vec![up(Suit::Heart, Rank::Ace), up(Suit::Heart, Rank::Two)]
    );
    assert!(table.in_hand.cards.is_empty());
    assert_eq!(table.source, Source { stack: StackId::Foundation1, index: 1 });
    assert_eq!(
        table.tableaux[6].cards,
        vec![down(Suit::Club, Rank::Four), up(Suit::Spade, Rank::Eight)]
    );
}

#[test]
fn expose_top_card_of_stack_turns_up_the_top_of_the_pile_named() {
    let mut table = Table::new(31);
    table.expose_top_card_of_stack(StackId::Stock);
    assert!(table.stock.cards[23].face_up);
    assert!(table.stock.cards[..23].iter().all(|card| !card.face_up));
    table.expose_top_card_of_stack(StackId::Tableau7);
    assert!(table.tableaux[6].cards[6].face_up);
    assert!(!table.tableaux[6].cards[5].face_up);
    table.expose_top_card_of_stack(StackId::Waste);
    assert!(table.waste.cards.is_empty());
}

#[test]
fn moves_lose_no_card() {
    let mut table = Table::new(77);
    let deck = sorted_names(&table);
    assert_eq!(deck.len(), 52);
    table.deal_from_stock();
    assert_eq!(sorted_names(&table), deck);
    table.take_top_card_from_stack(StackId::Waste);
    assert_eq!(sorted_names(&table), deck);
    table.target = StackId::Tableau2;
    table.put_hand_on_target();
    assert_eq!(sorted_names(&table), deck);
    table.take_selected_cards_from_stack(StackId::Tableau7, 4);
    assert_eq!(sorted_names(&table), deck);
    table.target = StackId::Foundation3;
    table.put_hand_on_target();
    assert_eq!(sorted_names(&table), deck);
    table.expose_top_card_of_stack(StackId::Tableau7);
    for _ in 0..12 {
        table.deal_from_stock();
        assert_eq!(sorted_names(&table), deck);
    }
    assert!(table.go_next().is_ok());
    assert!(table.go_previous().is_ok());
    assert_eq!(sorted_names(&table), deck);
}
