use klondike::{Card, Rank, Source, Stack, StackId, StackType, Suit, Table};

fn up(suit: Suit, rank: Rank) -> Card {
    Card { suit, rank, face_up: true }
}

fn down(suit: Suit, rank: Rank) -> Card {
    Card { suit, rank, face_up: false }
}

fn pile(stack_id: StackId, stack_type: StackType) -> Stack {
    Stack { stack_id, stack_type, cards: Vec::new() }
}

fn blank() -> Table {
    Table {
        stock: pile(StackId::Stock, StackType::Stock),
        waste: pile(StackId::Waste, StackType::Waste),
        in_hand: pile(StackId::Hand, StackType::Hand),
        foundations: klondike::FOUNDATIONS
            .iter()
            .map(|id| pile(*id, StackType::Foundation))
            .collect(),
        tableaux: klondike::TABLEAUX.iter().map(|id| pile(*id, StackType::Tableau)).collect(),
        source: Source::stock(),
        target: StackId::Stock,
    }
}

fn at(stack: StackId, index: usize) -> Source {
    Source { stack, index }
}

fn is_active(table: &Table, source: Source) -> bool {
    let pile = table.get_stack(source.stack);
    if pile.cards.is_empty() {
        return pile.stack_type == StackType::Stock && source.index == 0;
    }
    match pile.stack_type {
        StackType::Stock | StackType::Waste | StackType::Foundation => {
            source.index == pile.cards.len() - 1
        }
        _ => source.index < pile.cards.len() && pile.cards[source.index].face_up,
    }
}

#[test]
fn next_active_card_walks_a_new_table() {
    let mut table = Table::new(1);
    let expected = [
        at(StackId::Tableau1, 0),
        at(StackId::Tableau2, 1),
        at(StackId::Tableau3, 2),
        at(StackId::Tableau4, 3),
        at(StackId::Tableau5, 4),
        at(StackId::Tableau6, 5),
        at(StackId::Tableau7, 6),
        at(StackId::Stock, 23),
        at(StackId::Tableau1, 0),
    ];
    assert_eq!(table.source, at(StackId::Stock, 23));
    for source in expected {
        assert_eq!(table.next_active_card(), Some(source));
        assert!(table.go_next().is_ok());
        assert_eq!(table.source, source);
    }
}

#[test]
fn previous_active_card_walks_a_new_table_backward() {
    let mut table = Table::new(1);
    let expected = [
        at(StackId::Tableau7, 6),
        at(StackId::Tableau6, 5),
        at(StackId::Tableau5, 4),
        at(StackId::Tableau4, 3),
        at(StackId::Tableau3, 2),
        at(StackId::Tableau2, 1),
        at(StackId::Tableau1, 0),
        at(StackId::Stock, 23),
        at(StackId::Tableau7, 6),
    ];
    for source in expected {
        assert_eq!(table.previous_active_card(), Some(source));
        assert!(table.go_previous().is_ok());
        assert_eq!(table.source, source);
    }
}

#[test]
fn cursor_steps_through_the_face_up_cards_of_a_tableau() {
    let mut table = blank();
    table.stock.cards = vec![down(Suit::Diamond, Rank::Two)];
    table.waste.cards = vec![up(Suit::Diamond, Rank::Three), up(Suit::Diamond, Rank::Four)];
    table.foundations[1].cards = vec![up(Suit::Club, Rank::Ace), up(Suit::Club, Rank::Two)];
    table.tableaux[2].cards = vec![
        down(Suit::Club, Rank::Four),
        up(Suit::Spade, Rank::Eight),
        up(Suit::Heart, Rank::Seven),
        up(Suit::Club, Rank::Six),
    ];
    let forward = [
        at(StackId::Waste, 1),
        at(StackId::Foundation2, 1),
        at(StackId::Tableau3, 1),
        at(StackId::Tableau3, 2),
        at(StackId::Tableau3, 3),
        at(StackId::Stock, 0),
        at(StackId::Waste, 1),
    ];
    table.source = at(StackId::Stock, 0);
    for source in forward {
        assert!(table.go_next().is_ok());
        assert_eq!(table.source, source);
    }
    let backward = [
        at(StackId::Stock, 0),
        at(StackId::Tableau3, 3),
        at(StackId::Tableau3, 2),
        at(StackId::Tableau3, 1),
        at(StackId::Foundation2, 1),
        at(StackId::Waste, 1),
    ];
    for source in backward {
        assert!(table.go_previous().is_ok());
        assert_eq!(table.source, source);
    }
}

#[test]
fn cursor_on_an_empty_stock_stays_there_going_forward() {
    let mut table = blank();
    table.waste.cards = vec![up(Suit::Diamond, Rank::Three)];
    table.source = at(StackId::Stock, 0);
    assert_eq!(table.next_active_card(), Some(at(StackId::Stock, 0)));
    assert!(table.go_next().is_ok());
    assert_eq!(table.source, at(StackId::Stock, 0));
}

#[test]
fn cursor_leaves_an_empty_stock_going_backward() {
    let mut table = blank();
    table.waste.cards = vec![up(Suit::Diamond, Rank::Three)];
    table.source = at(StackId::Stock, 0);
    assert!(table.go_previous().is_ok());
    assert_eq!(table.source, at(StackId::Waste, 0));
    assert!(table.go_previous().is_ok());
    assert_eq!(table.source, at(StackId::Waste, 0));
}

#[test]
fn cursor_comes_back_to_its_own_pile_when_no_other_offers_a_card() {
    let mut table = blank();
    table.stock.cards = vec![down(Suit::Diamond, Rank::Two), down(Suit::Diamond, Rank::Three)];
    table.source = at(StackId::Stock, 1);
    assert!(table.go_next().is_ok());
    assert_eq!(table.source, at(StackId::Stock, 1));
    assert!(table.go_previous().is_ok());
    assert_eq!(table.source, at(StackId::Stock, 1));
}

#[test]
fn backward_search_on_a_table_without_cards_finds_nothing() {
    let mut table = blank();
    table.source = at(StackId::Tableau2, 0);
    assert_eq!(table.previous_active_card(), None);
    assert!(table.go_previous().is_ok());
    assert_eq!(table.source, Source::stock());
    assert_eq!(table.next_active_card(), Some(Source::stock()));
}

#[test]
fn cursor_with_a_stale_index_moves_on() {
    let mut table = Table::new(4);
    table.deal_from_stock();
    assert_eq!(table.source, at(StackId::Stock, 23));
    assert_eq!(table.stock.cards.len(), 21);
    assert!(table.go_next().is_ok());
    assert_eq!(table.source, at(StackId::Waste, 2));
    assert!(table.go_previous().is_ok());
    assert_eq!(table.source, at(StackId::Stock, 20));
}

#[test]
fn cursor_always_lands_on_an_active_card() {
    for seed in 0..20 {
        let mut table = Table::new(seed);
        for step in 0..60 {
            if step % 7 == 3 {
                table.deal_from_stock();
            }
            if step % 2 == 0 || step > 40 {
                assert!(table.go_next().is_ok());
            } else {
                assert!(table.go_previous().is_ok());
            }
            assert!(is_active(&table, table.source));
            assert_eq!(table.target, StackId::Stock);
        }
    }
}

#[test]
fn cursor_steps_move_no_card() {
    let mut table = Table::new(12);
    table.deal_from_stock();
    let stock = table.stock.cards.len();
    let top = (table.waste.cards[2].suit, table.waste.cards[2].rank);
    for _ in 0..30 {
        assert!(table.go_next().is_ok());
    }
    for _ in 0..30 {
        assert!(table.go_previous().is_ok());
    }
    assert_eq!(table.stock.cards.len(), stock);
    assert_eq!((table.waste.cards[2].suit, table.waste.cards[2].rank), top);
    assert!(table.in_hand.cards.is_empty());
}

#[test]
fn next_play_location_finds_the_piles_that_take_the_hand() {
    let mut table = blank();
    table.tableaux[1].cards = vec![up(Suit::Spade, Rank::Eight)];
    table.tableaux[4].cards = vec![up(Suit::Club, Rank::Eight)];
    table.tableaux[5].cards = vec![up(Suit::Heart, Rank::Eight)];
    table.in_hand.cards = vec![up(Suit::Heart, Rank::Seven)];
    table.source = at(StackId::Tableau6, 1);
    table.target = StackId::Tableau6;
    assert_eq!(table.next_play_location(), StackId::Tableau2);
    assert!(table.go_next().is_ok());
    assert_eq!(table.target, StackId::Tableau2);
    assert_eq!(table.source, at(StackId::Tableau6, 1));
    assert!(table.go_next().is_ok());
    assert_eq!(table.target, StackId::Tableau5);
    assert!(table.go_next().is_ok());
    assert_eq!(table.target, StackId::Tableau2);
    table.target = StackId::Tableau4;
    table.tableaux[4].cards.clear();
    assert!(table.go_next().is_ok());
    assert_eq!(table.target, StackId::Tableau6);
}

#[test]
fn previous_play_location_finds_the_piles_that_take_the_hand() {
    let mut table = blank();
    table.tableaux[1].cards = vec![up(Suit::Spade, Rank::Eight)];
    table.tableaux[4].cards = vec![up(Suit::Club, Rank::Eight)];
    table.tableaux[5].cards = vec![up(Suit::Heart, Rank::Eight)];
    table.in_hand.cards = vec![up(Suit::Heart, Rank::Seven)];
    table.source = at(StackId::Tableau6, 1);
    table.target = StackId::Tableau6;
    assert_eq!(table.previous_play_location(), StackId::Tableau5);
    assert!(table.go_previous().is_ok());
    assert_eq!(table.target, StackId::Tableau5);
    assert!(table.go_previous().is_ok());
    assert_eq!(table.target, StackId::Tableau2);
    assert!(table.go_previous().is_ok());
    assert_eq!(table.target, StackId::Tableau6);
    assert_eq!(table.source, at(StackId::Tableau6, 1));
}

#[test]
fn play_location_search_ends_on_the_pile_the_cards_came_from() {
    let mut table = blank();
    table.tableaux[1].cards = vec![up(Suit::Spade, Rank::Nine)];
    table.in_hand.cards = vec![up(Suit::Heart, Rank::Seven)];
    table.source = at(StackId::Waste, 0);
    table.target = StackId::Tableau3;
    assert_eq!(table.next_play_location(), StackId::Waste);
    assert_eq!(table.previous_play_location(), StackId::Waste);
    assert!(!table.get_stack(StackId::Waste).can_play(&table.in_hand));
}

#[test]
fn play_location_search_goes_once_round_when_it_starts_before_the_source() {
    let mut table = blank();
    table.in_hand.cards = vec![up(Suit::Heart, Rank::Seven)];
    table.source = at(StackId::Waste, 0);
    table.target = StackId::Stock;
    assert_eq!(table.next_play_location(), StackId::Waste);
    table.target = StackId::Foundation1;
    assert_eq!(table.previous_play_location(), StackId::Waste);
}

#[test]
fn play_location_search_stops_at_the_first_pile_that_takes_the_hand() {
    let mut table = blank();
    table.in_hand.cards = vec![up(Suit::Heart, Rank::King)];
    table.source = at(StackId::Waste, 0);
    table.target = StackId::Stock;
    assert_eq!(table.next_play_location(), StackId::Tableau1);
    assert_eq!(table.previous_play_location(), StackId::Tableau7);
    table.in_hand.cards = vec![up(Suit::Heart, Rank::Ace)];
    assert_eq!(table.next_play_location(), StackId::Foundation1);
    assert_eq!(table.previous_play_location(), StackId::Foundation4);
}

#[test]
fn play_location_may_be_the_source_pile_itself() {
    let mut table = blank();
    table.tableaux[0].cards = vec![up(Suit::Spade, Rank::Eight)];
    table.in_hand.cards = vec![up(Suit::Heart, Rank::Seven)];
    table.source = at(StackId::Tableau1, 1);
    table.target = StackId::Tableau1;
    assert_eq!(table.next_play_location(), StackId::Tableau1);
    assert_eq!(table.previous_play_location(), StackId::Tableau1);
}
