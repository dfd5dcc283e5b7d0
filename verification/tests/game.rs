use spider::cards::rank::Rank::{
    Ace, Eight, Five, Four, Jack, King, Nine, Queen, Seven, Six, Ten, Three, Two,
};
use spider::cards::suit::Suit::{Clubs, Diamonds, Hearts, Spades};
use spider::cards::Card;
use spider::game::delta::Delta;
use spider::game::error::GameError;
use spider::game::seed;
use spider::game::source::Source;
use spider::game::{initial_counts, is_move_valid, Checkpoint, ColumnCard, Game, Move};
use spider::hex_text::FromHexError;

const SEED_0F: [u8; 16] = [0, 1, 2, 3, 4, 5, 6, 7, 8, 9, 10, 11, 12, 13, 14, 15];
const SEED_3: [u8; 16] = [0, 0, 0, 0, 0, 0, 0, 0, 0, 0, 0, 0, 0, 0, 0, 3];

/// The columns as an observer rebuilds them from the deltas of the board.
fn columns_of(game: &Game) -> Vec<Vec<Option<Card>>> {
    let mut columns: Vec<Vec<Option<Card>>> = vec![Vec::new(); 10];
    for delta in game.initial_deltas() {
        match delta {
            Delta::HiddenCard { index } => columns[index].push(None),
            Delta::AppendCard { index, card } => columns[index].push(Some(card)),
            Delta::PopCard { index } => {
                columns[index].pop();
            }
        }
    }
    columns
}

fn mv(orig_col: usize, count: usize, dest_col: usize) -> Move {
    Move { orig_col, count, dest_col }
}

/// The game of `SEED_3` after the five moves that empty its second column.
fn game_with_empty_column() -> Game {
    let mut game = Game::from_seed(SEED_3).unwrap();
    for m in [mv(1, 1, 6), mv(1, 1, 7), mv(1, 1, 8), mv(1, 1, 7), mv(1, 1, 6)] {
        game.move_cards(m).unwrap();
    }
    game
}

struct TestData {
    name: String,
    orig: Vec<ColumnCard>,
    count: usize,
    dest: Vec<ColumnCard>,
    expected_result: bool,
}

#[test]
fn test_is_move_valid() {
    let test_items = vec![
        TestData {
            name: "empty dest".to_string(),
            orig: vec![ColumnCard::Visible { card: Card { suit: Clubs, rank: Ace } }],
            count: 1,
            dest: vec![],
            expected_result: true,
        },
        TestData {
            name: "single: dest not successor".to_string(),
            orig: vec![ColumnCard::Visible { card: Card { suit: Clubs, rank: Ace } }],
            count: 1,
            dest: vec![ColumnCard::Visible { card: Card { suit: Clubs, rank: Ace } }],
            expected_result: false,
        },
        TestData {
            name: "single: dest is successor".to_string(),
            orig: vec![ColumnCard::Visible { card: Card { suit: Clubs, rank: Ace } }],
            count: 1,
            dest: vec![ColumnCard::Visible { card: Card { suit: Clubs, rank: Two } }],
            expected_result: true,
        },
        TestData {
            name: "multi: dest not successor".to_string(),
            orig: vec![
                ColumnCard::Visible { card: Card { suit: Clubs, rank: Five } },
                ColumnCard::Visible { card: Card { suit: Clubs, rank: Ace } },
            ],
            count: 1,
            dest: vec![ColumnCard::Visible { card: Card { suit: Clubs, rank: Ace } }],
            expected_result: false,
        },
        TestData {
            name: "multi: dest is successor".to_string(),
            orig: vec![
                ColumnCard::Visible { card: Card { suit: Clubs, rank: Five } },
                ColumnCard::Visible { card: Card { suit: Clubs, rank: Ace } },
            ],
            count: 1,
            dest: vec![ColumnCard::Visible { card: Card { suit: Clubs, rank: Two } }],
            expected_result: true,
        },
        TestData {
            name: "multi: dest is multi and successor".to_string(),
            orig: vec![
                ColumnCard::Visible { card: Card { suit: Clubs, rank: Three } },
                ColumnCard::Visible { card: Card { suit: Hearts, rank: Two } },
                ColumnCard::Visible { card: Card { suit: Hearts, rank: Ace } },
                ColumnCard::Visible { card: Card { suit: Hearts, rank: Jack } },
            ],
            count: 1,
            dest: vec![
                ColumnCard::Visible { card: Card { suit: Hearts, rank: King } },
                ColumnCard::Visible { card: Card { suit: Hearts, rank: Queen } },
            ],
            expected_result: true,
        },
        TestData {
            name: "multi: dest not successor to prev".to_string(),
            orig: vec![
                ColumnCard::Visible { card: Card { suit: Diamonds, rank: Seven } },
                ColumnCard::Visible { card: Card { suit: Hearts, rank: Five } },
            ],
            count: 2,
            dest: vec![
                ColumnCard::Visible { card: Card { suit: Diamonds, rank: Queen } },
                ColumnCard::Visible { card: Card { suit: Hearts, rank: Eight } },
            ],
            expected_result: false,
        },
        TestData {
            name: "run: dest is successor".to_string(),
            orig: vec![
                ColumnCard::Visible { card: Card { suit: Clubs, rank: Two } },
                ColumnCard::Visible { card: Card { suit: Clubs, rank: Ace } },
            ],
            count: 2,
            dest: vec![ColumnCard::Visible { card: Card { suit: Clubs, rank: Three } }],
            expected_result: true,
        },
    ];
    for test_item in test_items {
        assert_eq!(
            is_move_valid(&test_item.orig, test_item.count, &test_item.dest),
            test_item.expected_result,
            "{}",
            test_item.name
        );
    }
}

#[test]
fn run_check_edge_cases() {
    let two = ColumnCard::Visible { card: Card { suit: Clubs, rank: Two } };
    let ace = ColumnCard::Visible { card: Card { suit: Clubs, rank: Ace } };
    let three = ColumnCard::Visible { card: Card { suit: Spades, rank: Three } };
    let hidden_three = ColumnCard::Hidden { card: Card { suit: Spades, rank: Three } };
    let hidden_two = ColumnCard::Hidden { card: Card { suit: Clubs, rank: Two } };
    let king = ColumnCard::Visible { card: Card { suit: Hearts, rank: King } };
    // no cards are no run, and more cards than there are cannot move
    assert!(!is_move_valid(&[two, ace], 0, &[]));
    assert!(!is_move_valid(&[two, ace], 3, &[]));
    assert!(!is_move_valid(&[], 0, &[]));
    assert!(!is_move_valid(&[], 1, &[]));
    // a face-down card in the run, or on top of the destination, stops the move
    assert!(!is_move_valid(&[hidden_two, ace], 2, &[]));
    assert!(is_move_valid(&[hidden_two, ace], 1, &[]));
    assert!(!is_move_valid(&[two, ace], 2, &[hidden_three]));
    // the landing looks at the first moved card, and at ranks only
    assert!(is_move_valid(&[two, ace], 2, &[three]));
    assert!(!is_move_valid(&[two, ace], 1, &[three]));
    // a king lands on an empty column and on nothing else
    assert!(is_move_valid(&[king], 1, &[]));
    assert!(!is_move_valid(&[king], 1, &[ace]));
    assert!(!is_move_valid(&[king], 1, &[king]));
}

#[test]
fn opening_deal_has_the_fixed_shape() {
    assert_eq!(initial_counts(), [6, 5, 5, 6, 5, 5, 6, 5, 5, 6]);
    let game = Game::from_seed(SEED_0F).unwrap();
    assert_eq!(game.total_cards(), 104);
    assert_eq!(game.cards_dealt(), 54);
    assert_eq!(game.seed(), SEED_0F);
    assert_eq!(game.checkpoints(), vec![Checkpoint::Start { count: 0 }]);
    let columns = columns_of(&game);
    let sizes: Vec<usize> = columns.iter().map(|c| c.len()).collect();
    assert_eq!(sizes, vec![6, 5, 5, 6, 5, 5, 6, 5, 5, 6]);
    for column in &columns {
        for (k, slot) in column.iter().enumerate() {
            assert_eq!(slot.is_some(), k == column.len() - 1);
        }
    }
    let tops: Vec<Card> = columns.iter().map(|c| c[c.len() - 1].unwrap()).collect();
    assert_eq!(
        tops,
        vec![
            Card { suit: Hearts, rank: Four },
            Card { suit: Clubs, rank: Five },
            Card { suit: Spades, rank: Three },
            Card { suit: Clubs, rank: Six },
            Card { suit: Diamonds, rank: Nine },
            Card { suit: Spades, rank: Two },
            Card { suit: Hearts, rank: Jack },
            Card { suit: Clubs, rank: Three },
            Card { suit: Diamonds, rank: Four },
            Card { suit: Hearts, rank: Eight },
        ]
    );
    // the deltas of the board come column by column, base first
    let deltas = game.initial_deltas();
    assert_eq!(deltas.len(), 54);
    assert_eq!(deltas[0], Delta::HiddenCard { index: 0 });
    assert_eq!(deltas[5], Delta::AppendCard { index: 0, card: Card { suit: Hearts, rank: Four } });
    assert_eq!(deltas[6], Delta::HiddenCard { index: 1 });
    assert_eq!(deltas[53], Delta::AppendCard { index: 9, card: Card { suit: Hearts, rank: Eight } });
}

#[test]
fn new_game_starts_like_any_other() {
    let game = Game::new().unwrap();
    assert_eq!(game.total_cards(), 104);
    assert_eq!(game.cards_dealt(), 54);
    assert_eq!(game.checkpoints().len(), 1);
    let again = Game::from_seed(game.seed()).unwrap();
    assert_eq!(columns_of(&again), columns_of(&game));
}

#[test]
fn same_seed_same_deck() {
    let mut a = Source::from_seed(SEED_0F);
    let mut b = Source::from_seed(SEED_0F);
    assert_eq!(a.seed(), SEED_0F);
    assert_eq!(a.total_cards(), 104);
    assert_eq!(a.cards_dealt(), 0);
    let mut deck: Vec<Card> = Vec::new();
    for n in 0..104 {
        assert_eq!(a.cards_dealt(), n);
        let card = a.deal().unwrap();
        assert_eq!(b.deal().unwrap(), card);
        deck.push(card);
    }
    assert_eq!(a.cards_dealt(), 104);
    assert_eq!(a.deal(), Err(GameError::DealFromEmptyDeck));
    assert_eq!(a.cards_dealt(), 104);
    assert_eq!(
        deck[..4],
        [
            Card { suit: Diamonds, rank: Queen },
            Card { suit: Spades, rank: King },
            Card { suit: Diamonds, rank: Two },
            Card { suit: Diamonds, rank: King },
        ]
    );
    assert_eq!(
        deck[102..],
        [Card { suit: Clubs, rank: Seven }, Card { suit: Diamonds, rank: Five }]
    );
    // two decks: every card twice
    let mut it = Card::iter();
    while let Some(card) = it.next() {
        assert_eq!(deck.iter().filter(|c| **c == card).count(), 2);
    }
}

#[test]
fn other_seed_other_deck() {
    let mut zero = Source::from_seed([0; 16]);
    let first: Vec<Card> = (0..4).map(|_| zero.deal().unwrap()).collect();
    assert_eq!(
        first,
        vec![
            Card { suit: Hearts, rank: Two },
            Card { suit: Clubs, rank: Queen },
            Card { suit: Diamonds, rank: King },
            Card { suit: Spades, rank: Ten },
        ]
    );
    let mut three = Source::from_seed(SEED_3);
    let first: Vec<Card> = (0..4).map(|_| three.deal().unwrap()).collect();
    assert_eq!(
        first,
        vec![
            Card { suit: Clubs, rank: Queen },
            Card { suit: Clubs, rank: Ace },
            Card { suit: Hearts, rank: Ace },
            Card { suit: Clubs, rank: Three },
        ]
    );
}

#[test]
fn random_sources_are_whole() {
    let mut source = Source::new();
    assert_eq!(source.total_cards(), 104);
    assert_eq!(source.cards_dealt(), 0);
    let mut again = Source::from_seed(source.seed());
    for _ in 0..104 {
        assert_eq!(source.deal(), again.deal());
    }
    assert_eq!(seed::from_random().len(), 16);
}

#[test]
fn rewind_goes_back_only() {
    let mut source = Source::from_seed(SEED_0F);
    let dealt: Vec<Card> = (0..5).map(|_| source.deal().unwrap()).collect();
    assert_eq!(source.rewind(10), Err(GameError::RewindIntoFuture));
    assert_eq!(source.cards_dealt(), 5);
    assert_eq!(source.rewind(6), Err(GameError::RewindIntoFuture));
    assert_eq!(source.rewind(5), Ok(()));
    assert_eq!(source.cards_dealt(), 5);
    assert_eq!(source.rewind(3), Ok(()));
    assert_eq!(source.cards_dealt(), 3);
    assert_eq!(source.deal().unwrap(), dealt[3]);
    assert_eq!(source.deal().unwrap(), dealt[4]);
    assert_eq!(source.rewind(0), Ok(()));
    assert_eq!(source.deal().unwrap(), dealt[0]);
    assert_eq!(source.total_cards(), 104);
}

#[test]
fn a_used_source_may_start_a_game_while_it_has_the_cards() {
    let mut source = Source::from_seed(SEED_0F);
    let first: Vec<Card> = (0..3).map(|_| source.deal().unwrap()).collect();
    assert_eq!(first[0], Card { suit: Diamonds, rank: Queen });
    let game = Game::from_source(source).unwrap();
    assert_eq!(game.checkpoints(), vec![Checkpoint::Start { count: 3 }]);
    assert_eq!(game.cards_dealt(), 57);
    // the fourth card of the deck is the base of the first column, face down
    assert_eq!(columns_of(&game)[0].len(), 6);

    let mut source = Source::from_seed(SEED_0F);
    for _ in 0..50 {
        source.deal().unwrap();
    }
    assert_eq!(Game::from_source(source).unwrap().cards_dealt(), 104);
    let mut source = Source::from_seed(SEED_0F);
    for _ in 0..51 {
        source.deal().unwrap();
    }
    assert_eq!(Game::from_source(source).err(), Some(GameError::DealFromEmptyDeck));
}

#[test]
fn deal_puts_a_card_on_every_column() {
    let mut game = Game::from_seed(SEED_0F).unwrap();
    let before = columns_of(&game);
    let deltas = game.deal().unwrap();
    let dealt = [
        Card { suit: Hearts, rank: Nine },
        Card { suit: Hearts, rank: Five },
        Card { suit: Spades, rank: Eight },
        Card { suit: Clubs, rank: Nine },
        Card { suit: Clubs, rank: Eight },
        Card { suit: Diamonds, rank: Three },
        Card { suit: Hearts, rank: Four },
        Card { suit: Spades, rank: Jack },
        Card { suit: Hearts, rank: Ace },
        Card { suit: Diamonds, rank: Ten },
    ];
    let expected: Vec<Delta> =
        (0..10).map(|i| Delta::AppendCard { index: i, card: dealt[i] }).collect();
    assert_eq!(deltas, expected);
    assert_eq!(game.cards_dealt(), 64);
    assert_eq!(
        game.checkpoints(),
        vec![Checkpoint::Start { count: 0 }, Checkpoint::Deal { count: 54 }]
    );
    let after = columns_of(&game);
    for i in 0..10 {
        assert_eq!(after[i].len(), before[i].len() + 1);
        assert_eq!(after[i][..before[i].len()], before[i][..]);
        assert_eq!(after[i][before[i].len()], Some(dealt[i]));
    }
}

#[test]
fn undo_takes_a_deal_back() {
    let mut game = Game::from_seed(SEED_0F).unwrap();
    let before = columns_of(&game);
    game.deal().unwrap();
    let deltas = game.undo().unwrap();
    let expected: Vec<Delta> = (0..10).map(|i| Delta::PopCard { index: i }).collect();
    assert_eq!(deltas, expected);
    assert_eq!(columns_of(&game), before);
    assert_eq!(game.cards_dealt(), 54);
    assert_eq!(game.checkpoints(), vec![Checkpoint::Start { count: 0 }]);
    // the same cards come again
    let again = game.deal().unwrap();
    assert_eq!(again[0], Delta::AppendCard { index: 0, card: Card { suit: Hearts, rank: Nine } });
}

#[test]
fn the_start_is_never_undone() {
    let mut game = Game::from_seed(SEED_0F).unwrap();
    let before = columns_of(&game);
    assert_eq!(game.undo(), Err(GameError::NoCheckpointsToUndo));
    assert_eq!(columns_of(&game), before);
    assert_eq!(game.cards_dealt(), 54);
    assert_eq!(game.checkpoints(), vec![Checkpoint::Start { count: 0 }]);
}

#[test]
fn five_deals_empty_the_source() {
    let mut game = Game::from_seed(SEED_0F).unwrap();
    for n in 0..5 {
        assert_eq!(game.cards_dealt(), 54 + 10 * n);
        assert_eq!(game.deal().unwrap().len(), 10);
    }
    assert_eq!(game.cards_dealt(), 104);
    let before = columns_of(&game);
    assert_eq!(game.deal(), Err(GameError::DealFromEmptyDeck));
    assert_eq!(columns_of(&game), before);
    assert_eq!(game.checkpoints().len(), 6);
    assert_eq!(
        before[9][before[9].len() - 1],
        Some(Card { suit: Diamonds, rank: Five })
    );
    for n in 0..5 {
        assert_eq!(game.undo().unwrap().len(), 10);
        assert_eq!(game.cards_dealt(), 94 - 10 * n);
    }
    assert_eq!(game.undo(), Err(GameError::NoCheckpointsToUndo));
    assert_eq!(columns_of(&game), columns_of(&Game::from_seed(SEED_0F).unwrap()));
}

#[test]
fn a_move_reports_the_cards_and_the_flip() {
    let mut game = Game::from_seed(SEED_3).unwrap();
    assert!(game.is_move_valid(&mv(1, 1, 6)));
    let deltas = game.move_cards(mv(1, 1, 6)).unwrap();
    assert_eq!(
        deltas,
        vec![
            Delta::PopCard { index: 1 },
            Delta::AppendCard { index: 6, card: Card { suit: Hearts, rank: Jack } },
            Delta::PopCard { index: 1 },
            Delta::AppendCard { index: 1, card: Card { suit: Diamonds, rank: Three } },
        ]
    );
    assert_eq!(
        game.checkpoints(),
        vec![
            Checkpoint::Start { count: 0 },
            Checkpoint::Move { action: mv(1, 1, 6), flipped_hidden_card: true },
        ]
    );
    assert_eq!(game.cards_dealt(), 54);
    let columns = columns_of(&game);
    assert_eq!(columns[1].len(), 4);
    assert_eq!(columns[1][3], Some(Card { suit: Diamonds, rank: Three }));
    assert_eq!(columns[6].len(), 7);
    assert_eq!(columns[6][5], Some(Card { suit: Hearts, rank: Queen }));
    assert_eq!(columns[6][6], Some(Card { suit: Hearts, rank: Jack }));
}

#[test]
fn undo_takes_a_move_back_and_hides_the_flipped_card() {
    let mut game = Game::from_seed(SEED_3).unwrap();
    let before = columns_of(&game);
    game.move_cards(mv(1, 1, 6)).unwrap();
    let deltas = game.undo().unwrap();
    assert_eq!(
        deltas,
        vec![
            Delta::PopCard { index: 1 },
            Delta::HiddenCard { index: 1 },
            Delta::PopCard { index: 6 },
            Delta::AppendCard { index: 1, card: Card { suit: Hearts, rank: Jack } },
        ]
    );
    assert_eq!(columns_of(&game), before);
    assert_eq!(game.checkpoints(), vec![Checkpoint::Start { count: 0 }]);
}

#[test]
fn undo_restores_the_board_after_any_play() {
    let mut game = Game::from_seed(SEED_3).unwrap();
    let start = columns_of(&game);
    let mut boards = vec![start.clone()];
    let mut steps = 0;
    for m in [mv(1, 1, 6), mv(1, 1, 7), mv(1, 1, 8)] {
        game.move_cards(m).unwrap();
        boards.push(columns_of(&game));
        steps += 1;
    }
    game.deal().unwrap();
    boards.push(columns_of(&game));
    steps += 1;
    assert_eq!(game.cards_dealt(), 64);
    assert_eq!(game.checkpoints().len(), 1 + steps);
    for n in (0..steps).rev() {
        game.undo().unwrap();
        assert_eq!(columns_of(&game), boards[n]);
    }
    assert_eq!(columns_of(&game), start);
    assert_eq!(game.cards_dealt(), 54);
    assert_eq!(game.checkpoints(), vec![Checkpoint::Start { count: 0 }]);
    assert_eq!(game.undo(), Err(GameError::NoCheckpointsToUndo));
}

#[test]
fn no_deal_onto_an_empty_column() {
    let mut game = game_with_empty_column();
    let before = columns_of(&game);
    let sizes: Vec<usize> = before.iter().map(|c| c.len()).collect();
    assert_eq!(sizes, vec![6, 0, 5, 6, 5, 5, 8, 7, 6, 6]);
    let history = game.checkpoints();
    assert_eq!(
        history[5],
        Checkpoint::Move { action: mv(1, 1, 6), flipped_hidden_card: false }
    );
    assert_eq!(game.deal(), Err(GameError::DealToEmptyColumn));
    assert_eq!(columns_of(&game), before);
    assert_eq!(game.cards_dealt(), 54);
    assert_eq!(game.checkpoints(), history);
}

#[test]
fn a_single_card_onto_an_empty_column() {
    let mut game = game_with_empty_column();
    let before = columns_of(&game);
    // the ten of hearts leaves the jack of hearts face up behind it
    let deltas = game.move_cards(mv(6, 1, 1)).unwrap();
    assert_eq!(
        deltas,
        vec![
            Delta::PopCard { index: 6 },
            Delta::AppendCard { index: 1, card: Card { suit: Hearts, rank: Ten } },
        ]
    );
    game.undo().unwrap();
    assert_eq!(columns_of(&game), before);
    // the eight of spades leaves a face-down card behind, which is turned over
    let deltas = game.move_cards(mv(0, 1, 1)).unwrap();
    assert_eq!(
        deltas,
        vec![
            Delta::PopCard { index: 0 },
            Delta::AppendCard { index: 1, card: Card { suit: Spades, rank: Eight } },
            Delta::PopCard { index: 0 },
            Delta::AppendCard { index: 0, card: Card { suit: Clubs, rank: Nine } },
        ]
    );
    game.undo().unwrap();
    assert_eq!(columns_of(&game), before);
}

#[test]
fn a_run_moves_as_one() {
    let mut game = game_with_empty_column();
    let before = columns_of(&game);
    assert!(game.is_move_valid(&mv(6, 3, 1)));
    assert!(!game.is_move_valid(&mv(6, 4, 1)));
    let deltas = game.move_cards(mv(6, 3, 1)).unwrap();
    assert_eq!(
        deltas,
        vec![
            Delta::PopCard { index: 6 },
            Delta::AppendCard { index: 1, card: Card { suit: Hearts, rank: Queen } },
            Delta::PopCard { index: 6 },
            Delta::AppendCard { index: 1, card: Card { suit: Hearts, rank: Jack } },
            Delta::PopCard { index: 6 },
            Delta::AppendCard { index: 1, card: Card { suit: Hearts, rank: Ten } },
            Delta::PopCard { index: 6 },
            Delta::AppendCard { index: 6, card: Card { suit: Hearts, rank: Eight } },
        ]
    );
    let deltas = game.undo().unwrap();
    assert_eq!(
        deltas,
        vec![
            Delta::PopCard { index: 6 },
            Delta::HiddenCard { index: 6 },
            Delta::PopCard { index: 1 },
            Delta::AppendCard { index: 6, card: Card { suit: Hearts, rank: Queen } },
            Delta::PopCard { index: 1 },
            Delta::AppendCard { index: 6, card: Card { suit: Hearts, rank: Jack } },
            Delta::PopCard { index: 1 },
            Delta::AppendCard { index: 6, card: Card { suit: Hearts, rank: Ten } },
        ]
    );
    assert_eq!(columns_of(&game), before);
}

#[test]
fn moves_that_do_not_fit_are_refused() {
    let mut game = Game::from_seed(SEED_3).unwrap();
    let before = columns_of(&game);
    for m in [
        mv(10, 1, 0),
        mv(0, 1, 10),
        mv(1, 1, 1),
        mv(1, 0, 6),
        mv(1, 6, 6),
        mv(1, 2, 6),
        mv(1, 1, 5),
        mv(6, 1, 1),
    ] {
        assert!(!game.is_move_valid(&m));
        assert_eq!(game.move_cards(m), Err(GameError::InvalidMove { mv: m }));
        assert_eq!(columns_of(&game), before);
        assert_eq!(game.checkpoints().len(), 1);
    }
    assert!(game.is_move_valid(&mv(9, 1, 0)));
}

#[test]
fn reversing_a_move_by_hand() {
    let mut game = Game::from_seed(SEED_3).unwrap();
    let before = columns_of(&game);
    game.move_cards(mv(1, 1, 6)).unwrap();
    let deltas = game.reverse_move_cards(mv(1, 1, 6), true).unwrap();
    assert_eq!(
        deltas,
        vec![
            Delta::PopCard { index: 1 },
            Delta::HiddenCard { index: 1 },
            Delta::PopCard { index: 6 },
            Delta::AppendCard { index: 1, card: Card { suit: Hearts, rank: Jack } },
        ]
    );
    assert_eq!(columns_of(&game), before);
    // the history is not touched
    assert_eq!(game.checkpoints().len(), 2);
}

#[test]
fn seeds_from_text() {
    assert_eq!(seed::from_hex("000102030405060708090a0b0c0d0e0f"), Ok(SEED_0F));
    assert_eq!(seed::from_hex("000102030405060708090A0B0C0D0E0F"), Ok(SEED_0F));
    assert_eq!(seed::from_hex("00000000000000000000000000000003"), Ok(SEED_3));
    // a short text leaves the last bytes zero
    assert_eq!(seed::from_hex(""), Ok([0; 16]));
    assert_eq!(
        seed::from_hex("ff10"),
        Ok([0xff, 0x10, 0, 0, 0, 0, 0, 0, 0, 0, 0, 0, 0, 0, 0, 0])
    );
    // bytes past the sixteenth are ignored
    assert_eq!(seed::from_hex("000102030405060708090a0b0c0d0e0f1011"), Ok(SEED_0F));
    assert_eq!(seed::from_hex("abc"), Err(FromHexError::OddLength));
    assert_eq!(seed::from_hex("zz0"), Err(FromHexError::OddLength));
    assert_eq!(
        seed::from_hex("00g1"),
        Err(FromHexError::InvalidHexCharacter { c: 'g', index: 2 })
    );
    assert_eq!(
        seed::from_hex("0 "),
        Err(FromHexError::InvalidHexCharacter { c: ' ', index: 1 })
    );
    assert_eq!(
        seed::from_hex("xy"),
        Err(FromHexError::InvalidHexCharacter { c: 'x', index: 0 })
    );
}

#[test]
fn seeds_to_text_and_back() {
    assert_eq!(seed::to_hex(&SEED_0F), "000102030405060708090a0b0c0d0e0f");
    assert_eq!(seed::to_hex(&[0xff; 16]), "ffffffffffffffffffffffffffffffff");
    let seed = [0xde, 0xad, 0xbe, 0xef, 1, 2, 3, 4, 5, 6, 7, 8, 9, 10, 0x7f, 0x80];
    assert_eq!(seed::to_hex(&seed), "deadbeef0102030405060708090a7f80");
    assert_eq!(seed::from_hex(&seed::to_hex(&seed)), Ok(seed));
}
