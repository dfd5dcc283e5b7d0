use spider::autoplay::{next_action, Action};
use spider::cards::rank::Rank::{Ace, Eight, Five, Four, Jack, King, Queen, Six, Ten, Three, Two};
use spider::cards::suit::Suit::{Clubs, Diamonds, Hearts, Spades};
use spider::cards::Card;
use spider::client::digest::{digest_of, preimage};
use spider::client::error::ClientError;
use spider::client::moves::{candidate_moves, known_run_length};
use spider::client::{client_from_game, mark_moves, Client, PotentialMove};
use spider::game::delta::Delta;
use spider::game::error::GameError;
use spider::game::{Checkpoint, Game, Move};
use spider::hex_text::FromHexError;

const SEED_3: &str = "00000000000000000000000000000003";

fn mv(orig_col: usize, count: usize, dest_col: usize) -> Move {
    Move { orig_col, count, dest_col }
}

fn card(suit: spider::cards::suit::Suit, rank: spider::cards::rank::Rank) -> Option<Card> {
    Some(Card { suit, rank })
}

fn plain(list: &[PotentialMove]) -> Vec<(usize, usize, usize)> {
    list.iter().map(|p| (p.mv.orig_col, p.mv.count, p.mv.dest_col)).collect()
}

fn empty_board() -> Vec<Vec<Option<Card>>> {
    vec![Vec::new(); 10]
}

/// The client of seed 3 after the five moves that empty its second column.
fn client_with_empty_column() -> Client {
    let mut client = Client::from_hex(SEED_3).unwrap();
    for m in [mv(1, 1, 6), mv(1, 1, 7), mv(1, 1, 8), mv(1, 1, 7), mv(1, 1, 6)] {
        client.move_cards(m).unwrap();
    }
    client
}

#[test]
fn a_client_starts_with_the_visible_board() {
    let client = Client::from_hex(SEED_3).unwrap();
    assert_eq!(client.seed(), SEED_3);
    assert_eq!(client.total_cards(), 104);
    assert_eq!(client.cards_dealt(), 54);
    assert_eq!(client.checkpoints(), vec![Checkpoint::Start { count: 0 }]);
    let sizes: Vec<usize> = client.local.iter().map(|c| c.len()).collect();
    assert_eq!(sizes, vec![6, 5, 5, 6, 5, 5, 6, 5, 5, 6]);
    for column in &client.local {
        for (k, slot) in column.iter().enumerate() {
            assert_eq!(slot.is_some(), k == column.len() - 1);
        }
    }
    assert_eq!(client.local[0][5], card(Spades, Eight));
    assert_eq!(client.local[1][4], card(Hearts, Jack));
    assert_eq!(client.local[9][5], Some(Card { suit: Hearts, rank: spider::cards::rank::Rank::Seven }));
    assert_eq!(
        client.digest(),
        "ea4d3884f83cfd65a709e9f72f020915deb7b9dd1eef3f9fe83923f6cdd894ff"
    );
}

#[test]
fn a_random_client_can_be_made_again_from_its_seed() {
    let client = Client::new().unwrap();
    assert_eq!(client.seed().len(), 32);
    let again = Client::from_hex(&client.seed()).unwrap();
    assert_eq!(again.local, client.local);
    assert_eq!(again.digest(), client.digest());
    assert_eq!(client.cards_dealt(), 54);
}

#[test]
fn seed_text_must_be_hexadecimal() {
    assert_eq!(
        Client::from_hex("abc").err(),
        Some(ClientError::HexError(FromHexError::OddLength))
    );
    assert_eq!(
        Client::from_hex("0x").err(),
        Some(ClientError::HexError(FromHexError::InvalidHexCharacter { c: 'x', index: 1 }))
    );
    let short = Client::from_hex("03").unwrap();
    assert_eq!(short.seed(), "03000000000000000000000000000000");
    let upper = Client::from_hex("000102030405060708090A0B0C0D0E0F").unwrap();
    assert_eq!(upper.seed(), "000102030405060708090a0b0c0d0e0f");
    assert_eq!(
        upper.digest(),
        "fb5ce10d6b53944bdb87d0f222d288b1bc30c3ad6c86a9009d685cf6fb607643"
    );
}

#[test]
fn a_client_on_a_game_in_progress() {
    let mut game = Game::from_seed([0, 0, 0, 0, 0, 0, 0, 0, 0, 0, 0, 0, 0, 0, 0, 3]).unwrap();
    game.move_cards(mv(1, 1, 6)).unwrap();
    let client = client_from_game(game).unwrap();
    assert_eq!(client.local[1], vec![None, None, None, card(Diamonds, Three)]);
    assert_eq!(client.local[6][5], card(Hearts, Queen));
    assert_eq!(client.local[6][6], card(Hearts, Jack));
    assert_eq!(client.checkpoints().len(), 2);
}

#[test]
fn possible_moves_at_the_start() {
    let client = Client::from_hex(SEED_3).unwrap();
    let list = client.possible_moves().unwrap();
    assert_eq!(
        plain(&list),
        vec![
            (1, 1, 6),
            (2, 1, 1),
            (2, 1, 3),
            (3, 1, 6),
            (4, 1, 7),
            (5, 1, 8),
            (5, 1, 9),
            (8, 1, 0),
            (9, 1, 0),
        ]
    );
    assert!(list.iter().all(|p| !p.is_used));
}

#[test]
fn possible_moves_offer_every_run_to_every_column() {
    let client = client_with_empty_column();
    let list = client.possible_moves().unwrap();
    assert_eq!(
        plain(&list),
        vec![
            (0, 1, 1),
            (2, 1, 1),
            (2, 1, 3),
            (3, 1, 1),
            (4, 1, 1),
            (5, 1, 1),
            (5, 1, 9),
            (6, 1, 1),
            (6, 1, 3),
            (6, 2, 1),
            (6, 3, 1),
            (7, 1, 1),
            (7, 1, 4),
            (7, 2, 1),
            (8, 1, 1),
            (8, 1, 9),
            (8, 2, 0),
            (8, 2, 1),
            (9, 1, 0),
            (9, 1, 1),
        ]
    );
}

#[test]
fn every_possible_move_is_accepted() {
    let client = client_with_empty_column();
    for p in client.possible_moves().unwrap() {
        let mut trial = client_with_empty_column();
        assert_eq!(trial.move_cards(p.mv), Ok(()));
        assert_eq!(trial.undo(), Ok(()));
        assert_eq!(trial.local, client.local);
    }
}

#[test]
fn a_move_onto_an_empty_column_and_back() {
    let mut client = client_with_empty_column();
    let before = client.local.clone();
    let pre_move_digest = client.digest();
    assert_eq!(
        pre_move_digest,
        "922611d100948ae92daa4da0e1339057451e7b9cc35aa218cd8ac9e93e0f4947"
    );
    assert!(before[1].is_empty());
    assert_eq!(client.move_cards(mv(6, 1, 1)), Ok(()));
    assert_eq!(client.local[1], vec![card(Hearts, Ten)]);
    assert_eq!(client.local[6].len(), 7);
    assert_eq!(client.local[6][6], card(Hearts, Jack));
    assert_eq!(
        client.digest(),
        "dc81e14cbee439621e9bccb523b682b542e4e0a2f4eefa26555ab98847280935"
    );
    assert_eq!(client.checkpoints().len(), 7);
    assert_eq!(client.undo(), Ok(()));
    assert_eq!(client.local, before);
    assert_eq!(client.digest(), pre_move_digest);
    assert_eq!(client.checkpoints().len(), 6);
}

#[test]
fn a_move_that_flips_a_card_and_back() {
    let mut client = client_with_empty_column();
    let before = client.local.clone();
    let pre_move_digest = client.digest();
    assert_eq!(client.move_cards(mv(0, 1, 1)), Ok(()));
    assert_eq!(client.local[1], vec![card(Spades, Eight)]);
    assert_eq!(
        client.local[0],
        vec![None, None, None, None, Some(Card { suit: Clubs, rank: spider::cards::rank::Rank::Nine })]
    );
    assert_eq!(
        client.digest(),
        "95200338e5b5048192160e88e627bef98d4f1c0d28e658cc7eb498866cb74fff"
    );
    assert_eq!(client.undo(), Ok(()));
    assert_eq!(client.local, before);
    assert_eq!(client.local[0][4], None);
    assert_eq!(client.digest(), pre_move_digest);
}

#[test]
fn the_move_made_from_a_position_is_marked_there() {
    let mut client = client_with_empty_column();
    let position = client.digest();
    client.move_cards(mv(6, 1, 1)).unwrap();
    assert_eq!(
        plain(&client.possible_moves().unwrap()),
        vec![
            (1, 1, 3),
            (1, 1, 6),
            (2, 1, 3),
            (2, 1, 6),
            (5, 1, 9),
            (7, 1, 4),
            (8, 1, 9),
            (8, 2, 0),
            (9, 1, 0),
        ]
    );
    // the ten of hearts goes back onto the jack: the same position again
    client.move_cards(mv(1, 1, 6)).unwrap();
    assert_eq!(client.digest(), position);
    let list = client.possible_moves().unwrap();
    for p in &list {
        assert_eq!(p.is_used, p.mv == mv(6, 1, 1));
    }
    assert!(list.iter().any(|p| p.is_used));
    // undo forgets what was made from the position that it comes back to
    client.undo().unwrap();
    client.undo().unwrap();
    assert_eq!(client.digest(), position);
    assert!(client.possible_moves().unwrap().iter().all(|p| !p.is_used));
}

#[test]
fn client_deal_and_undo() {
    let mut client = Client::from_hex(SEED_3).unwrap();
    let before = client.local.clone();
    assert_eq!(client.deal(), Ok(()));
    assert_eq!(client.cards_dealt(), 64);
    let tops: Vec<Option<Card>> = client.local.iter().map(|c| c[c.len() - 1]).collect();
    assert_eq!(
        tops,
        vec![
            card(Diamonds, Queen),
            card(Hearts, Queen),
            Some(Card { suit: Hearts, rank: spider::cards::rank::Rank::Seven }),
            card(Clubs, King),
            card(Diamonds, Jack),
            card(Diamonds, Four),
            card(Diamonds, Queen),
            card(Diamonds, Ten),
            card(Spades, Ten),
            card(Clubs, Six),
        ]
    );
    assert_eq!(client.undo(), Ok(()));
    assert_eq!(client.local, before);
    assert_eq!(client.cards_dealt(), 54);
    assert_eq!(client.undo(), Err(ClientError::GameError(GameError::NoCheckpointsToUndo)));
    assert_eq!(client.local, before);
}

#[test]
fn the_client_hands_on_what_the_game_refuses() {
    let mut client = client_with_empty_column();
    let before = client.local.clone();
    assert_eq!(client.deal(), Err(ClientError::GameError(GameError::DealToEmptyColumn)));
    assert_eq!(client.local, before);
    assert_eq!(
        client.move_cards(mv(6, 4, 1)),
        Err(ClientError::GameError(GameError::InvalidMove { mv: mv(6, 4, 1) }))
    );
    assert_eq!(client.local, before);
    assert_eq!(client.checkpoints().len(), 6);
    let mut fresh = Client::from_hex(SEED_3).unwrap();
    for _ in 0..5 {
        fresh.deal().unwrap();
    }
    assert_eq!(fresh.cards_dealt(), fresh.total_cards());
    assert_eq!(fresh.deal(), Err(ClientError::GameError(GameError::DealFromEmptyDeck)));
}

#[test]
fn deltas_are_replayed_in_order() {
    let mut client = Client::from_hex(SEED_3).unwrap();
    let deltas = vec![
        Delta::PopCard { index: 2 },
        Delta::HiddenCard { index: 2 },
        Delta::AppendCard { index: 2, card: Card { suit: Clubs, rank: Ace } },
        Delta::AppendCard { index: 4, card: Card { suit: Spades, rank: King } },
        Delta::PopCard { index: 4 },
        Delta::PopCard { index: 4 },
    ];
    assert_eq!(client.apply_deltas(deltas.clone()), Ok(()));
    assert_eq!(client.local[2], vec![None, None, None, None, None, card(Clubs, Ace)]);
    assert_eq!(client.local[4], vec![None, None, None, None]);
    // taking a card off an empty column changes nothing
    let mut other = Client::from_hex(SEED_3).unwrap();
    assert_eq!(other.apply_deltas(deltas), Ok(()));
    assert_eq!(other.local, client.local);
    let pops: Vec<Delta> = (0..7).map(|_| Delta::PopCard { index: 1 }).collect();
    assert_eq!(other.apply_deltas(pops), Ok(()));
    assert!(other.local[1].is_empty());
    assert_eq!(other.apply_deltas(Vec::new()), Ok(()));
}

#[test]
fn an_opaque_top_on_a_destination_is_a_fault() {
    let mut board = empty_board();
    board[0] = vec![None, card(Clubs, Ace)];
    board[3] = vec![card(Clubs, Two), None];
    assert_eq!(candidate_moves(&board), Err(ClientError::BottomNotVisible));
    // also where no move could land on it anyway
    let mut board = empty_board();
    board[2] = vec![card(Hearts, King)];
    board[7] = vec![None];
    assert_eq!(candidate_moves(&board), Err(ClientError::BottomNotVisible));
}

#[test]
fn an_opaque_top_on_the_first_column_with_cards_is_a_fault() {
    let mut board = empty_board();
    board[1] = vec![card(Clubs, Two), None];
    board[3] = vec![None, card(Clubs, Ace)];
    assert_eq!(candidate_moves(&board), Err(ClientError::NoMove));
    let mut board = empty_board();
    board[9] = vec![None];
    assert_eq!(candidate_moves(&board), Err(ClientError::NoMove));
}

#[test]
fn candidate_moves_of_small_boards() {
    assert_eq!(candidate_moves(&empty_board()), Ok(vec![]));
    let mut board = empty_board();
    for i in 1..10 {
        board[i] = vec![card(Spades, Ace)];
    }
    board[0] = vec![None, card(Hearts, Six), card(Clubs, Three), card(Clubs, Two)];
    board[4] = vec![card(Diamonds, Three)];
    board[7] = vec![card(Hearts, Four)];
    let moves = candidate_moves(&board).unwrap();
    let from_first: Vec<Move> = moves.iter().copied().filter(|m| m.orig_col == 0).collect();
    // the two lands on a three, the run of three and two lands on a four
    assert_eq!(from_first, vec![mv(0, 1, 4), mv(0, 2, 7)]);
    let onto_first: Vec<Move> = moves.iter().copied().filter(|m| m.dest_col == 0).collect();
    assert_eq!(
        onto_first,
        vec![mv(1, 1, 0), mv(2, 1, 0), mv(3, 1, 0), mv(5, 1, 0), mv(6, 1, 0), mv(8, 1, 0), mv(9, 1, 0)]
    );
    // a king goes to an empty column and nowhere else
    let mut board = empty_board();
    board[5] = vec![card(Hearts, King), card(Hearts, Queen)];
    board[6] = vec![card(Hearts, Ace)];
    let moves = candidate_moves(&board).unwrap();
    let kings: Vec<Move> = moves.iter().copied().filter(|m| m.orig_col == 5 && m.count == 2).collect();
    assert_eq!(kings.len(), 8);
    assert!(kings.iter().all(|m| m.dest_col != 6 && m.dest_col != 5));
}

#[test]
fn run_lengths() {
    assert_eq!(known_run_length(&vec![]), 0);
    assert_eq!(known_run_length(&vec![None]), 0);
    assert_eq!(known_run_length(&vec![card(Clubs, Ace), None]), 0);
    assert_eq!(known_run_length(&vec![None, card(Clubs, Ace)]), 1);
    assert_eq!(known_run_length(&vec![card(Clubs, Two), card(Clubs, Ace)]), 2);
    assert_eq!(known_run_length(&vec![card(Diamonds, Two), card(Clubs, Ace)]), 1);
    assert_eq!(known_run_length(&vec![card(Clubs, Three), card(Clubs, Ace)]), 1);
    assert_eq!(
        known_run_length(&vec![
            card(Clubs, Five),
            None,
            card(Clubs, Three),
            card(Clubs, Two),
            card(Clubs, Ace)
        ]),
        3
    );
    assert_eq!(
        known_run_length(&vec![card(Spades, King), card(Spades, Queen), card(Spades, Jack), card(Spades, Ten)]),
        4
    );
    assert_eq!(known_run_length(&vec![card(Clubs, King), card(Diamonds, Ace)]), 1);
}

#[test]
fn digests_spell_the_board_out() {
    assert_eq!(preimage(&empty_board()), vec![0x7c; 10]);
    assert_eq!(
        digest_of(&empty_board()),
        "756514a3231dbf6ab3d5dbc1c15ae68bb074afd83ec41118ca7adfa02a8c57c9"
    );
    let mut board = empty_board();
    board[0] = vec![None, card(Clubs, Ace)];
    board[3] = vec![card(Spades, King)];
    assert_eq!(
        preimage(&board),
        vec![
            0x7c, 0x5f, 0x02, 0x00, 0x00, 0x7c, 0x7c, 0x7c, 0x03, 0x0c, 0x7c, 0x7c, 0x7c, 0x7c,
            0x7c, 0x7c
        ]
    );
    assert_eq!(
        digest_of(&board),
        "1cbc54267bcde9b494621b09551f60af4c258c8854ddc5e5f7beb8c8f5a79277"
    );
    // no columns, nothing to hash
    assert_eq!(preimage(&Vec::new()), Vec::<u8>::new());
    assert_eq!(
        digest_of(&Vec::new()),
        "e3b0c44298fc1c149afbf4c8996fb92427ae41e4649b934ca495991b7852b855"
    );
}

#[test]
fn marks_go_to_the_last_move_only() {
    let moves = vec![mv(0, 1, 1), mv(0, 1, 2), mv(3, 2, 1)];
    assert_eq!(
        mark_moves(&moves, Some(mv(0, 1, 2))),
        vec![
            PotentialMove { mv: mv(0, 1, 1), is_used: false },
            PotentialMove { mv: mv(0, 1, 2), is_used: true },
            PotentialMove { mv: mv(3, 2, 1), is_used: false },
        ]
    );
    assert!(mark_moves(&moves, None).iter().all(|p| !p.is_used));
    assert!(mark_moves(&moves, Some(mv(1, 1, 0))).iter().all(|p| !p.is_used));
    assert_eq!(mark_moves(&Vec::new(), Some(mv(1, 1, 0))), vec![]);
}

#[test]
fn automatic_play_takes_the_first_fresh_move() {
    let none = mv(0, 0, 0);
    let list = vec![
        PotentialMove { mv: mv(1, 1, 6), is_used: false },
        PotentialMove { mv: mv(6, 1, 1), is_used: true },
        PotentialMove { mv: mv(2, 1, 3), is_used: false },
    ];
    assert_eq!(next_action(&list, none, 54, 104), Action::Play { index: 0 });
    // not the same move again, and not the move before taken back
    assert_eq!(next_action(&list, mv(1, 1, 6), 54, 104), Action::Play { index: 2 });
    assert_eq!(next_action(&list, mv(6, 1, 1), 54, 104), Action::Play { index: 2 });
    assert_eq!(next_action(&list, mv(3, 1, 2), 54, 104), Action::Play { index: 0 });
    let stale = vec![
        PotentialMove { mv: mv(1, 1, 6), is_used: true },
        PotentialMove { mv: mv(2, 1, 3), is_used: false },
    ];
    assert_eq!(next_action(&stale, mv(3, 1, 2), 54, 104), Action::Deal);
    assert_eq!(next_action(&stale, mv(3, 1, 2), 104, 104), Action::Deal);
    assert_eq!(next_action(&Vec::new(), none, 54, 104), Action::Deal);
    assert_eq!(next_action(&Vec::new(), none, 104, 104), Action::Stop);
}
