//! The game: ten columns of cards, a source to deal from, and a history
//! that takes back every step.

use crate::cards::{is_descending_run, Card};
use vstd::prelude::*;

pub mod delta;
pub mod error;
pub mod history;
pub mod seed;
pub mod source;
pub mod state;

use delta::{
    deal_deltas, empty_mirror, layout_deltas, move_deltas, on_board, replay, reverse_deltas,
    undeal_deltas, visible_part, Delta,
};
use error::GameError;
use source::Source;
use state::{
    cards_of, move_fits, moved, opening_column, opening_count, opening_offset, reversed,
    reversible, run_fits, State,
};

verus! {

/// How many columns the board has.
pub const WIDTH: usize = 10;

/// A card in a column, face up or face down. The engine knows the card
/// either way; an observer knows it only when it is face up.
#[derive(Debug, PartialEq, Eq, Structural, Clone, Copy)]
pub enum ColumnCard {
    Visible { card: Card },
    Hidden { card: Card },
}

impl ColumnCard {
    /// The card itself, whichever way it faces.
    pub open spec fn card(self) -> Card {
        match self {
            ColumnCard::Visible { card } => card,
            ColumnCard::Hidden { card } => card,
        }
    }

    /// What an observer sees of the card: the card if it is face up.
    pub open spec fn shown(self) -> Option<Card> {
        match self {
            ColumnCard::Visible { card } => Some(card),
            ColumnCard::Hidden { .. } => None,
        }
    }
}

/// A request to move the top `count` cards of one column onto another.
/// Whether it can be carried out depends on the board.
#[derive(Debug, PartialEq, Eq, Structural, Clone, Copy)]
pub struct Move {
    pub orig_col: usize,
    pub count: usize,
    pub dest_col: usize,
}

/// One record of the history. A record holds what undo needs to take the
/// step back.
#[derive(Debug, PartialEq, Eq, Structural, Clone, Copy)]
pub enum Checkpoint {
    /// The start of the game; `count` is the cursor of the source before
    /// the opening deal.
    Start { count: usize },
    /// A deal; `count` is the cursor of the source before it.
    Deal { count: usize },
    /// A move; `flipped_hidden_card` tells whether the move uncovered a
    /// face-down card on its origin and turned it over.
    Move { action: Move, flipped_hidden_card: bool },
}

/// The columns as sequences of sequences.
pub open spec fn layout(columns: Seq<Vec<ColumnCard>>) -> Seq<Seq<ColumnCard>> {
    Seq::new(columns.len(), |i: int| columns[i]@)
}

/// How many cards the opening deal puts on each column.
pub fn initial_counts() -> (counts: [usize; 10])
    ensures
        forall|i: int| 0 <= i < 10 ==> counts@[i] == opening_count(i),
{
    [6, 5, 5, 6, 5, 5, 6, 5, 5, 6]
}

/// A game in progress: the source, the ten columns from base to top, and
/// the history.
#[derive(Debug)]
pub struct Game {
    source: Source,
    columns: Vec<Vec<ColumnCard>>,
    checkpoints: Vec<Checkpoint>,
}

impl View for Game {
    type V = State;

    /// The state of the game.
    closed spec fn view(&self) -> State {
        State {
            seed: self.source.seed_bytes(),
            deck: self.source.deck(),
            dealt: self.source.dealt(),
            columns: layout(self.columns@),
            checkpoints: self.checkpoints@,
        }
    }
}

/// Tells whether the top `count` cards of `orig` may be moved onto `dest`:
/// there are that many and at least one, none of them is face down, they
/// form a descending run, and `dest` is empty or shows a card whose rank is
/// the next above the rank of the first moved card.
pub fn is_move_valid(orig: &[ColumnCard], count: usize, dest: &[ColumnCard]) -> (valid: bool)
    ensures
        valid == run_fits(orig@, count as int, dest@),
{
    if count > orig.len() {
        return false;
    }
    let keep = orig.len() - count;
    let ghost taken = orig@.skip(keep as int);
    let mut orig_cards: Vec<Card> = Vec::new();
    let mut k: usize = keep;
    while k < orig.len()
        invariant
            keep <= k <= orig@.len(),
            keep == orig@.len() - count,
            taken == orig@.skip(keep as int),
            orig_cards@.len() == k - keep,
            forall|x: int| 0 <= x < k - keep ==> (#[trigger] taken[x]) is Visible,
            forall|x: int| 0 <= x < k - keep ==> orig_cards@[x] == (#[trigger] taken[x]).card(),
        decreases orig@.len() - k,
    {
        match orig[k] {
            ColumnCard::Hidden { .. } => {
                assert(taken[k - keep] is Hidden);
                return false;
            },
            ColumnCard::Visible { card } => {
                assert(taken[k - keep] == orig@[k as int]);
                orig_cards.push(card);
            },
        }
        k += 1;
    }
    assert(orig_cards@ =~= cards_of(taken));
    if is_descending_run(orig_cards.as_slice()) {
        if dest.len() == 0 {
            // an empty column takes any run
            true
        } else {
            match dest[dest.len() - 1] {
                ColumnCard::Hidden { .. } => false,
                ColumnCard::Visible { card: dest_card } => {
                    assert(orig_cards@[0] == taken[0].card());
                    match crate::cards::rank::successor(orig_cards[0].rank) {
                        None => false,
                        Some(orig_rank_successor) => dest_card.rank == orig_rank_successor,
                    }
                },
            }
        }
    } else {
        false
    }
}

impl Game {
    /// What holds of every game: see [`State::wf`].
    pub open spec fn wf(&self) -> bool {
        self@.wf()
    }

    /// A new game from a random seed.
    pub fn new() -> (res: Result<Game, GameError>)
        ensures
            res matches Ok(game) && game.wf() && game@ == State::opening(
                game@.seed,
                game@.deck,
                0,
            ),
    {
        Game::from_source(Source::new())
    }

    /// The game that `seed` stands for, right after the opening deal.
    pub fn from_seed(seed: [u8; 16]) -> (res: Result<Game, GameError>)
        ensures
            res matches Ok(game) && game.wf() && game@ == State::opening(
                seed@,
                source::shuffled_deck(seed@),
                0,
            ),
    {
        Game::from_source(Source::from_seed(seed))
    }

    /// Starts a game on `source`: deals six, five, five, six, five, five,
    /// six, five, five and six cards onto the ten columns, every card face
    /// down but the last of each column, and opens the history with the
    /// cursor that the source had before. A source with fewer than 54 cards
    /// left cannot start a game.
    pub fn from_source(source: Source) -> (res: Result<Game, GameError>)
        requires
            source.wf(),
        ensures
            match res {
                Ok(game) => {
                    &&& source.dealt() + 54 <= 104
                    &&& game.wf()
                    &&& game@ == State::opening(source.seed_bytes(), source.deck(), source.dealt())
                },
                Err(e) => source.dealt() + 54 > 104 && e == GameError::DealFromEmptyDeck,
            },
    {
        let ghost start = source.dealt() as int;
        let ghost deck = source.deck();
        let ghost seed = source.seed_bytes();
        let mut shoe = source;
        let checkpoint_count = shoe.cards_dealt();
        let counts = initial_counts();
        let mut columns: Vec<Vec<ColumnCard>> = Vec::new();
        let mut i: usize = 0;
        while i < WIDTH
            invariant
                i <= 10,
                start == source.dealt(),
                shoe.wf(),
                shoe.deck() == deck,
                shoe.seed_bytes() == seed,
                shoe.dealt() == start + opening_offset(i as int),
                columns@.len() == i,
                forall|j: int| 0 <= j < i ==> (#[trigger] columns@[j])@ == opening_column(deck, start, j),
                forall|j: int| 0 <= j < 10 ==> counts@[j] == opening_count(j),
            decreases 10 - i,
        {
            let c = counts[i];
            assert(c == opening_count(i as int));
            let mut column: Vec<ColumnCard> = Vec::new();
            let mut k: usize = 0;
            while k < c - 1
                invariant
                    i < 10,
                    k <= c - 1,
                    start == source.dealt(),
                    c == opening_count(i as int),
                    shoe.wf(),
                    shoe.deck() == deck,
                    shoe.seed_bytes() == seed,
                    shoe.dealt() == start + opening_offset(i as int) + k,
                    column@.len() == k,
                    forall|x: int| 0 <= x < k ==> column@[x] == opening_column(deck, start, i as int)[x],
                decreases c - 1 - k,
            {
                let card = match shoe.deal() {
                    Ok(card) => card,
                    Err(e) => {
                        return Err(e);
                    },
                };
                column.push(ColumnCard::Hidden { card });
                k += 1;
            }
            let card = match shoe.deal() {
                Ok(card) => card,
                Err(e) => {
                    return Err(e);
                },
            };
            column.push(ColumnCard::Visible { card });
            assert(column@ =~= opening_column(deck, start, i as int));
            columns.push(column);
            i += 1;
        }
        let game = Game {
            source: shoe,
            columns,
            checkpoints: vec![Checkpoint::Start { count: checkpoint_count }],
        };
        proof {
            let opening = State::opening(seed, deck, start as nat);
            assert(game@.columns =~~= opening.columns);
            assert(game@.checkpoints =~= opening.checkpoints);
            assert(game@ =~= opening);
        }
        Ok(game)
    }

    /// The seed of the game.
    pub fn seed(&self) -> (seed: [u8; 16])
        ensures
            seed@ == self@.seed,
    {
        self.source.seed()
    }

    /// How many cards the game has in all.
    pub fn total_cards(&self) -> (n: usize)
        ensures
            n == self@.deck.len(),
    {
        self.source.total_cards()
    }

    /// How many cards have left the source.
    pub fn cards_dealt(&self) -> (n: usize)
        ensures
            n == self@.dealt,
    {
        self.source.cards_dealt()
    }

    /// The history, from the start of the game to the latest step. It is a
    /// copy to look at: only `undo` takes a step back.
    pub fn checkpoints(&self) -> (history: Vec<Checkpoint>)
        ensures
            history@ == self@.checkpoints,
    {
        let mut history: Vec<Checkpoint> = Vec::new();
        let mut i: usize = 0;
        while i < self.checkpoints.len()
            invariant
                i <= self.checkpoints@.len(),
                history@ == self.checkpoints@.take(i as int),
            decreases self.checkpoints@.len() - i,
        {
            history.push(self.checkpoints[i]);
            assert(history@ =~= self.checkpoints@.take(i + 1));
            i += 1;
        }
        assert(self.checkpoints@.take(i as int) =~= self.checkpoints@);
        history
    }

    /// Tells whether the move fits the board: origin and destination are
    /// two different columns of the board, and the top `count` cards of the
    /// origin may be moved onto the destination.
    pub fn is_move_valid(&self, m: &Move) -> (valid: bool)
        requires
            self@.columns.len() == WIDTH,
        ensures
            valid == move_fits(self@.columns, *m),
    {
        if m.orig_col >= WIDTH || m.dest_col >= WIDTH || m.orig_col == m.dest_col
            || self.columns[m.orig_col].is_empty() || m.count > self.columns[m.orig_col].len() {
            false
        } else {
            is_move_valid(
                self.columns[m.orig_col].as_slice(),
                m.count,
                self.columns[m.dest_col].as_slice(),
            )
        }
    }

    /// The deltas that build the present board from nothing, column by
    /// column and each column from its base to its top: a face-down card for
    /// every hidden card, and the card itself for every visible one. An
    /// observer that starts empty and replays them holds the visible part of
    /// the board.
    pub fn initial_deltas(&self) -> (deltas: Vec<Delta>)
        requires
            self@.columns.len() == WIDTH,
        ensures
            deltas@ == layout_deltas(self@.columns, WIDTH as nat),
            on_board(deltas@, WIDTH as int),
            replay(empty_mirror(WIDTH as nat), deltas@) == visible_part(self@.columns),
    {
        let mut deltas: Vec<Delta> = Vec::new();
        let mut i: usize = 0;
        while i < WIDTH
            invariant
                i <= 10,
                self@.columns.len() == 10,
                deltas@ == layout_deltas(self@.columns, i as nat),
                on_board(deltas@, 10),
            decreases 10 - i,
        {
            let ghost done = deltas@;
            let mut k: usize = 0;
            while k < self.columns[i].len()
                invariant
                    i < 10,
                    self@.columns.len() == 10,
                    k <= self@.columns[i as int].len(),
                    deltas@ == done + delta::column_deltas(self@.columns[i as int], i).take(
                        k as int,
                    ),
                    on_board(deltas@, 10),
                decreases self@.columns[i as int].len() - k,
            {
                match self.columns[i][k] {
                    ColumnCard::Hidden { .. } => deltas.push(Delta::HiddenCard { index: i }),
                    ColumnCard::Visible { card: c } => deltas.push(
                        Delta::AppendCard { index: i, card: c },
                    ),
                }
                assert(deltas@ =~= done + delta::column_deltas(self@.columns[i as int], i).take(
                    k + 1,
                ));
                k += 1;
            }
            assert(deltas@ =~= layout_deltas(self@.columns, (i + 1) as nat)) by {
                let whole = delta::column_deltas(self@.columns[i as int], i);
                assert(whole.take(k as int) =~= whole);
            }
            i += 1;
        }
        proof {
            delta::lemma_layout_mirror(self@.columns);
        }
        deltas
    }

    /// Deals one card, face up, onto every column, and puts the deal on
    /// record. The deal is refused, and nothing changes, while any column
    /// is empty, or when the source has no card left for every column.
    pub fn deal(&mut self) -> (res: Result<Vec<Delta>, GameError>)
        requires
            old(self).wf(),
        ensures
            final(self).wf(),
            match res {
                Ok(deltas) => {
                    &&& old(self)@.can_deal()
                    &&& final(self)@ == old(self)@.after_deal()
                    &&& deltas@ == deal_deltas(
                        old(self)@.deck,
                        old(self)@.dealt as int,
                        WIDTH as nat,
                    )
                    &&& on_board(deltas@, WIDTH as int)
                    &&& replay(visible_part(old(self)@.columns), deltas@) == visible_part(
                        final(self)@.columns,
                    )
                },
                Err(e) => {
                    &&& !old(self)@.can_deal()
                    &&& final(self)@ == old(self)@
                    &&& e == if old(self)@.has_empty_column() {
                        GameError::DealToEmptyColumn
                    } else {
                        GameError::DealFromEmptyDeck
                    }
                },
            },
    {
        let mut deltas: Vec<Delta> = Vec::new();
        let checkpoint_count = self.source.cards_dealt();

        // every column is looked at before anything is changed, so that a
        // refused deal leaves nothing to put right
        let mut i: usize = 0;
        while i < WIDTH
            invariant
                i <= 10,
                *self == *old(self),
                old(self).wf(),
                self@.columns.len() == 10,
                forall|j: int| 0 <= j < i ==> (#[trigger] self@.columns[j]).len() > 0,
            decreases 10 - i,
        {
            if self.columns[i].is_empty() {
                assert(self@.columns[i as int].len() == 0);
                return Err(GameError::DealToEmptyColumn);
            }
            i += 1;
        }
        if self.source.total_cards() - self.source.cards_dealt() < WIDTH {
            return Err(GameError::DealFromEmptyDeck);
        }
        let ghost before = old(self)@;
        let mut i: usize = 0;
        while i < WIDTH
            invariant
                i <= 10,
                before == old(self)@,
                before.wf(),
                before.can_deal(),
                self.source.wf(),
                self.source.deck() == before.deck,
                self.source.seed_bytes() == before.seed,
                self.source.dealt() == before.dealt + i,
                self.checkpoints@ == before.checkpoints,
                self.columns@.len() == 10,
                forall|j: int|
                    0 <= j < i ==> (#[trigger] self.columns@[j])@ == before.columns[j].push(
                        ColumnCard::Visible { card: before.deck[before.dealt + j] },
                    ),
                forall|j: int| i <= j < 10 ==> (#[trigger] self.columns@[j])@ == before.columns[j],
                deltas@ == deal_deltas(before.deck, before.dealt as int, 10).take(i as int),
            decreases 10 - i,
        {
            let card = match self.source.deal() {
                Ok(card) => card,
                Err(e) => {
                    return Err(e);
                },
            };
            self.columns[i].push(ColumnCard::Visible { card });
            deltas.push(Delta::AppendCard { index: i, card });
            assert(deltas@ =~= deal_deltas(before.deck, before.dealt as int, 10).take(i + 1));
            i += 1;
        }
        self.checkpoints.push(Checkpoint::Deal { count: checkpoint_count });
        proof {
            let whole = deal_deltas(before.deck, before.dealt as int, 10);
            assert(whole.take(10) =~= whole);
            assert(self@.columns =~~= before.after_deal().columns);
            assert(self@ =~= before.after_deal());
            history::lemma_deal_round_trip(before);
            delta::lemma_deal_mirror(before);
        }
        Ok(deltas)
    }

    /// Moves the top `count` cards of the origin onto the destination, in
    /// the order in which they lie, turns over a face-down card that this
    /// uncovers, and puts the move on record. A move that does not fit the
    /// board is refused, and nothing changes.
    pub fn move_cards(&mut self, m: Move) -> (res: Result<Vec<Delta>, GameError>)
        requires
            old(self).wf(),
        ensures
            final(self).wf(),
            match res {
                Ok(deltas) => {
                    &&& move_fits(old(self)@.columns, m)
                    &&& final(self)@ == old(self)@.after_move(m)
                    &&& deltas@ == move_deltas(old(self)@.columns, m)
                    &&& on_board(deltas@, WIDTH as int)
                    &&& replay(visible_part(old(self)@.columns), deltas@) == visible_part(
                        final(self)@.columns,
                    )
                },
                Err(e) => {
                    &&& !move_fits(old(self)@.columns, m)
                    &&& final(self)@ == old(self)@
                    &&& e == GameError::InvalidMove { mv: m }
                },
            },
    {
        if !self.is_move_valid(&m) {
            return Err(GameError::InvalidMove { mv: m });
        }
        let ghost before = old(self)@;
        let ghost orig = before.columns[m.orig_col as int];
        let ghost dest = before.columns[m.dest_col as int];
        let mut deltas: Vec<Delta> = Vec::new();

        let orig_len = self.columns[m.orig_col].len();
        let keep = orig_len - m.count;
        let orig_cards: Vec<ColumnCard> = self.columns[m.orig_col].split_off(keep);
        assert(orig_cards@ =~= orig.skip(keep as int));
        let mut k: usize = 0;
        while k < orig_cards.len()
            invariant
                k <= orig_cards@.len(),
                before == old(self)@,
                before.wf(),
                move_fits(before.columns, m),
                orig == before.columns[m.orig_col as int],
                dest == before.columns[m.dest_col as int],
                keep == orig.len() - m.count,
                orig_cards@ == orig.skip(keep as int),
                self.source == old(self).source,
                self.checkpoints@ == before.checkpoints,
                self.columns@.len() == 10,
                forall|j: int|
                    0 <= j < 10 && j != m.orig_col && j != m.dest_col ==> (
                    #[trigger] self.columns@[j])@ == before.columns[j],
                self.columns@[m.orig_col as int]@ == orig.take(keep as int),
                self.columns@[m.dest_col as int]@ == dest + orig_cards@.take(k as int),
                deltas@ == delta::transfer_deltas(
                    orig_cards@.take(k as int),
                    m.orig_col,
                    m.dest_col,
                ),
                on_board(deltas@, 10),
            decreases orig_cards@.len() - k,
        {
            let card = orig_cards[k];
            self.columns[m.dest_col].push(card);
            if let ColumnCard::Visible { card: c } = card {
                deltas.push(Delta::PopCard { index: m.orig_col });
                deltas.push(Delta::AppendCard { index: m.dest_col, card: c });
            }
            proof {
                let next = orig_cards@.take(k + 1);
                assert(next.drop_last() =~= orig_cards@.take(k as int));
                assert(next.last() == card);
                assert(deltas@ =~= delta::transfer_deltas(next, m.orig_col, m.dest_col));
                assert(self.columns@[m.dest_col as int]@ =~= dest + next);
            }
            k += 1;
        }
        assert(orig_cards@.take(k as int) =~= orig_cards@);

        // a face-down card that the move uncovered is turned over
        let flipped_hidden_card = if self.columns[m.orig_col].is_empty() {
            false
        } else {
            let last_card_index = self.columns[m.orig_col].len() - 1;
            if let ColumnCard::Hidden { card: c } = self.columns[m.orig_col][last_card_index] {
                self.columns[m.orig_col][last_card_index] = ColumnCard::Visible { card: c };
                deltas.push(Delta::PopCard { index: m.orig_col });
                deltas.push(Delta::AppendCard { index: m.orig_col, card: c });
                true
            } else {
                false
            }
        };

        self.checkpoints.push(Checkpoint::Move { action: m, flipped_hidden_card });
        proof {
            assert(flipped_hidden_card == state::move_flips(before.columns, m));
            assert(deltas@ =~= move_deltas(before.columns, m));
            assert(self@.columns =~~= moved(before.columns, m));
            assert(self@ =~= before.after_move(m));
            history::lemma_move_round_trip(before, m);
            delta::lemma_move_mirror(before.columns, m);
        }
        Ok(deltas)
    }

    /// Takes the move `m` back on the columns, and nothing else: if the
    /// move turned a card over and that card still shows, it is turned face
    /// down again, and the top `count` cards of the destination go back
    /// onto the origin in the order in which they lie. The history and the
    /// source stay as they are; `undo` is the operation that keeps the
    /// history in step.
    pub fn reverse_move_cards(&mut self, m: Move, flipped_hidden_card: bool) -> (res: Result<
        Vec<Delta>,
        GameError,
    >)
        requires
            reversible(old(self)@.columns, m, flipped_hidden_card),
        ensures
            res matches Ok(deltas) && deltas@ == reverse_deltas(
                old(self)@.columns,
                m,
                flipped_hidden_card,
            ) && on_board(deltas@, old(self)@.columns.len() as int),
            final(self)@ == (State {
                columns: reversed(old(self)@.columns, m, flipped_hidden_card),
                ..old(self)@
            }),
    {
        let ghost before = old(self)@;
        let ghost orig = before.columns[m.orig_col as int];
        let ghost dest = before.columns[m.dest_col as int];
        let ghost hides = state::reversal_hides(before.columns, m, flipped_hidden_card);
        let mut deltas: Vec<Delta> = Vec::new();

        // a card that the move turned over is turned back
        if flipped_hidden_card {
            let last_card_index = self.columns[m.orig_col].len() - 1;
            if let ColumnCard::Visible { card: c } = self.columns[m.orig_col][last_card_index] {
                self.columns[m.orig_col][last_card_index] = ColumnCard::Hidden { card: c };
                deltas.push(Delta::PopCard { index: m.orig_col });
                deltas.push(Delta::HiddenCard { index: m.orig_col });
            }
        }
        let ghost under = self.columns@[m.orig_col as int]@;
        let ghost first = deltas@;

        let dest_len = self.columns[m.dest_col].len();
        let keep = dest_len - m.count;
        let dest_cards: Vec<ColumnCard> = self.columns[m.dest_col].split_off(keep);
        assert(dest_cards@ =~= dest.skip(keep as int));
        let mut k: usize = 0;
        while k < dest_cards.len()
            invariant
                k <= dest_cards@.len(),
                before == old(self)@,
                m.orig_col < before.columns.len(),
                m.dest_col < before.columns.len(),
                m.orig_col != m.dest_col,
                dest == before.columns[m.dest_col as int],
                keep == dest.len() - m.count,
                dest_cards@ == dest.skip(keep as int),
                self.source == old(self).source,
                self.checkpoints@ == before.checkpoints,
                self.columns@.len() == before.columns.len(),
                forall|j: int|
                    0 <= j < before.columns.len() && j != m.orig_col && j != m.dest_col ==> (
                    #[trigger] self.columns@[j])@ == before.columns[j],
                self.columns@[m.dest_col as int]@ == dest.take(keep as int),
                self.columns@[m.orig_col as int]@ == under + dest_cards@.take(k as int),
                deltas@ == first + delta::transfer_deltas(
                    dest_cards@.take(k as int),
                    m.dest_col,
                    m.orig_col,
                ),
                on_board(deltas@, before.columns.len() as int),
            decreases dest_cards@.len() - k,
        {
            let card = dest_cards[k];
            self.columns[m.orig_col].push(card);
            if let ColumnCard::Visible { card: c } = card {
                deltas.push(Delta::PopCard { index: m.dest_col });
                deltas.push(Delta::AppendCard { index: m.orig_col, card: c });
            }
            proof {
                let next = dest_cards@.take(k + 1);
                assert(next.drop_last() =~= dest_cards@.take(k as int));
                assert(next.last() == card);
                assert(deltas@ =~= first + delta::transfer_deltas(next, m.dest_col, m.orig_col));
                assert(self.columns@[m.orig_col as int]@ =~= under + next);
            }
            k += 1;
        }
        proof {
            assert(dest_cards@.take(k as int) =~= dest_cards@);
            assert(self@.columns =~~= reversed(before.columns, m, flipped_hidden_card));
            assert(self@ =~= (State {
                columns: reversed(before.columns, m, flipped_hidden_card),
                ..before
            }));
        }
        Ok(deltas)
    }

    /// Takes the latest step back and removes it from the record: after a
    /// deal the source is rewound and every column loses its top card, and
    /// after a move the cards go back and a card that the move turned over
    /// is face down again. The start of the game is never taken back: with
    /// nothing else on record, undo is refused and nothing changes.
    pub fn undo(&mut self) -> (res: Result<Vec<Delta>, GameError>)
        requires
            old(self).wf(),
        ensures
            final(self).wf(),
            match res {
                Ok(deltas) => {
                    &&& old(self)@.checkpoints.len() >= 2
                    &&& final(self)@ == old(self)@.before_last()
                    &&& deltas@ == delta::undo_deltas(old(self)@)
                    &&& on_board(deltas@, WIDTH as int)
                    &&& replay(visible_part(old(self)@.columns), deltas@) == visible_part(
                        final(self)@.columns,
                    )
                },
                Err(e) => {
                    &&& old(self)@.checkpoints.len() < 2
                    &&& final(self)@ == old(self)@
                    &&& e == GameError::NoCheckpointsToUndo
                },
            },
    {
        if self.checkpoints.len() < 2 {
            return Err(GameError::NoCheckpointsToUndo);
        }
        let ghost before = old(self)@;
        proof {
            history::lemma_undo_keeps_wf(before);
        }
        match self.checkpoints.pop() {
            Some(Checkpoint::Deal { count }) => {
                let mut deltas: Vec<Delta> = Vec::new();
                match self.source.rewind(count) {
                    Ok(_) => {},
                    Err(e) => {
                        return Err(e);
                    },
                }
                let mut i: usize = 0;
                while i < WIDTH
                    invariant
                        i <= 10,
                        before == old(self)@,
                        before.columns.len() == 10,
                        self.source.wf(),
                        self.source.deck() == before.deck,
                        self.source.seed_bytes() == before.seed,
                        self.source.dealt() == count,
                        self.checkpoints@ == before.checkpoints.drop_last(),
                        self.columns@.len() == 10,
                        forall|j: int|
                            0 <= j < i ==> (#[trigger] self.columns@[j])@ == state::without_top(
                                before.columns[j],
                            ),
                        forall|j: int|
                            i <= j < 10 ==> (#[trigger] self.columns@[j])@ == before.columns[j],
                        deltas@ == undeal_deltas(10).take(i as int),
                    decreases 10 - i,
                {
                    self.columns[i].pop();
                    deltas.push(Delta::PopCard { index: i });
                    assert(deltas@ =~= undeal_deltas(10).take(i + 1));
                    i += 1;
                }
                proof {
                    assert(undeal_deltas(10).take(10) =~= undeal_deltas(10));
                    assert(self@.columns =~~= before.before_last().columns);
                    assert(self@ =~= before.before_last());
                    delta::lemma_undo_mirror(before);
                }
                Ok(deltas)
            },
            Some(Checkpoint::Move { action, flipped_hidden_card }) => {
                proof {
                    history::lemma_moved_is_reversible(before.before_last().columns, action);
                    delta::lemma_undo_mirror(before);
                }
                let res = self.reverse_move_cards(action, flipped_hidden_card);
                assert(self@ =~= before.before_last());
                res
            },
            _unknown => Err(GameError::UnknownCheckpoint),
        }
    }
}

} // verus!
