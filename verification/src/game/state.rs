//! The game as specifications see it: what a state is, what each operation
//! makes of it, and which states a game can be in.

use crate::cards::rank::next_rank;
use crate::cards::{descending_run, Card};
use crate::game::source::source_wf;
use crate::game::{Checkpoint, ColumnCard, Move, WIDTH};
use vstd::prelude::*;

verus! {

/// How many cards the opening deal takes from the source.
pub const OPENING_CARDS: usize = 54;

/// The state of a game: the seed and the deck it stands for, how many cards
/// of the deck have been dealt, the columns from base to top, and the
/// history from the start to the latest step.
#[verifier::ext_equal]
pub struct State {
    pub seed: Seq<u8>,
    pub deck: Seq<Card>,
    pub dealt: nat,
    pub columns: Seq<Seq<ColumnCard>>,
    pub checkpoints: Seq<Checkpoint>,
}

/// The cards of a column, whichever way they face.
pub open spec fn cards_of(column: Seq<ColumnCard>) -> Seq<Card> {
    Seq::new(column.len(), |k: int| column[k].card())
}

/// Whether every card of the column is face up.
pub open spec fn all_visible(column: Seq<ColumnCard>) -> bool {
    forall|k: int| 0 <= k < column.len() ==> (#[trigger] column[k]) is Visible
}

/// Whether a run that begins with `first` may be put on `dest`: on an empty
/// column always, and otherwise only on a face-up card whose rank is the
/// next above the rank of `first`. Suits play no part in this.
pub open spec fn lands_on(first: Card, dest: Seq<ColumnCard>) -> bool {
    dest.len() == 0 || (dest.last() is Visible && next_rank(first.rank) == Some(
        dest.last().card().rank,
    ))
}

/// Whether the top `count` cards of `orig` may be moved onto `dest`: there
/// are that many and at least one, all of them face up, they form a
/// descending run, and the run lands on `dest`.
pub open spec fn run_fits(orig: Seq<ColumnCard>, count: int, dest: Seq<ColumnCard>) -> bool {
    &&& 1 <= count <= orig.len()
    &&& all_visible(orig.skip(orig.len() - count))
    &&& descending_run(cards_of(orig.skip(orig.len() - count)))
    &&& lands_on(orig[orig.len() - count].card(), dest)
}

/// Whether the move fits the columns: two different columns of the board,
/// and a run that fits.
pub open spec fn move_fits(columns: Seq<Seq<ColumnCard>>, m: Move) -> bool {
    &&& m.orig_col < columns.len()
    &&& m.dest_col < columns.len()
    &&& m.orig_col != m.dest_col
    &&& run_fits(columns[m.orig_col as int], m.count as int, columns[m.dest_col as int])
}

/// The column without its top card; an empty column stays empty.
pub open spec fn without_top(column: Seq<ColumnCard>) -> Seq<ColumnCard> {
    if column.len() > 0 {
        column.drop_last()
    } else {
        column
    }
}

/// Whether taking the top `count` cards off the origin of `m` uncovers a
/// face-down card, which the move then turns over.
pub open spec fn move_flips(columns: Seq<Seq<ColumnCard>>, m: Move) -> bool {
    let orig = columns[m.orig_col as int];
    let keep = orig.len() - m.count;
    keep > 0 && orig[keep - 1] is Hidden
}

/// The columns after the move `m`: the top `count` cards of the origin lie
/// on the destination in the same order, and a face-down card that they
/// uncovered has been turned over.
pub open spec fn moved(columns: Seq<Seq<ColumnCard>>, m: Move) -> Seq<Seq<ColumnCard>> {
    let orig = columns[m.orig_col as int];
    let dest = columns[m.dest_col as int];
    let keep = orig.len() - m.count;
    let rest = orig.take(keep);
    let left = if move_flips(columns, m) {
        rest.update(keep - 1, ColumnCard::Visible { card: rest[keep - 1].card() })
    } else {
        rest
    };
    columns.update(m.orig_col as int, left).update(m.dest_col as int, dest + orig.skip(keep))
}

/// Whether the move `m` can be taken back on these columns: two different
/// columns of the board, `count` cards on the destination to take, and, if
/// the move turned a card over, a card on the origin to turn back.
pub open spec fn reversible(columns: Seq<Seq<ColumnCard>>, m: Move, flipped: bool) -> bool {
    &&& m.orig_col < columns.len()
    &&& m.dest_col < columns.len()
    &&& m.orig_col != m.dest_col
    &&& m.count <= columns[m.dest_col as int].len()
    &&& flipped ==> columns[m.orig_col as int].len() > 0
}

/// Whether taking the move back turns the top card of the origin face
/// down: the move turned a card over, and that card is still face up.
pub open spec fn reversal_hides(columns: Seq<Seq<ColumnCard>>, m: Move, flipped: bool) -> bool {
    let orig = columns[m.orig_col as int];
    flipped && orig.len() > 0 && orig.last() is Visible
}

/// The columns after the move `m` has been taken back: the card that the
/// move turned over is face down again, and the top `count` cards of the
/// destination lie on the origin in the same order.
pub open spec fn reversed(columns: Seq<Seq<ColumnCard>>, m: Move, flipped: bool) -> Seq<
    Seq<ColumnCard>,
> {
    let orig = columns[m.orig_col as int];
    let dest = columns[m.dest_col as int];
    let top = orig.len() - 1;
    let under = if reversal_hides(columns, m, flipped) {
        orig.update(top, ColumnCard::Hidden { card: orig[top].card() })
    } else {
        orig
    };
    let keep = dest.len() - m.count;
    columns.update(m.orig_col as int, under + dest.skip(keep)).update(
        m.dest_col as int,
        dest.take(keep),
    )
}

/// How many cards the opening deal puts on column `i`.
pub open spec fn opening_count(i: int) -> int {
    if i % 3 == 0 {
        6
    } else {
        5
    }
}

/// How many cards the opening deal puts on the columns before column `i`.
pub open spec fn opening_offset(i: int) -> int {
    5 * i + (i + 2) / 3
}

/// Column `i` of the opening deal from a deck of which `start` cards were
/// dealt before: the next cards of the deck, all face down but the last.
pub open spec fn opening_column(deck: Seq<Card>, start: int, i: int) -> Seq<ColumnCard> {
    Seq::new(
        opening_count(i) as nat,
        |k: int|
            if k == opening_count(i) - 1 {
                ColumnCard::Visible { card: deck[start + opening_offset(i) + k] }
            } else {
                ColumnCard::Hidden { card: deck[start + opening_offset(i) + k] }
            },
    )
}

/// The ten columns of the opening deal.
pub open spec fn opening_columns(deck: Seq<Card>, start: int) -> Seq<Seq<ColumnCard>> {
    Seq::new(WIDTH as nat, |i: int| opening_column(deck, start, i))
}

impl State {
    /// The state right after the opening deal from a deck of which `start`
    /// cards were dealt before.
    pub open spec fn opening(seed: Seq<u8>, deck: Seq<Card>, start: nat) -> State {
        State {
            seed,
            deck,
            dealt: start + 54,
            columns: opening_columns(deck, start as int),
            checkpoints: seq![Checkpoint::Start { count: start as usize }],
        }
    }

    /// Whether some column is empty.
    pub open spec fn has_empty_column(self) -> bool {
        exists|i: int| 0 <= i < self.columns.len() && (#[trigger] self.columns[i]).len() == 0
    }

    /// Whether a deal is possible: no column is empty, and the deck has a
    /// card left for every column.
    pub open spec fn can_deal(self) -> bool {
        &&& !self.has_empty_column()
        &&& self.dealt + self.columns.len() <= self.deck.len()
    }

    /// The state after a deal: every column has got the next card of the
    /// deck, face up, and the history has got a record of the cursor
    /// before.
    pub open spec fn after_deal(self) -> State {
        State {
            dealt: self.dealt + self.columns.len(),
            columns: Seq::new(
                self.columns.len(),
                |i: int| self.columns[i].push(ColumnCard::Visible { card: self.deck[self.dealt + i] }),
            ),
            checkpoints: self.checkpoints.push(Checkpoint::Deal { count: self.dealt as usize }),
            ..self
        }
    }

    /// The state after the move `m`, with the move on record.
    pub open spec fn after_move(self, m: Move) -> State {
        State {
            columns: moved(self.columns, m),
            checkpoints: self.checkpoints.push(
                Checkpoint::Move { action: m, flipped_hidden_card: move_flips(self.columns, m) },
            ),
            ..self
        }
    }

    /// The state with its latest step taken back. The start of the game is
    /// no step: a state whose latest record is the start stays as it is.
    pub open spec fn before_last(self) -> State {
        match self.checkpoints.last() {
            Checkpoint::Start { .. } => self,
            Checkpoint::Deal { count } => State {
                dealt: count as nat,
                columns: Seq::new(self.columns.len(), |i: int| without_top(self.columns[i])),
                checkpoints: self.checkpoints.drop_last(),
                ..self
            },
            Checkpoint::Move { action, flipped_hidden_card } => State {
                columns: reversed(self.columns, action, flipped_hidden_card),
                checkpoints: self.checkpoints.drop_last(),
                ..self
            },
        }
    }

    /// Whether the state is what its history says: the opening deal,
    /// followed by the recorded deals and moves, each possible where it was
    /// made and each leading to the state that the next began in.
    pub open spec fn recorded(self) -> bool
        decreases self.checkpoints.len(),
    {
        if self.checkpoints.len() == 0 {
            false
        } else if self.checkpoints.len() == 1 {
            match self.checkpoints[0] {
                Checkpoint::Start { count } => {
                    &&& count + OPENING_CARDS <= self.deck.len()
                    &&& self == State::opening(self.seed, self.deck, count as nat)
                },
                _ => false,
            }
        } else {
            match self.checkpoints.last() {
                Checkpoint::Start { .. } => false,
                Checkpoint::Deal { .. } => {
                    &&& self.before_last().recorded()
                    &&& self.before_last().can_deal()
                    &&& self == self.before_last().after_deal()
                },
                Checkpoint::Move { action, .. } => {
                    &&& self.before_last().recorded()
                    &&& move_fits(self.before_last().columns, action)
                    &&& self == self.before_last().after_move(action)
                },
            }
        }
    }

    /// What holds of every state of a game: the deck is the one that the
    /// seed stands for, the cursor is within it, there are ten columns, and
    /// the history accounts for the state.
    pub open spec fn wf(self) -> bool {
        &&& source_wf(self.seed, self.deck, self.dealt)
        &&& self.columns.len() == WIDTH
        &&& self.recorded()
    }
}

} // verus!
