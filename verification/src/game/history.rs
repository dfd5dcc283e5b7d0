//! The history of a game: steps of play, taking them back, and what holds
//! of every game because of the way it came about.

use crate::cards::Card;
use crate::game::state::{
    all_visible, cards_of, move_fits, move_flips, moved, opening_columns, opening_offset,
    reversal_hides, reversed, reversible, State,
};
use crate::game::{Checkpoint, ColumnCard, Move};
use vstd::multiset::Multiset;
use vstd::prelude::*;
use vstd::seq_lib::lemma_multiset_commutative;

verus! {

/// One step of play: a deal, or a move.
#[derive(Debug, PartialEq, Eq, Structural, Clone, Copy)]
pub enum Play {
    Deal,
    Move { action: Move },
}

impl State {
    /// Whether the step is possible in this state.
    pub open spec fn allows(self, play: Play) -> bool {
        match play {
            Play::Deal => self.can_deal(),
            Play::Move { action } => move_fits(self.columns, action),
        }
    }

    /// The state after the step.
    pub open spec fn after(self, play: Play) -> State {
        match play {
            Play::Deal => self.after_deal(),
            Play::Move { action } => self.after_move(action),
        }
    }

    /// The state after the steps, made in order.
    pub open spec fn after_all(self, plays: Seq<Play>) -> State
        decreases plays.len(),
    {
        if plays.len() == 0 {
            self
        } else {
            self.after_all(plays.drop_last()).after(plays.last())
        }
    }

    /// Whether every one of the steps is possible where it is made.
    pub open spec fn allows_all(self, plays: Seq<Play>) -> bool
        decreases plays.len(),
    {
        plays.len() == 0 || (self.allows_all(plays.drop_last()) && self.after_all(
            plays.drop_last(),
        ).allows(plays.last()))
    }

    /// The state with its latest `n` steps taken back, latest first.
    pub open spec fn undone(self, n: nat) -> State
        decreases n,
    {
        if n == 0 {
            self
        } else {
            self.before_last().undone((n - 1) as nat)
        }
    }
}

/// A deal can be taken back: the state after a deal is again a state of the
/// game, and taking its latest step back gives the state before the deal,
/// columns, cursor and history alike.
pub proof fn lemma_deal_round_trip(s: State)
    requires
        s.wf(),
        s.can_deal(),
    ensures
        s.after_deal().wf(),
        s.after_deal().before_last() == s,
{
    let t = s.after_deal();
    assert(t.checkpoints.drop_last() =~= s.checkpoints);
    assert(t.before_last().columns =~= s.columns) by {
        assert forall|i: int| 0 <= i < s.columns.len() implies #[trigger] t.before_last().columns[i]
            =~= s.columns[i] by {
            assert(t.columns[i].drop_last() =~= s.columns[i]);
        }
    }
    assert(t.before_last() =~= s);
}

/// A move can be taken back: the state after a move that fits is again a
/// state of the game, and taking its latest step back gives the state
/// before the move, with the card that the move turned over face down
/// again.
pub proof fn lemma_move_round_trip(s: State, m: Move)
    requires
        s.wf(),
        move_fits(s.columns, m),
    ensures
        s.after_move(m).wf(),
        s.after_move(m).before_last() == s,
{
    let t = s.after_move(m);
    let flipped = move_flips(s.columns, m);
    let orig = s.columns[m.orig_col as int];
    let dest = s.columns[m.dest_col as int];
    let keep = orig.len() - m.count;
    assert(t.checkpoints.drop_last() =~= s.checkpoints);
    let back = reversed(t.columns, m, flipped);
    assert(t.columns[m.dest_col as int] =~= dest + orig.skip(keep));
    assert(t.columns[m.dest_col as int].skip(dest.len() as int) =~= orig.skip(keep));
    assert(t.columns[m.dest_col as int].take(dest.len() as int) =~= dest);
    assert(back[m.orig_col as int] =~= orig);
    assert(back[m.dest_col as int] =~= dest);
    assert(back =~= s.columns);
    assert(t.before_last() =~= s);
}

/// Whether every column that holds cards has its top card face up.
pub open spec fn tops_visible(columns: Seq<Seq<ColumnCard>>) -> bool {
    forall|i: int|
        0 <= i < columns.len() && (#[trigger] columns[i]).len() > 0 ==> columns[i].last()
            is Visible
}

/// In a game the top card of every column is face up: the opening deal
/// leaves it so, and every deal and every move keeps it so.
pub proof fn lemma_tops_visible(s: State)
    requires
        s.wf(),
    ensures
        tops_visible(s.columns),
    decreases s.checkpoints.len(),
{
    if s.checkpoints.len() >= 2 {
        let prior = s.before_last();
        lemma_undo_keeps_wf(s);
        lemma_tops_visible(prior);
        match s.checkpoints.last() {
            Checkpoint::Move { action, .. } => {
                let m = action;
                let orig = prior.columns[m.orig_col as int];
                let keep = orig.len() - m.count;
                assert(all_visible(orig.skip(keep)));
                assert(orig.skip(keep)[m.count - 1] is Visible);
                assert forall|i: int|
                    0 <= i < s.columns.len() && (#[trigger] s.columns[i]).len()
                        > 0 implies s.columns[i].last() is Visible by {
                    if i != m.orig_col && i != m.dest_col {
                        assert(s.columns[i] == prior.columns[i]);
                    }
                }
            },
            _ => {},
        }
    }
}

/// Whether no face-down card of the column lies on a face-up one: the
/// face-down cards are at the base, the face-up cards above them.
pub open spec fn hidden_below_visible(column: Seq<ColumnCard>) -> bool {
    forall|a: int, b: int|
        0 <= a <= b < column.len() && (#[trigger] column[a]) is Visible ==> (#[trigger] column[b])
            is Visible
}

/// In a game every column keeps its face-down cards at the base: what has
/// been turned over stays turned over for as long as it is covered, and no
/// face-down card is ever put on a face-up one.
pub proof fn lemma_hidden_below_visible(s: State, i: int)
    requires
        s.wf(),
        0 <= i < s.columns.len(),
    ensures
        hidden_below_visible(s.columns[i]),
    decreases s.checkpoints.len(),
{
    if s.checkpoints.len() >= 2 {
        let prior = s.before_last();
        lemma_undo_keeps_wf(s);
        lemma_hidden_below_visible(prior, i);
        match s.checkpoints.last() {
            Checkpoint::Move { action, .. } => {
                let m = action;
                let orig = prior.columns[m.orig_col as int];
                let dest = prior.columns[m.dest_col as int];
                let keep = orig.len() - m.count;
                let taken = orig.skip(keep);
                if i == m.dest_col {
                    assert(s.columns[i] =~= dest + taken);
                    assert forall|a: int, b: int|
                        0 <= a <= b < s.columns[i].len() && (#[trigger] s.columns[i][a])
                            is Visible implies (#[trigger] s.columns[i][b]) is Visible by {
                        if b >= dest.len() {
                            assert(taken[b - dest.len()] is Visible);
                        } else {
                            assert(dest[a] is Visible ==> dest[b] is Visible);
                        }
                    }
                } else if i == m.orig_col {
                    assert forall|a: int, b: int|
                        0 <= a <= b < s.columns[i].len() && (#[trigger] s.columns[i][a])
                            is Visible implies (#[trigger] s.columns[i][b]) is Visible by {
                        if b < keep - 1 {
                            assert(orig[a] is Visible ==> orig[b] is Visible);
                        }
                    }
                } else {
                    assert(s.columns[i] == prior.columns[i]);
                }
            },
            Checkpoint::Deal { .. } => {
                let before = prior.columns[i];
                assert forall|a: int, b: int|
                    0 <= a <= b < s.columns[i].len() && (#[trigger] s.columns[i][a])
                        is Visible implies (#[trigger] s.columns[i][b]) is Visible by {
                    if b < before.len() {
                        assert(before[a] is Visible ==> before[b] is Visible);
                    }
                }
            },
            Checkpoint::Start { .. } => {},
        }
    }
}

/// After a move that fitted, the move can be taken back on the columns: the
/// moved cards lie on the destination, all of them face up, and a card that
/// the move turned over shows on the origin.
pub proof fn lemma_moved_is_reversible(columns: Seq<Seq<ColumnCard>>, m: Move)
    requires
        move_fits(columns, m),
    ensures
        reversible(moved(columns, m), m, move_flips(columns, m)),
        all_visible(
            moved(columns, m)[m.dest_col as int].skip(
                moved(columns, m)[m.dest_col as int].len() - m.count,
            ),
        ),
        move_flips(columns, m) ==> reversal_hides(moved(columns, m), m, true),
{
    let orig = columns[m.orig_col as int];
    let dest = columns[m.dest_col as int];
    let keep = orig.len() - m.count;
    let after = moved(columns, m);
    assert(after[m.dest_col as int] =~= dest + orig.skip(keep));
    assert(after[m.dest_col as int].skip(after[m.dest_col as int].len() - m.count) =~= orig.skip(
        keep,
    ));
}

/// Taking back the latest step of a game leads to a state of the game: the
/// one in which that step was made. The step was possible there, and making
/// it again leads back.
pub proof fn lemma_undo_keeps_wf(s: State)
    requires
        s.wf(),
        s.checkpoints.len() >= 2,
    ensures
        s.before_last().wf(),
        s.before_last().checkpoints == s.checkpoints.drop_last(),
        s.checkpoints.last() is Deal ==> s.before_last().allows(Play::Deal) && s
            == s.before_last().after(Play::Deal),
        s.checkpoints.last() matches Checkpoint::Move { action, .. } ==> s.before_last().allows(
            Play::Move { action },
        ) && s == s.before_last().after(Play::Move { action }),
        !(s.checkpoints.last() is Start),
{
}

/// Undo is the exact inverse of play: after any steps that were each
/// possible where they were made, taking back as many steps as were made
/// gives the state before the first of them, columns, cursor and history
/// alike.
pub proof fn lemma_undo_restores(s: State, plays: Seq<Play>)
    requires
        s.wf(),
        s.allows_all(plays),
    ensures
        s.after_all(plays).wf(),
        s.after_all(plays).checkpoints.len() == s.checkpoints.len() + plays.len(),
        s.after_all(plays).undone(plays.len()) == s,
    decreases plays.len(),
{
    if plays.len() > 0 {
        let init = plays.drop_last();
        lemma_undo_restores(s, init);
        let b = s.after_all(init);
        match plays.last() {
            Play::Deal => {
                lemma_deal_round_trip(b);
            },
            Play::Move { action } => {
                lemma_move_round_trip(b, action);
            },
        }
    }
}

/// The cards that lie on the first `n` columns, counted with repetition.
pub open spec fn cards_on(columns: Seq<Seq<ColumnCard>>, n: nat) -> Multiset<Card>
    decreases n,
{
    if n == 0 {
        Multiset::empty()
    } else {
        cards_on(columns, (n - 1) as nat).add(cards_of(columns[n - 1]).to_multiset())
    }
}

impl State {
    /// The cursor that the source had before the opening deal, as the
    /// first record of the history tells it.
    pub open spec fn started_at(self) -> nat {
        match self.checkpoints[0] {
            Checkpoint::Start { count } => count as nat,
            _ => 0,
        }
    }
}

/// Putting another column in place of column `i` exchanges the cards of the
/// one for the cards of the other and leaves the rest of the board alone.
proof fn lemma_cards_on_update(
    columns: Seq<Seq<ColumnCard>>,
    i: int,
    column: Seq<ColumnCard>,
    n: nat,
)
    requires
        0 <= i < n <= columns.len(),
    ensures
        cards_on(columns.update(i, column), n).add(cards_of(columns[i]).to_multiset()) == cards_on(
            columns,
            n,
        ).add(cards_of(column).to_multiset()),
    decreases n,
{
    broadcast use vstd::multiset::group_multiset_axioms;

    let changed = columns.update(i, column);
    let gone = cards_of(columns[i]).to_multiset();
    let come = cards_of(column).to_multiset();
    let below = cards_on(columns, (n - 1) as nat);
    let below_changed = cards_on(changed, (n - 1) as nat);
    let lhs = cards_on(changed, n).add(gone);
    let rhs = cards_on(columns, n).add(come);
    if i == n - 1 {
        lemma_cards_on_same(columns, changed, (n - 1) as nat);
        assert(lhs =~= rhs);
    } else {
        lemma_cards_on_update(columns, i, column, (n - 1) as nat);
        assert forall|v: Card| lhs.count(v) == rhs.count(v) by {
            assert(below_changed.add(gone).count(v) == below.add(come).count(v));
        }
        assert(lhs =~= rhs);
    }
}

/// Boards that agree on their first `n` columns hold the same cards there.
proof fn lemma_cards_on_same(a: Seq<Seq<ColumnCard>>, b: Seq<Seq<ColumnCard>>, n: nat)
    requires
        n <= a.len(),
        n <= b.len(),
        forall|i: int| 0 <= i < n ==> a[i] == b[i],
    ensures
        cards_on(a, n) == cards_on(b, n),
    decreases n,
{
    if n > 0 {
        lemma_cards_on_same(a, b, (n - 1) as nat);
    }
}

/// The opening deal puts the next cards of the deck on the board, each of
/// them once.
proof fn lemma_cards_on_opening(deck: Seq<Card>, start: int, n: nat)
    requires
        n <= 10,
        0 <= start,
        start + 54 <= deck.len(),
    ensures
        cards_on(opening_columns(deck, start), n) == deck.subrange(
            start,
            start + opening_offset(n as int),
        ).to_multiset(),
    decreases n,
{
    let columns = opening_columns(deck, start);
    if n == 0 {
        assert(deck.subrange(start, start + opening_offset(0)) =~= Seq::<Card>::empty());
        assert(Seq::<Card>::empty().to_multiset() =~= Multiset::<Card>::empty()) by {
            broadcast use vstd::seq_lib::to_multiset_len;

            assert(Seq::<Card>::empty().to_multiset().len() == 0);
        }
    } else {
        lemma_cards_on_opening(deck, start, (n - 1) as nat);
        let lo = start + opening_offset(n - 1);
        let hi = start + opening_offset(n as int);
        assert(cards_of(columns[n - 1]) =~= deck.subrange(lo, hi));
        assert(deck.subrange(start, hi) =~= deck.subrange(start, lo) + deck.subrange(lo, hi));
        lemma_multiset_commutative(deck.subrange(start, lo), deck.subrange(lo, hi));
    }
}

/// A deal puts the next cards of the deck on the board, each of them once.
proof fn lemma_cards_on_deal(s: State, n: nat)
    requires
        n <= s.columns.len(),
        s.dealt + s.columns.len() <= s.deck.len(),
    ensures
        cards_on(s.after_deal().columns, n) == cards_on(s.columns, n).add(
            s.deck.subrange(s.dealt as int, (s.dealt + n) as int).to_multiset(),
        ),
    decreases n,
{
    broadcast use vstd::seq_lib::to_multiset_build;

    let d = s.dealt as int;
    if n == 0 {
        assert(s.deck.subrange(d, d + 0) =~= Seq::<Card>::empty());
        assert(Seq::<Card>::empty().to_multiset() =~= Multiset::<Card>::empty()) by {
            broadcast use vstd::seq_lib::to_multiset_len;

            assert(Seq::<Card>::empty().to_multiset().len() == 0);
        }
        assert(cards_on(s.columns, 0).add(Multiset::<Card>::empty()) =~= cards_on(s.columns, 0));
    } else {
        lemma_cards_on_deal(s, (n - 1) as nat);
        let card = s.deck[d + n - 1];
        assert(cards_of(s.after_deal().columns[n - 1]) =~= cards_of(s.columns[n - 1]).push(card));
        assert(s.deck.subrange(d, d + n) =~= s.deck.subrange(d, d + n - 1).push(card));
        assert(cards_on(s.after_deal().columns, n) =~= cards_on(s.columns, n).add(
            s.deck.subrange(d, d + n).to_multiset(),
        ));
    }
}

/// A move that fits leaves on the board the cards that were there.
proof fn lemma_cards_on_move(columns: Seq<Seq<ColumnCard>>, m: Move)
    requires
        move_fits(columns, m),
    ensures
        cards_on(moved(columns, m), columns.len()) == cards_on(columns, columns.len()),
{
    broadcast use vstd::multiset::group_multiset_axioms;

    let n = columns.len();
    let o = m.orig_col as int;
    let d = m.dest_col as int;
    let orig = columns[o];
    let dest = columns[d];
    let keep = orig.len() - m.count;
    let rest = orig.take(keep);
    let taken = orig.skip(keep);
    let left = moved(columns, m)[o];
    let first = columns.update(o, left);
    let second = first.update(d, dest + taken);
    assert(second =~= moved(columns, m));
    lemma_cards_on_update(columns, o, left, n);
    lemma_cards_on_update(first, d, dest + taken, n);
    assert(cards_of(left) =~= cards_of(rest));
    assert(cards_of(orig) =~= cards_of(rest) + cards_of(taken));
    assert(cards_of(dest + taken) =~= cards_of(dest) + cards_of(taken));
    lemma_multiset_commutative(cards_of(rest), cards_of(taken));
    lemma_multiset_commutative(cards_of(dest), cards_of(taken));
    let on_orig = cards_of(orig).to_multiset();
    let on_left = cards_of(left).to_multiset();
    let on_dest = cards_of(dest).to_multiset();
    let on_both = cards_of(dest + taken).to_multiset();
    let on_taken = cards_of(taken).to_multiset();
    assert forall|v: Card| cards_on(second, n).count(v) == cards_on(columns, n).count(v) by {
        assert(cards_on(first, n).add(on_orig).count(v) == cards_on(columns, n).add(on_left).count(v));
        assert(cards_on(second, n).add(on_dest).count(v) == cards_on(first, n).add(on_both).count(
            v,
        ));
        assert(on_orig.count(v) == on_left.add(on_taken).count(v));
        assert(on_both.count(v) == on_dest.add(on_taken).count(v));
    }
    assert(cards_on(second, n) =~= cards_on(columns, n));
}

/// No card is lost and none is made: the cards on the board of a game are
/// the cards that the source has dealt since the game began, each as often
/// as it was dealt.
pub proof fn lemma_board_holds_what_was_dealt(s: State)
    requires
        s.wf(),
    ensures
        s.checkpoints[0] is Start,
        s.started_at() <= s.dealt,
        cards_on(s.columns, 10) == s.deck.subrange(
            s.started_at() as int,
            s.dealt as int,
        ).to_multiset(),
    decreases s.checkpoints.len(),
{
    if s.checkpoints.len() == 1 {
        lemma_cards_on_opening(s.deck, s.started_at() as int, 10);
    } else {
        let prior = s.before_last();
        lemma_undo_keeps_wf(s);
        lemma_board_holds_what_was_dealt(prior);
        assert(prior.checkpoints[0] == s.checkpoints[0]);
        let start = s.started_at() as int;
        match s.checkpoints.last() {
            Checkpoint::Deal { .. } => {
                let d = prior.dealt as int;
                lemma_cards_on_deal(prior, 10);
                assert(s.deck.subrange(start, d + 10) =~= s.deck.subrange(start, d)
                    + s.deck.subrange(d, d + 10));
                lemma_multiset_commutative(s.deck.subrange(start, d), s.deck.subrange(d, d + 10));
            },
            Checkpoint::Move { action, .. } => {
                lemma_cards_on_move(prior.columns, action);
            },
            Checkpoint::Start { .. } => {},
        }
    }
}

} // verus!
