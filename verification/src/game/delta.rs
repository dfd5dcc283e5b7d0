//! Deltas: the observable changes of the board, and what an observer makes
//! of them.
//!
//! An observer never sees the columns themselves. It holds a mirror, in
//! which every slot is either a known card or the mark of a face-down one,
//! and it learns of every change through a delta. This module says what the
//! mirror of a board is and what replaying deltas does to a mirror.

use crate::cards::Card;
use crate::game::history::{
    lemma_deal_round_trip, lemma_move_round_trip, lemma_moved_is_reversible, lemma_undo_keeps_wf,
    lemma_undo_restores, Play,
};
use crate::game::state::{
    all_visible, move_fits, move_flips, moved, reversal_hides, reversed, reversible, without_top,
    State,
};
use crate::game::{Checkpoint, ColumnCard, Move};
use vstd::prelude::*;

verus! {

/// One observable change to the card stack of one column.
#[derive(Debug, PartialEq, Eq, Structural, Clone, Copy)]
pub enum Delta {
    /// A face-down card was put on the column.
    HiddenCard { index: usize },
    /// The given card was put on the column, face up.
    AppendCard { index: usize, card: Card },
    /// The top card of the column was taken off.
    PopCard { index: usize },
}

impl Delta {
    /// The column that the delta speaks of.
    pub open spec fn column(self) -> int {
        match self {
            Delta::HiddenCard { index } => index as int,
            Delta::AppendCard { index, .. } => index as int,
            Delta::PopCard { index } => index as int,
        }
    }
}

/// Whether every delta speaks of one of the first `width` columns.
pub open spec fn on_board(deltas: Seq<Delta>, width: int) -> bool {
    forall|k: int| 0 <= k < deltas.len() ==> 0 <= (#[trigger] deltas[k]).column() < width
}

/// A mirror with `width` columns and no card in any of them.
pub open spec fn empty_mirror(width: nat) -> Seq<Seq<Option<Card>>> {
    Seq::new(width, |i: int| Seq::<Option<Card>>::empty())
}

/// What an observer may know of a column: the face-up cards, and of each
/// face-down card only that it is there.
pub open spec fn visible_column(column: Seq<ColumnCard>) -> Seq<Option<Card>> {
    Seq::new(column.len(), |k: int| column[k].shown())
}

/// What an observer may know of a board: the visible part of every column.
pub open spec fn visible_part(columns: Seq<Seq<ColumnCard>>) -> Seq<Seq<Option<Card>>> {
    Seq::new(columns.len(), |i: int| visible_column(columns[i]))
}

/// The mirror after one delta. A delta for a column that the mirror does
/// not have changes nothing, and so does taking a card off an empty column.
pub open spec fn apply_delta(mirror: Seq<Seq<Option<Card>>>, delta: Delta) -> Seq<
    Seq<Option<Card>>,
> {
    let i = delta.column();
    if 0 <= i < mirror.len() {
        match delta {
            Delta::HiddenCard { .. } => mirror.update(i, mirror[i].push(None)),
            Delta::AppendCard { card, .. } => mirror.update(i, mirror[i].push(Some(card))),
            Delta::PopCard { .. } => if mirror[i].len() > 0 {
                mirror.update(i, mirror[i].drop_last())
            } else {
                mirror
            },
        }
    } else {
        mirror
    }
}

/// The mirror after a sequence of deltas, applied strictly in order.
pub open spec fn replay(mirror: Seq<Seq<Option<Card>>>, deltas: Seq<Delta>) -> Seq<
    Seq<Option<Card>>,
>
    decreases deltas.len(),
{
    if deltas.len() == 0 {
        mirror
    } else {
        apply_delta(replay(mirror, deltas.drop_last()), deltas.last())
    }
}

/// Replaying two sequences one after the other is replaying the two joined.
pub proof fn lemma_replay_concat(
    mirror: Seq<Seq<Option<Card>>>,
    first: Seq<Delta>,
    second: Seq<Delta>,
)
    ensures
        replay(mirror, first + second) == replay(replay(mirror, first), second),
    decreases second.len(),
{
    if second.len() == 0 {
        assert(first + second =~= first);
    } else {
        lemma_replay_concat(mirror, first, second.drop_last());
        assert((first + second).drop_last() =~= first + second.drop_last());
        assert((first + second).last() == second.last());
    }
}

/// Replay never changes how many columns a mirror has.
pub proof fn lemma_replay_width(mirror: Seq<Seq<Option<Card>>>, deltas: Seq<Delta>)
    ensures
        replay(mirror, deltas).len() == mirror.len(),
    decreases deltas.len(),
{
    if deltas.len() > 0 {
        lemma_replay_width(mirror, deltas.drop_last());
    }
}

/// Replaying a single delta is applying it.
pub proof fn lemma_replay_one(mirror: Seq<Seq<Option<Card>>>, a: Delta)
    ensures
        replay(mirror, seq![a]) == apply_delta(mirror, a),
{
    assert(seq![a].drop_last() =~= Seq::<Delta>::empty());
    assert(replay(mirror, Seq::<Delta>::empty()) == mirror);
    assert(seq![a].last() == a);
}

/// Replaying two deltas is applying the first and then the second.
pub proof fn lemma_replay_two(mirror: Seq<Seq<Option<Card>>>, a: Delta, b: Delta)
    ensures
        replay(mirror, seq![a, b]) == apply_delta(apply_delta(mirror, a), b),
{
    assert(seq![a, b].drop_last() =~= seq![a]);
    assert(seq![a, b].last() == b);
    lemma_replay_one(mirror, a);
}

/// The deltas of a deal that begins at card `dealt` of the deck: one
/// face-up card for every column, in column order.
pub open spec fn deal_deltas(deck: Seq<Card>, dealt: int, width: nat) -> Seq<Delta> {
    Seq::new(width, |i: int| Delta::AppendCard { index: i as usize, card: deck[dealt + i] })
}

/// The deltas of a deal taken back: the top card off every column, in
/// column order.
pub open spec fn undeal_deltas(width: nat) -> Seq<Delta> {
    Seq::new(width, |i: int| Delta::PopCard { index: i as usize })
}

/// The deltas for one card that goes from column `from` to column `to`: a
/// face-up card leaves the one and lands on the other, and a face-down card
/// leaves no trace.
pub open spec fn card_transfer(card: ColumnCard, from: usize, to: usize) -> Seq<Delta> {
    match card {
        ColumnCard::Visible { card } => seq![
            Delta::PopCard { index: from },
            Delta::AppendCard { index: to, card },
        ],
        ColumnCard::Hidden { .. } => Seq::empty(),
    }
}

/// The deltas for cards that go from column `from` to column `to`, in the
/// order in which the cards lie.
pub open spec fn transfer_deltas(cards: Seq<ColumnCard>, from: usize, to: usize) -> Seq<Delta>
    decreases cards.len(),
{
    if cards.len() == 0 {
        Seq::empty()
    } else {
        transfer_deltas(cards.drop_last(), from, to) + card_transfer(cards.last(), from, to)
    }
}

/// The deltas of the move `m`: the moved cards one by one, and then, if the
/// move uncovered a face-down card, that card taken off and put back face
/// up.
pub open spec fn move_deltas(columns: Seq<Seq<ColumnCard>>, m: Move) -> Seq<Delta> {
    let orig = columns[m.orig_col as int];
    let keep = orig.len() - m.count;
    transfer_deltas(orig.skip(keep), m.orig_col, m.dest_col) + if move_flips(columns, m) {
        seq![
            Delta::PopCard { index: m.orig_col },
            Delta::AppendCard { index: m.orig_col, card: orig[keep - 1].card() },
        ]
    } else {
        Seq::empty()
    }
}

/// The deltas of the move `m` taken back: if a card is turned face down
/// again, that card taken off and a face-down card put in its place, and
/// then the moved cards one by one on their way back.
pub open spec fn reverse_deltas(columns: Seq<Seq<ColumnCard>>, m: Move, flipped: bool) -> Seq<
    Delta,
> {
    let dest = columns[m.dest_col as int];
    let keep = dest.len() - m.count;
    (if reversal_hides(columns, m, flipped) {
        seq![Delta::PopCard { index: m.orig_col }, Delta::HiddenCard { index: m.orig_col }]
    } else {
        Seq::empty()
    }) + transfer_deltas(dest.skip(keep), m.dest_col, m.orig_col)
}

/// The deltas of the latest step of `s` taken back. The start of the game
/// is no step and has none.
pub open spec fn undo_deltas(s: State) -> Seq<Delta> {
    match s.checkpoints.last() {
        Checkpoint::Start { .. } => Seq::empty(),
        Checkpoint::Deal { .. } => undeal_deltas(s.columns.len()),
        Checkpoint::Move { action, flipped_hidden_card } => reverse_deltas(
            s.columns,
            action,
            flipped_hidden_card,
        ),
    }
}

/// The deltas that build one column from nothing, base first.
pub open spec fn column_deltas(column: Seq<ColumnCard>, index: usize) -> Seq<Delta> {
    Seq::new(
        column.len(),
        |k: int|
            match column[k] {
                ColumnCard::Hidden { .. } => Delta::HiddenCard { index },
                ColumnCard::Visible { card } => Delta::AppendCard { index, card },
            },
    )
}

/// The deltas that build the first `n` columns from nothing, column by
/// column and each column base first.
pub open spec fn layout_deltas(columns: Seq<Seq<ColumnCard>>, n: nat) -> Seq<Delta>
    decreases n,
{
    if n == 0 {
        Seq::empty()
    } else {
        layout_deltas(columns, (n - 1) as nat) + column_deltas(
            columns[n - 1],
            (n - 1) as usize,
        )
    }
}

/// An observer that replays the deltas of a transfer of face-up cards sees
/// exactly the transfer: as many slots fewer on the one column, and the
/// cards on the other.
pub proof fn lemma_transfer_mirror(
    mirror: Seq<Seq<Option<Card>>>,
    cards: Seq<ColumnCard>,
    from: usize,
    to: usize,
)
    requires
        from != to,
        from < mirror.len(),
        to < mirror.len(),
        all_visible(cards),
        cards.len() <= mirror[from as int].len(),
    ensures
        replay(mirror, transfer_deltas(cards, from, to)) == mirror.update(
            from as int,
            mirror[from as int].take(mirror[from as int].len() - cards.len()),
        ).update(to as int, mirror[to as int] + visible_column(cards)),
    decreases cards.len(),
{
    let goal = mirror.update(
        from as int,
        mirror[from as int].take(mirror[from as int].len() - cards.len()),
    ).update(to as int, mirror[to as int] + visible_column(cards));
    if cards.len() == 0 {
        assert(goal =~~= mirror);
    } else {
        let init = cards.drop_last();
        let last = cards.last();
        assert(all_visible(init)) by {
            assert forall|k: int| 0 <= k < init.len() implies (#[trigger] init[k]) is Visible by {
                assert(cards[k] is Visible);
            }
        }
        lemma_transfer_mirror(mirror, init, from, to);
        let mid = replay(mirror, transfer_deltas(init, from, to));
        let pop = Delta::PopCard { index: from };
        let app = Delta::AppendCard { index: to, card: last.card() };
        assert(card_transfer(last, from, to) =~= seq![pop, app]);
        lemma_replay_concat(mirror, transfer_deltas(init, from, to), seq![pop, app]);
        lemma_replay_two(mid, pop, app);
        assert(visible_column(cards) =~= visible_column(init).push(Some(last.card())));
        assert(apply_delta(apply_delta(mid, pop), app) =~~= goal);
    }
}

/// An observer that replays the deltas of a deal sees the board after the
/// deal.
pub proof fn lemma_deal_mirror(s: State)
    requires
        s.wf(),
    ensures
        replay(visible_part(s.columns), deal_deltas(s.deck, s.dealt as int, s.columns.len()))
            == visible_part(s.after_deal().columns),
{
    let deltas = deal_deltas(s.deck, s.dealt as int, s.columns.len());
    let start = visible_part(s.columns);
    lemma_deal_mirror_prefix(s, deltas.len());
    assert(deltas.take(deltas.len() as int) =~= deltas);
    assert(visible_part(s.after_deal().columns) =~~= Seq::new(
        start.len(),
        |i: int| start[i].push(Some(s.deck[s.dealt + i])),
    ));
}

proof fn lemma_deal_mirror_prefix(s: State, j: nat)
    requires
        s.wf(),
        j <= s.columns.len(),
    ensures
        replay(
            visible_part(s.columns),
            deal_deltas(s.deck, s.dealt as int, s.columns.len()).take(j as int),
        ) == Seq::new(
            s.columns.len(),
            |i: int|
                if i < j {
                    visible_part(s.columns)[i].push(Some(s.deck[s.dealt + i]))
                } else {
                    visible_part(s.columns)[i]
                },
        ),
    decreases j,
{
    let deltas = deal_deltas(s.deck, s.dealt as int, s.columns.len());
    let start = visible_part(s.columns);
    let goal = Seq::new(
        s.columns.len(),
        |i: int|
            if i < j {
                start[i].push(Some(s.deck[s.dealt + i]))
            } else {
                start[i]
            },
    );
    if j == 0 {
        assert(deltas.take(0) =~= Seq::<Delta>::empty());
        assert(goal =~~= start);
    } else {
        lemma_deal_mirror_prefix(s, (j - 1) as nat);
        assert(deltas.take(j as int).drop_last() =~= deltas.take(j - 1));
        assert(deltas.take(j as int).last() == deltas[j - 1]);
        assert(replay(start, deltas.take(j as int)) =~~= goal);
    }
}

/// An observer that replays the deltas of a deal taken back sees the board
/// before the deal.
pub proof fn lemma_undeal_mirror(columns: Seq<Seq<ColumnCard>>)
    requires
        columns.len() == 10,
    ensures
        replay(visible_part(columns), undeal_deltas(columns.len())) == visible_part(
            Seq::new(columns.len(), |i: int| without_top(columns[i])),
        ),
{
    let deltas = undeal_deltas(columns.len());
    lemma_undeal_mirror_prefix(columns, deltas.len());
    assert(deltas.take(deltas.len() as int) =~= deltas);
    assert(visible_part(Seq::new(columns.len(), |i: int| without_top(columns[i]))) =~~= Seq::new(
        columns.len(),
        |i: int| visible_column(without_top(columns[i])),
    ));
}

proof fn lemma_undeal_mirror_prefix(columns: Seq<Seq<ColumnCard>>, j: nat)
    requires
        columns.len() == 10,
        j <= columns.len(),
    ensures
        replay(visible_part(columns), undeal_deltas(columns.len()).take(j as int)) == Seq::new(
            columns.len(),
            |i: int|
                if i < j {
                    visible_column(without_top(columns[i]))
                } else {
                    visible_column(columns[i])
                },
        ),
    decreases j,
{
    let deltas = undeal_deltas(columns.len());
    let start = visible_part(columns);
    let goal = Seq::new(
        columns.len(),
        |i: int|
            if i < j {
                visible_column(without_top(columns[i]))
            } else {
                visible_column(columns[i])
            },
    );
    if j == 0 {
        assert(deltas.take(0) =~= Seq::<Delta>::empty());
        assert(goal =~~= start);
    } else {
        lemma_undeal_mirror_prefix(columns, (j - 1) as nat);
        assert(deltas.take(j as int).drop_last() =~= deltas.take(j - 1));
        assert(deltas.take(j as int).last() == deltas[j - 1]);
        assert(replay(start, deltas.take(j as int)) =~~= goal);
    }
}

/// An observer that replays the deltas of a move that fits sees the board
/// after the move.
pub proof fn lemma_move_mirror(columns: Seq<Seq<ColumnCard>>, m: Move)
    requires
        move_fits(columns, m),
    ensures
        replay(visible_part(columns), move_deltas(columns, m)) == visible_part(moved(columns, m)),
{
    let start = visible_part(columns);
    let orig = columns[m.orig_col as int];
    let dest = columns[m.dest_col as int];
    let keep = orig.len() - m.count;
    let taken = orig.skip(keep);
    let first = transfer_deltas(taken, m.orig_col, m.dest_col);
    lemma_transfer_mirror(start, taken, m.orig_col, m.dest_col);
    let mid = replay(start, first);
    if move_flips(columns, m) {
        let pop = Delta::PopCard { index: m.orig_col };
        let app = Delta::AppendCard { index: m.orig_col, card: orig[keep - 1].card() };
        lemma_replay_concat(start, first, seq![pop, app]);
        lemma_replay_two(mid, pop, app);
        assert(apply_delta(apply_delta(mid, pop), app) =~~= visible_part(moved(columns, m)));
    } else {
        assert(first + Seq::<Delta>::empty() =~= first);
        assert(mid =~~= visible_part(moved(columns, m)));
    }
}

/// An observer that replays the deltas of a move taken back sees the board
/// before the move, provided the cards that go back are face up, as the
/// cards of a move that fitted are.
pub proof fn lemma_reverse_mirror(columns: Seq<Seq<ColumnCard>>, m: Move, flipped: bool)
    requires
        reversible(columns, m, flipped),
        all_visible(columns[m.dest_col as int].skip(columns[m.dest_col as int].len() - m.count)),
    ensures
        replay(visible_part(columns), reverse_deltas(columns, m, flipped)) == visible_part(
            reversed(columns, m, flipped),
        ),
{
    let start = visible_part(columns);
    let orig = columns[m.orig_col as int];
    let dest = columns[m.dest_col as int];
    let keep = dest.len() - m.count;
    let taken = dest.skip(keep);
    let second = transfer_deltas(taken, m.dest_col, m.orig_col);
    if reversal_hides(columns, m, flipped) {
        let pop = Delta::PopCard { index: m.orig_col };
        let hid = Delta::HiddenCard { index: m.orig_col };
        lemma_replay_concat(start, seq![pop, hid], second);
        lemma_replay_two(start, pop, hid);
        let mid = apply_delta(apply_delta(start, pop), hid);
        lemma_transfer_mirror(mid, taken, m.dest_col, m.orig_col);
        assert(replay(mid, second) =~~= visible_part(reversed(columns, m, flipped)));
    } else {
        assert(Seq::<Delta>::empty() + second =~= second);
        lemma_transfer_mirror(start, taken, m.dest_col, m.orig_col);
        assert(replay(start, second) =~~= visible_part(reversed(columns, m, flipped)));
    }
}

/// An observer that starts from nothing and replays the deltas that build a
/// board holds the visible part of the board.
pub proof fn lemma_layout_mirror(columns: Seq<Seq<ColumnCard>>)
    requires
        columns.len() == 10,
    ensures
        replay(empty_mirror(columns.len()), layout_deltas(columns, columns.len())) == visible_part(
            columns,
        ),
{
    lemma_layout_mirror_prefix(columns, columns.len());
    assert(visible_part(columns) =~~= Seq::new(
        columns.len(),
        |i: int| visible_column(columns[i]),
    ));
}

proof fn lemma_column_mirror(
    mirror: Seq<Seq<Option<Card>>>,
    column: Seq<ColumnCard>,
    index: usize,
    k: nat,
)
    requires
        index < mirror.len(),
        k <= column.len(),
    ensures
        replay(mirror, column_deltas(column, index).take(k as int)) == mirror.update(
            index as int,
            mirror[index as int] + visible_column(column).take(k as int),
        ),
    decreases k,
{
    let deltas = column_deltas(column, index);
    let goal = mirror.update(
        index as int,
        mirror[index as int] + visible_column(column).take(k as int),
    );
    if k == 0 {
        assert(deltas.take(0) =~= Seq::<Delta>::empty());
        assert(goal =~~= mirror);
    } else {
        lemma_column_mirror(mirror, column, index, (k - 1) as nat);
        assert(deltas.take(k as int).drop_last() =~= deltas.take(k - 1));
        assert(deltas.take(k as int).last() == deltas[k - 1]);
        assert(visible_column(column).take(k as int) =~= visible_column(column).take(k - 1).push(
            column[k - 1].shown(),
        ));
        assert(replay(mirror, deltas.take(k as int)) =~~= goal);
    }
}

proof fn lemma_layout_mirror_prefix(columns: Seq<Seq<ColumnCard>>, n: nat)
    requires
        columns.len() == 10,
        n <= columns.len(),
    ensures
        replay(empty_mirror(columns.len()), layout_deltas(columns, n)) == Seq::new(
            columns.len(),
            |i: int|
                if i < n {
                    visible_column(columns[i])
                } else {
                    Seq::<Option<Card>>::empty()
                },
        ),
    decreases n,
{
    let start = empty_mirror(columns.len());
    let goal = Seq::new(
        columns.len(),
        |i: int|
            if i < n {
                visible_column(columns[i])
            } else {
                Seq::<Option<Card>>::empty()
            },
    );
    if n == 0 {
        assert(goal =~~= start);
    } else {
        lemma_layout_mirror_prefix(columns, (n - 1) as nat);
        let mid = replay(start, layout_deltas(columns, (n - 1) as nat));
        let column = columns[n - 1];
        let deltas = column_deltas(column, (n - 1) as usize);
        lemma_replay_concat(start, layout_deltas(columns, (n - 1) as nat), deltas);
        lemma_column_mirror(mid, column, (n - 1) as usize, column.len());
        assert(deltas.take(column.len() as int) =~= deltas);
        assert(visible_column(column).take(column.len() as int) =~= visible_column(column));
        assert(replay(mid, deltas) =~~= goal);
    }
}

/// The deltas of one step of play made in the state `s`.
pub open spec fn play_deltas(s: State, play: Play) -> Seq<Delta> {
    match play {
        Play::Deal => deal_deltas(s.deck, s.dealt as int, s.columns.len()),
        Play::Move { action } => move_deltas(s.columns, action),
    }
}

/// The deltas of the steps `plays`, made in order from the state `s`.
pub open spec fn plays_deltas(s: State, plays: Seq<Play>) -> Seq<Delta>
    decreases plays.len(),
{
    if plays.len() == 0 {
        Seq::empty()
    } else {
        plays_deltas(s, plays.drop_last()) + play_deltas(
            s.after_all(plays.drop_last()),
            plays.last(),
        )
    }
}

/// The deltas of the latest `n` steps of `s` taken back, latest first.
pub open spec fn undone_deltas(s: State, n: nat) -> Seq<Delta>
    decreases n,
{
    if n == 0 {
        Seq::empty()
    } else {
        undo_deltas(s) + undone_deltas(s.before_last(), (n - 1) as nat)
    }
}

/// An observer that replays the deltas of an undo sees the board as it was
/// before the step that was taken back.
pub proof fn lemma_undo_mirror(s: State)
    requires
        s.wf(),
        s.checkpoints.len() >= 2,
    ensures
        replay(visible_part(s.columns), undo_deltas(s)) == visible_part(s.before_last().columns),
{
    lemma_undo_keeps_wf(s);
    match s.checkpoints.last() {
        Checkpoint::Deal { .. } => {
            lemma_undeal_mirror(s.columns);
        },
        Checkpoint::Move { action, flipped_hidden_card } => {
            lemma_moved_is_reversible(s.before_last().columns, action);
            lemma_reverse_mirror(s.columns, action, flipped_hidden_card);
        },
        Checkpoint::Start { .. } => {},
    }
}

/// The mirror keeps up with the game. An observer that holds the visible
/// part of a board and replays the deltas of any steps of play holds the
/// visible part of the board after them; replaying the deltas of as many
/// undos then gives back the mirror from before; and at every point the
/// mirror is the one that a new observer builds from nothing out of the
/// deltas of the board.
pub proof fn lemma_mirror_keeps_up(s: State, plays: Seq<Play>)
    requires
        s.wf(),
        s.allows_all(plays),
    ensures
        replay(visible_part(s.columns), plays_deltas(s, plays)) == visible_part(
            s.after_all(plays).columns,
        ),
        replay(
            visible_part(s.after_all(plays).columns),
            undone_deltas(s.after_all(plays), plays.len()),
        ) == visible_part(s.columns),
        replay(empty_mirror(10), layout_deltas(s.after_all(plays).columns, 10)) == visible_part(
            s.after_all(plays).columns,
        ),
    decreases plays.len(),
{
    lemma_undo_restores(s, plays);
    lemma_layout_mirror(s.after_all(plays).columns);
    if plays.len() > 0 {
        let init = plays.drop_last();
        let b = s.after_all(init);
        let t = s.after_all(plays);
        lemma_mirror_keeps_up(s, init);
        lemma_undo_restores(s, init);
        lemma_replay_concat(
            visible_part(s.columns),
            plays_deltas(s, init),
            play_deltas(b, plays.last()),
        );
        match plays.last() {
            Play::Deal => {
                lemma_deal_mirror(b);
                lemma_deal_round_trip(b);
            },
            Play::Move { action } => {
                lemma_move_mirror(b.columns, action);
                lemma_move_round_trip(b, action);
            },
        }
        lemma_undo_mirror(t);
        assert(t.before_last() == b);
        lemma_replay_concat(
            visible_part(t.columns),
            undo_deltas(t),
            undone_deltas(b, init.len()),
        );
    }
}

} // verus!
