//! The moves that a mirror allows.
//!
//! The client sees no hidden card, yet it finds the same moves as the
//! engine would accept: a run that may move is face up from end to end, and
//! whether it lands depends on the top card of the destination alone.

use crate::cards::rank::{next_rank, successor};
use crate::cards::{descending_run, is_descending_run, lemma_run_tail, Card};
use crate::client::digest::mirror_view;
use crate::client::error::ClientError;
use crate::game::delta::{visible_column, visible_part};
use crate::game::state::{all_visible, cards_of, move_fits, State};
use crate::game::{ColumnCard, Move, WIDTH};
use vstd::prelude::*;

verus! {

/// The cards in the top `k` slots of a column, lowest slot first.
pub open spec fn top_cards(column: Seq<Option<Card>>, k: int) -> Seq<Card> {
    Seq::new(k as nat, |x: int| column[column.len() - k + x].unwrap())
}

/// Whether the top `k` slots of a column all hold a known card.
pub open spec fn top_known(column: Seq<Option<Card>>, k: int) -> bool {
    forall|x: int| column.len() - k <= x < column.len() ==> (#[trigger] column[x]) is Some
}

/// Whether the top `k` slots of a column hold a run that may move: at
/// least one slot, every slot known, and the cards a descending run.
pub open spec fn known_run(column: Seq<Option<Card>>, k: int) -> bool {
    &&& 1 <= k <= column.len()
    &&& top_known(column, k)
    &&& descending_run(top_cards(column, k))
}

/// Whether a run that begins with `first` may be put on `dest`: on an empty
/// column always, and otherwise only on a known card whose rank is the next
/// above the rank of `first`.
pub open spec fn takes(dest: Seq<Option<Card>>, first: Card) -> bool {
    dest.len() == 0 || (dest.last() matches Some(top) && next_rank(first.rank) == Some(top.rank))
}

/// Whether the mirror allows the move: two different columns of the
/// mirror, a run of `count` cards on top of the origin, and a destination
/// that takes it.
pub open spec fn mirror_move_fits(mirror: Seq<Seq<Option<Card>>>, m: Move) -> bool {
    &&& m.orig_col < mirror.len()
    &&& m.dest_col < mirror.len()
    &&& m.orig_col != m.dest_col
    &&& known_run(mirror[m.orig_col as int], m.count as int)
    &&& takes(
        mirror[m.dest_col as int],
        mirror[m.orig_col as int][mirror[m.orig_col as int].len() - m.count].unwrap(),
    )
}

/// Whether the column holds cards and its top slot is opaque.
pub open spec fn opaque_top(column: Seq<Option<Card>>) -> bool {
    column.len() > 0 && column.last() is None
}

/// Whether some column of the mirror has an opaque top slot.
pub open spec fn blocked(mirror: Seq<Seq<Option<Card>>>) -> bool {
    exists|i: int| 0 <= i < mirror.len() && opaque_top(#[trigger] mirror[i])
}

/// Whether the first column that holds cards has an opaque top slot.
pub open spec fn opaque_leads(mirror: Seq<Seq<Option<Card>>>) -> bool {
    exists|i: int|
        0 <= i < mirror.len() && opaque_top(#[trigger] mirror[i]) && forall|j: int|
            0 <= j < i ==> (#[trigger] mirror[j]).len() == 0
}

/// Whether the move comes before the place `(i, k, j)` when moves are
/// ordered by origin, then by count, then by destination.
pub open spec fn placed_before(m: Move, i: int, k: int, j: int) -> bool {
    m.orig_col < i || (m.orig_col == i && (m.count < k || (m.count == k && m.dest_col < j)))
}

/// Whether `a` comes before `b` when moves are ordered by origin, then by
/// count, then by destination.
pub open spec fn move_before(a: Move, b: Move) -> bool {
    placed_before(a, b.orig_col as int, b.count as int, b.dest_col as int)
}

/// Whether the moves stand in strictly ascending order; no move then
/// occurs twice.
pub open spec fn ascending(moves: Seq<Move>) -> bool {
    forall|a: int, b: int| 0 <= a < b < moves.len() ==> move_before(moves[a], moves[b])
}

/// Whether `moves` lists, in ascending order, exactly the moves that the
/// mirror allows and that come before the place `(i, k, j)`.
pub open spec fn lists_up_to(
    moves: Seq<Move>,
    mirror: Seq<Seq<Option<Card>>>,
    i: int,
    k: int,
    j: int,
) -> bool {
    &&& ascending(moves)
    &&& forall|m: Move|
        #![trigger moves.contains(m)]
        #![trigger mirror_move_fits(mirror, m)]
        moves.contains(m) <==> (mirror_move_fits(mirror, m) && placed_before(m, i, k, j))
}

/// Every shorter tail of a run that may move may move as well.
pub proof fn lemma_known_run_tail(column: Seq<Option<Card>>, k: int, j: int)
    requires
        known_run(column, k),
        1 <= j <= k,
    ensures
        known_run(column, j),
{
    lemma_run_tail(top_cards(column, k), k - j);
    assert(top_cards(column, j) =~= top_cards(column, k).skip(k - j));
    assert forall|x: int| column.len() - j <= x < column.len() implies (#[trigger] column[x])
        is Some by {}
}

/// The length of the longest run that may move off the top of a column:
/// the top `k` slots hold such a run exactly for `k` from one up to the
/// length. The length is zero exactly when the column is empty or its top
/// slot is opaque.
pub fn known_run_length(column: &Vec<Option<Card>>) -> (count: usize)
    ensures
        count <= column@.len(),
        forall|k: int| known_run(column@, k) <==> 1 <= k <= count,
{
    let len = column.len();
    let mut count: usize = 0;
    let mut cards: Vec<Card> = Vec::new();
    let mut n: usize = len;
    while n > 0
        invariant
            len == column@.len(),
            n + count == len,
            cards@ == top_cards(column@, count as int),
            count >= 1 ==> known_run(column@, count as int),
        decreases n,
    {
        match column[n - 1] {
            None => {
                proof {
                    lemma_run_length_found(column@, count as int);
                }
                return count;
            },
            Some(c) => {
                cards.insert(0, c);
                assert(cards@ =~= top_cards(column@, count + 1));
                if is_descending_run(cards.as_slice()) {
                    assert(known_run(column@, count + 1)) by {
                        if count >= 1 {
                            assert forall|x: int| column@.len() - (count + 1) <= x < column@.len()
                                implies (#[trigger] column@[x]) is Some by {}
                        }
                    }
                    count += 1;
                } else {
                    proof {
                        lemma_run_length_found(column@, count as int);
                    }
                    return count;
                }
            },
        }
        n -= 1;
    }
    proof {
        lemma_run_length_found(column@, count as int);
    }
    count
}

/// Once the top `count` slots hold a run and one slot more does not, or
/// there is no slot more, `count` is the length of the longest run.
proof fn lemma_run_length_found(column: Seq<Option<Card>>, count: int)
    requires
        0 <= count <= column.len(),
        count >= 1 ==> known_run(column, count),
        !known_run(column, count + 1),
    ensures
        forall|k: int| known_run(column, k) <==> 1 <= k <= count,
{
    assert forall|k: int| known_run(column, k) <==> 1 <= k <= count by {
        if known_run(column, k) && k > count {
            lemma_known_run_tail(column, k, count + 1);
        }
        if 1 <= k <= count {
            lemma_known_run_tail(column, count, k);
        }
    }
}

/// Listing goes on with the next destination after a move has been added
/// that the mirror allows.
proof fn lemma_list_grows(
    moves: Seq<Move>,
    mirror: Seq<Seq<Option<Card>>>,
    i: usize,
    k: usize,
    j: usize,
)
    requires
        lists_up_to(moves, mirror, i as int, k as int, j as int),
        mirror_move_fits(mirror, Move { orig_col: i, count: k, dest_col: j }),
    ensures
        lists_up_to(
            moves.push(Move { orig_col: i, count: k, dest_col: j }),
            mirror,
            i as int,
            k as int,
            j + 1,
        ),
{
    let new = Move { orig_col: i, count: k, dest_col: j };
    let more = moves.push(new);
    assert forall|a: int, b: int| 0 <= a < b < more.len() implies move_before(
        more[a],
        more[b],
    ) by {
        if b == moves.len() {
            assert(moves.contains(moves[a]));
        }
    }
    assert forall|m: Move|
        #![trigger more.contains(m)]
        #![trigger mirror_move_fits(mirror, m)]
        more.contains(m) <==> (mirror_move_fits(mirror, m) && placed_before(
            m,
            i as int,
            k as int,
            j + 1,
        )) by {
        if more.contains(m) {
            let x = choose|x: int| 0 <= x < more.len() && more[x] == m;
            if x < moves.len() {
                assert(moves.contains(moves[x]));
            }
        }
        if mirror_move_fits(mirror, m) && placed_before(m, i as int, k as int, j + 1) {
            if m == new {
                assert(more[moves.len() as int] == m);
            } else {
                assert(moves.contains(m));
                let x = choose|x: int| 0 <= x < moves.len() && moves[x] == m;
                assert(more[x] == m);
            }
        }
    }
}

/// Listing goes on with the next destination when the mirror does not
/// allow the move to this one.
proof fn lemma_list_skips(
    moves: Seq<Move>,
    mirror: Seq<Seq<Option<Card>>>,
    i: usize,
    k: usize,
    j: usize,
)
    requires
        lists_up_to(moves, mirror, i as int, k as int, j as int),
        !mirror_move_fits(mirror, Move { orig_col: i, count: k, dest_col: j }),
    ensures
        lists_up_to(moves, mirror, i as int, k as int, j + 1),
{
    assert forall|m: Move|
        #![trigger moves.contains(m)]
        #![trigger mirror_move_fits(mirror, m)]
        moves.contains(m) <==> (mirror_move_fits(mirror, m) && placed_before(
            m,
            i as int,
            k as int,
            j + 1,
        )) by {
        if mirror_move_fits(mirror, m) && placed_before(m, i as int, k as int, j + 1) {
            assert(m != Move { orig_col: i, count: k, dest_col: j });
        }
    }
}

/// The moves that the mirror allows, in ascending order of origin, count
/// and destination. Every column that holds cards offers the runs on its
/// top, the shortest first, to every other column. An opaque slot on top of
/// a column is a fault of the mirror, and no list is made: `NoMove` where
/// the first column that holds cards has the opaque top, and
/// `BottomNotVisible` where an earlier column found it as a destination.
pub fn candidate_moves(local: &Vec<Vec<Option<Card>>>) -> (res: Result<Vec<Move>, ClientError>)
    requires
        local@.len() == WIDTH,
    ensures
        match res {
            Ok(moves) => {
                &&& !blocked(mirror_view(local@))
                &&& ascending(moves@)
                &&& forall|m: Move|
                    moves@.contains(m) <==> mirror_move_fits(mirror_view(local@), m)
            },
            Err(e) => {
                &&& blocked(mirror_view(local@))
                &&& e == if opaque_leads(mirror_view(local@)) {
                    ClientError::NoMove
                } else {
                    ClientError::BottomNotVisible
                }
            },
        },
{
    let ghost mirror = mirror_view(local@);
    let mut moves: Vec<Move> = Vec::new();
    let mut i: usize = 0;
    assert(lists_up_to(moves@, mirror, 0, 0, 0)) by {
        assert forall|m: Move| !moves@.contains(m) by {}
    }
    while i < WIDTH
        invariant
            i <= 10,
            mirror == mirror_view(local@),
            mirror.len() == 10,
            lists_up_to(moves@, mirror, i as int, 0, 0),
            (forall|c: int| 0 <= c < i ==> (#[trigger] mirror[c]).len() == 0) || !blocked(mirror),
        decreases 10 - i,
    {
        let orig = &local[i];
        assert(orig@ == mirror[i as int]);
        if orig.is_empty() {
            assert(lists_up_to(moves@, mirror, i + 1, 0, 0));
        } else {
            let len = orig.len();
            let run = known_run_length(orig);
            if run == 0 {
                proof {
                    assert(!known_run(orig@, 1));
                    assert(top_cards(orig@, 1).len() == 1);
                    assert(orig@.last() is None);
                    assert(opaque_top(mirror[i as int]));
                }
                return Err(ClientError::NoMove);
            }
            assert(known_run(orig@, 1));
            assert(orig@[len - 1] is Some);
            let mut shorter: usize = 0;
            assert(lists_up_to(moves@, mirror, i as int, 1, 0));
            while shorter < run
                invariant
                    i < 10,
                    shorter <= run,
                    run <= len,
                    len == orig@.len(),
                    orig@ == mirror[i as int],
                    orig@.last() is Some,
                    mirror == mirror_view(local@),
                    mirror.len() == 10,
                    forall|x: int| known_run(orig@, x) <==> 1 <= x <= run,
                    lists_up_to(moves@, mirror, i as int, shorter + 1, 0),
                    (forall|c: int| 0 <= c < i ==> (#[trigger] mirror[c]).len() == 0) || !blocked(
                        mirror,
                    ),
                    shorter > 0 ==> !blocked(mirror),
                decreases run - shorter,
            {
                let k: usize = shorter + 1;
                assert(known_run(orig@, k as int));
                // the slots of a run are known, this one among them
                let first = match orig[len - k] {
                    Some(c) => c,
                    None => {
                        return Err(ClientError::NoMove);
                    },
                };
                let valid_dest_rank = successor(first.rank);
                let mut j: usize = 0;
                while j < WIDTH
                    invariant
                        i < 10,
                        j <= 10,
                        1 <= k <= run,
                        run <= len,
                        len == orig@.len(),
                        orig@ == mirror[i as int],
                        orig@.last() is Some,
                        mirror == mirror_view(local@),
                        mirror.len() == 10,
                        known_run(orig@, k as int),
                        orig@[len - k] == Some(first),
                        valid_dest_rank == next_rank(first.rank),
                        lists_up_to(moves@, mirror, i as int, k as int, j as int),
                        (forall|c: int| 0 <= c < i ==> (#[trigger] mirror[c]).len() == 0)
                            || !blocked(mirror),
                        forall|c: int| 0 <= c < j ==> !opaque_top(#[trigger] mirror[c]),
                    decreases 10 - j,
                {
                    let gmv = Move { orig_col: i, count: k, dest_col: j };
                    if j == i {
                        proof {
                            lemma_list_skips(moves@, mirror, i, k, j);
                        }
                    } else {
                        let dest = &local[j];
                        assert(dest@ == mirror[j as int]);
                        if dest.is_empty() {
                            proof {
                                lemma_list_grows(moves@, mirror, i, k, j);
                            }
                            moves.push(gmv);
                        } else {
                            match dest[dest.len() - 1] {
                                None => {
                                    proof {
                                        assert(opaque_top(mirror[j as int]));
                                        assert(!opaque_top(mirror[i as int]));
                                        if opaque_leads(mirror) {
                                            let t = choose|t: int|
                                                0 <= t < mirror.len() && opaque_top(
                                                    #[trigger] mirror[t],
                                                ) && forall|c: int|
                                                    0 <= c < t ==> (#[trigger] mirror[c]).len()
                                                        == 0;
                                            if t > i {
                                                assert(mirror[i as int].len() == 0);
                                            }
                                        }
                                    }
                                    return Err(ClientError::BottomNotVisible);
                                },
                                Some(dc) => {
                                    let lands = match valid_dest_rank {
                                        Some(r) => dc.rank == r,
                                        None => false,
                                    };
                                    if lands {
                                        proof {
                                            lemma_list_grows(moves@, mirror, i, k, j);
                                        }
                                        moves.push(gmv);
                                    } else {
                                        proof {
                                            lemma_list_skips(moves@, mirror, i, k, j);
                                        }
                                    }
                                },
                            }
                        }
                    }
                    j += 1;
                }
                proof {
                    assert(!blocked(mirror)) by {
                        assert forall|c: int| 0 <= c < mirror.len() implies !opaque_top(
                            #[trigger] mirror[c],
                        ) by {}
                    }
                    assert(lists_up_to(moves@, mirror, i as int, k + 1, 0));
                }
                shorter += 1;
            }
            assert(lists_up_to(moves@, mirror, i + 1, 0, 0));
        }
        i += 1;
    }
    assert(forall|m: Move| moves@.contains(m) <==> mirror_move_fits(mirror, m));
    Ok(moves)
}

/// The mirror of a board allows exactly the moves that fit the board: what
/// the observer cannot see never decides whether a move fits.
pub proof fn lemma_mirror_allows_what_fits(columns: Seq<Seq<ColumnCard>>, m: Move)
    ensures
        mirror_move_fits(visible_part(columns), m) <==> move_fits(columns, m),
{
    let mirror = visible_part(columns);
    if m.orig_col < columns.len() && m.dest_col < columns.len() && m.orig_col != m.dest_col && 1
        <= m.count <= columns[m.orig_col as int].len() {
        let orig = columns[m.orig_col as int];
        let dest = columns[m.dest_col as int];
        let k = m.count as int;
        let taken = orig.skip(orig.len() - k);
        let seen = mirror[m.orig_col as int];
        assert(seen == visible_column(orig));
        assert(mirror[m.dest_col as int] == visible_column(dest));
        if top_known(seen, k) {
            assert forall|x: int| 0 <= x < taken.len() implies (#[trigger] taken[x])
                is Visible by {
                assert(seen[orig.len() - k + x] is Some);
            }
            assert(top_cards(seen, k) =~= cards_of(taken));
        }
        if all_visible(taken) {
            assert forall|x: int| seen.len() - k <= x < seen.len() implies (#[trigger] seen[x])
                is Some by {
                assert(taken[x - (orig.len() - k)] is Visible);
            }
            assert(top_cards(seen, k) =~= cards_of(taken));
        }
    }
}

/// In a game every column that holds cards shows its top card: the mirror
/// of a game is never blocked.
pub proof fn lemma_game_never_blocked(s: State)
    requires
        s.wf(),
    ensures
        !blocked(visible_part(s.columns)),
{
    crate::game::history::lemma_tops_visible(s);
    let mirror = visible_part(s.columns);
    assert forall|i: int| 0 <= i < mirror.len() implies !opaque_top(#[trigger] mirror[i]) by {
        assert(mirror[i] == visible_column(s.columns[i]));
        if s.columns[i].len() > 0 {
            assert(s.columns[i].last() is Visible);
        }
    }
}

} // verus!
