//! Automatic play: which step to take next.
//!
//! The player takes the first move on the list that does not repeat the
//! move before, does not take it straight back, and was not made from this
//! position already; with no such move it deals, and it stops once the list
//! is empty and the source is too. What the player does with the answer is
//! not this module's concern.

use crate::client::PotentialMove;
use crate::game::Move;
use vstd::prelude::*;

verus! {

/// The step that automatic play takes next.
#[derive(Debug, PartialEq, Eq, Structural, Clone, Copy)]
pub enum Action {
    /// There is nothing left to do.
    Stop,
    /// Ask for a deal.
    Deal,
    /// Make the move at this place of the list.
    Play { index: usize },
}

/// The move `m` taken straight back: origin and destination exchanged.
pub open spec fn turned(m: Move) -> Move {
    Move { orig_col: m.dest_col, count: m.count, dest_col: m.orig_col }
}

/// Whether automatic play would make this move after `prev`: it is not
/// `prev` again, it does not take `prev` back, and it is not marked as made
/// from this position before.
pub open spec fn worth_playing(candidate: PotentialMove, prev: Move) -> bool {
    candidate.mv != prev && turned(candidate.mv) != prev && !candidate.is_used
}

/// The step that automatic play takes next, as a function of the list of
/// possible moves, the move made last and the cards left in the source:
/// the first move worth playing if there is one, a deal if there is none,
/// and nothing more once the list and the source are both empty.
pub open spec fn chosen(moves: Seq<PotentialMove>, prev: Move, cards_left: int) -> Action {
    if moves.len() == 0 {
        if cards_left == 0 {
            Action::Stop
        } else {
            Action::Deal
        }
    } else if first_worth_playing(moves, prev, 0) < moves.len() {
        Action::Play { index: first_worth_playing(moves, prev, 0) as usize }
    } else {
        Action::Deal
    }
}

/// The first place at or after `from` that holds a move worth playing, or
/// the length of the list if there is none.
pub open spec fn first_worth_playing(moves: Seq<PotentialMove>, prev: Move, from: int) -> int
    decreases moves.len() - from,
{
    if from < 0 || from >= moves.len() {
        moves.len() as int
    } else if worth_playing(moves[from], prev) {
        from
    } else {
        first_worth_playing(moves, prev, from + 1)
    }
}

/// The place that `first_worth_playing` names lies at or after `from`, holds
/// a move worth playing if it lies in the list, and no earlier place at or
/// after `from` holds one.
pub proof fn lemma_first_worth_playing(moves: Seq<PotentialMove>, prev: Move, from: int)
    requires
        0 <= from <= moves.len(),
    ensures
        from <= first_worth_playing(moves, prev, from) <= moves.len(),
        first_worth_playing(moves, prev, from) < moves.len() ==> worth_playing(
            moves[first_worth_playing(moves, prev, from)],
            prev,
        ),
        forall|i: int|
            from <= i < first_worth_playing(moves, prev, from) ==> !worth_playing(
                #[trigger] moves[i],
                prev,
            ),
    decreases moves.len() - from,
{
    if from < moves.len() && !worth_playing(moves[from], prev) {
        lemma_first_worth_playing(moves, prev, from + 1);
    }
}

/// Chooses the next step of automatic play. `prev_move` is the move made
/// last; before the first move it is a move of no cards, which equals no
/// move on any list.
pub fn next_action(
    moves: &Vec<PotentialMove>,
    prev_move: Move,
    cards_dealt: usize,
    total_cards: usize,
) -> (action: Action)
    ensures
        action == chosen(moves@, prev_move, total_cards - cards_dealt),
{
    if moves.is_empty() {
        if cards_dealt == total_cards {
            Action::Stop
        } else {
            Action::Deal
        }
    } else {
        let mut i: usize = 0;
        while i < moves.len()
            invariant
                i <= moves@.len(),
                forall|x: int| 0 <= x < i ==> !worth_playing(#[trigger] moves@[x], prev_move),
                first_worth_playing(moves@, prev_move, 0) == first_worth_playing(
                    moves@,
                    prev_move,
                    i as int,
                ),
            decreases moves@.len() - i,
        {
            let pmv = moves[i];
            let current_move_reversed = Move {
                orig_col: pmv.mv.dest_col,
                count: pmv.mv.count,
                dest_col: pmv.mv.orig_col,
            };
            if pmv.mv == prev_move {
                // the same move again
            } else if current_move_reversed == prev_move {
                // the move before, taken back
            } else if pmv.is_used {
                // made from this position before
            } else {
                assert(worth_playing(moves@[i as int], prev_move));
                return Action::Play { index: i };
            }
            i += 1;
        }
        Action::Deal
    }
}

} // verus!
