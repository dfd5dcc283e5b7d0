//! The client: an observer that mirrors the visible board from the delta
//! stream, finds the moves that the mirror allows, and remembers which move
//! it made from which position.

use crate::cards::Card;
use crate::game::delta::{empty_mirror, on_board, replay, visible_part, Delta};
use crate::game::error::GameError;
use crate::game::history::{lemma_deal_round_trip, lemma_move_round_trip, Play};
use crate::game::source::shuffled_deck;
use crate::game::state::{move_fits, State};
use crate::game::{seed, Checkpoint, Game, Move, WIDTH};
use crate::hex_text::{decoded, hex_text, is_hex};
use vstd::hash_map::StringHashMap;
use vstd::prelude::*;
use vstd::string::StringSliceAdditionalSpecFns;

pub mod digest;
pub mod error;
pub mod moves;

use digest::{digest_of, digest_text, mirror_view};
use error::ClientError;
use moves::{ascending, blocked, candidate_moves, mirror_move_fits, opaque_leads};

verus! {

/// A game together with what an observer holds of it: the mirror, built
/// from deltas alone, and for every position from which a move was made,
/// found by the digest of its mirror, the move made last.
pub struct Client {
    remote: Game,
    used: StringHashMap<Move>,
    pub local: Vec<Vec<Option<Card>>>,
}

/// A move that the mirror allows, with a mark that tells whether it is the
/// move made last from this very position.
#[derive(Debug, PartialEq, Eq, Structural, Clone, Copy)]
pub struct PotentialMove {
    pub mv: Move,
    pub is_used: bool,
}

/// The moves of a list of potential moves.
pub open spec fn moves_of(list: Seq<PotentialMove>) -> Seq<Move> {
    Seq::new(list.len(), |i: int| list[i].mv)
}

/// The moves with their marks: a move is marked exactly when it is `last`.
pub open spec fn marked(moves: Seq<Move>, last: Option<Move>) -> Seq<PotentialMove> {
    Seq::new(moves.len(), |i: int| PotentialMove { mv: moves[i], is_used: last == Some(moves[i]) })
}

/// The move on record for the position with digest `key`, if there is one.
pub open spec fn last_from(used: Map<Seq<char>, Move>, key: Seq<char>) -> Option<Move> {
    if used.contains_key(key) {
        Some(used[key])
    } else {
        None
    }
}

/// Marks every move that equals `last`.
pub fn mark_moves(moves: &Vec<Move>, last: Option<Move>) -> (list: Vec<PotentialMove>)
    ensures
        list@ == marked(moves@, last),
{
    let mut list: Vec<PotentialMove> = Vec::new();
    let mut i: usize = 0;
    while i < moves.len()
        invariant
            i <= moves@.len(),
            list@ == marked(moves@, last).take(i as int),
        decreases moves@.len() - i,
    {
        let gmv = moves[i];
        let is_used = match last {
            Some(u) => u == gmv,
            None => false,
        };
        list.push(PotentialMove { mv: gmv, is_used });
        assert(list@ =~= marked(moves@, last).take(i + 1));
        i += 1;
    }
    assert(marked(moves@, last).take(i as int) =~= marked(moves@, last));
    list
}

impl Client {
    /// The state of the game behind the client.
    pub closed spec fn game(&self) -> State {
        self.remote@
    }

    /// The mirror: for every column, what the client holds of it.
    pub closed spec fn mirror(&self) -> Seq<Seq<Option<Card>>> {
        mirror_view(self.local@)
    }

    /// The moves on record, by the digest of the position from which each
    /// was made.
    pub closed spec fn used_moves(&self) -> Map<Seq<char>, Move> {
        self.used@
    }

    /// What holds of every client: its game is a game, and its mirror is
    /// the visible part of the board, no more and no less.
    pub open spec fn wf(&self) -> bool {
        &&& self.game().wf()
        &&& self.mirror() == visible_part(self.game().columns)
    }

    /// A client on a new game from a random seed.
    pub fn new() -> (res: Result<Client, ClientError>)
        ensures
            res matches Ok(client) && client.wf() && client.game() == State::opening(
                client.game().seed,
                client.game().deck,
                0,
            ) && client.used_moves() == Map::<Seq<char>, Move>::empty(),
    {
        match Game::new() {
            Ok(game) => client_from_game(game),
            Err(e) => Err(ClientError::GameError(e)),
        }
    }

    /// A client on the game that the seed text stands for. The text is any
    /// even number of hexadecimal digits; see [`seed::from_hex`].
    pub fn from_hex(hex_seed: &str) -> (res: Result<Client, ClientError>)
        ensures
            match res {
                Ok(client) => {
                    &&& is_hex(hex_seed.spec_bytes())
                    &&& client.wf()
                    &&& client.game() == State::opening(
                        seed::seed_of(decoded(hex_seed.spec_bytes())),
                        shuffled_deck(seed::seed_of(decoded(hex_seed.spec_bytes()))),
                        0,
                    )
                    &&& client.used_moves() == Map::<Seq<char>, Move>::empty()
                },
                Err(e) => {
                    &&& !is_hex(hex_seed.spec_bytes())
                    &&& e matches ClientError::HexError(why)
                    &&& why.explains(hex_seed.spec_bytes())
                },
            },
    {
        let seed = match seed::from_hex(hex_seed) {
            Ok(seed) => seed,
            Err(e) => {
                return Err(ClientError::HexError(e));
            },
        };
        match Game::from_seed(seed) {
            Ok(game) => client_from_game(game),
            Err(e) => Err(ClientError::GameError(e)),
        }
    }

    /// The seed of the game as thirty-two hexadecimal digits, from which
    /// `from_hex` makes the same game again.
    pub fn seed(&self) -> (text: String)
        ensures
            text@ == hex_text(self.game().seed),
    {
        let bytes = self.remote.seed();
        seed::to_hex(&bytes)
    }

    /// How many cards the game has in all.
    pub fn total_cards(&self) -> (n: usize)
        ensures
            n == self.game().deck.len(),
    {
        self.remote.total_cards()
    }

    /// How many cards have left the source.
    pub fn cards_dealt(&self) -> (n: usize)
        ensures
            n == self.game().dealt,
    {
        self.remote.cards_dealt()
    }

    /// The history of the game, from the start to the latest step.
    pub fn checkpoints(&self) -> (history: Vec<Checkpoint>)
        ensures
            history@ == self.game().checkpoints,
    {
        self.remote.checkpoints()
    }

    /// Asks the game for a deal and puts the dealt cards on the mirror.
    /// When the game refuses, nothing changes.
    pub fn deal(&mut self) -> (res: Result<(), ClientError>)
        requires
            old(self).wf(),
        ensures
            final(self).wf(),
            final(self).used_moves() == old(self).used_moves(),
            match res {
                Ok(_) => {
                    &&& old(self).game().can_deal()
                    &&& final(self).game() == old(self).game().after_deal()
                },
                Err(e) => {
                    &&& !old(self).game().can_deal()
                    &&& final(self).game() == old(self).game()
                    &&& e == ClientError::GameError(
                        if old(self).game().has_empty_column() {
                            GameError::DealToEmptyColumn
                        } else {
                            GameError::DealFromEmptyDeck
                        },
                    )
                },
            },
    {
        let deltas = match self.remote.deal() {
            Ok(deltas) => deltas,
            Err(e) => {
                return Err(ClientError::GameError(e));
            },
        };
        let ghost start = old(self).mirror();
        let ghost dealt = self.remote@;
        let mut k: usize = 0;
        while k < deltas.len()
            invariant
                k <= deltas@.len(),
                start.len() == 10,
                deltas@ == crate::game::delta::deal_deltas(
                    old(self).game().deck,
                    old(self).game().dealt as int,
                    10,
                ),
                self.remote@ == dealt,
                self.used == old(self).used,
                mirror_view(self.local@) == replay(start, deltas@.take(k as int)),
            decreases deltas@.len() - k,
        {
            let delta = deltas[k];
            proof {
                crate::game::delta::lemma_replay_width(start, deltas@.take(k as int));
                assert(deltas@.take(k + 1).drop_last() =~= deltas@.take(k as int));
            }
            match delta {
                Delta::AppendCard { index: i, card: c } => self.local[i].push(Some(c)),
                _ => {
                    return Err(ClientError::UnknownDelta { delta });
                },
            }
            assert(mirror_view(self.local@) =~~= replay(start, deltas@.take(k + 1)));
            k += 1;
        }
        assert(deltas@.take(k as int) =~= deltas@);
        Ok(())
    }

    /// Asks the game to take its latest step back, brings the mirror in
    /// line, and forgets the move that was on record for the position now
    /// reached. When the game refuses, nothing changes.
    pub fn undo(&mut self) -> (res: Result<(), ClientError>)
        requires
            old(self).wf(),
        ensures
            final(self).wf(),
            match res {
                Ok(_) => {
                    &&& old(self).game().checkpoints.len() >= 2
                    &&& final(self).game() == old(self).game().before_last()
                    &&& final(self).used_moves() == old(self).used_moves().remove(
                        digest_text(final(self).mirror()),
                    )
                },
                Err(e) => {
                    &&& old(self).game().checkpoints.len() < 2
                    &&& final(self).game() == old(self).game()
                    &&& final(self).used_moves() == old(self).used_moves()
                    &&& e == ClientError::GameError(GameError::NoCheckpointsToUndo)
                },
            },
    {
        let deltas = match self.remote.undo() {
            Ok(deltas) => deltas,
            Err(e) => {
                return Err(ClientError::GameError(e));
            },
        };
        match self.apply_deltas(deltas) {
            Ok(_) => {},
            Err(e) => {
                return Err(e);
            },
        }
        let key = self.digest();
        self.used.remove(key.as_str());
        Ok(())
    }

    /// The digest of the mirror: the key under which the moves made from
    /// this position are kept.
    pub fn digest(&self) -> (text: String)
        ensures
            text@ == digest_text(self.mirror()),
    {
        digest_of(&self.local)
    }

    /// The moves that the mirror allows, in ascending order of origin,
    /// count and destination, each marked if it is the move made last from
    /// this position. An opaque slot on top of a column is a fault of the
    /// mirror and gives an error in place of a list; the mirror of a game
    /// has no such slot, and its list holds exactly the moves that the game
    /// accepts.
    pub fn possible_moves(&self) -> (res: Result<Vec<PotentialMove>, ClientError>)
        requires
            self.mirror().len() == WIDTH,
        ensures
            match res {
                Ok(list) => {
                    &&& !blocked(self.mirror())
                    &&& ascending(moves_of(list@))
                    &&& forall|m: Move|
                        moves_of(list@).contains(m) <==> mirror_move_fits(self.mirror(), m)
                    &&& list@ == marked(
                        moves_of(list@),
                        last_from(self.used_moves(), digest_text(self.mirror())),
                    )
                },
                Err(e) => {
                    &&& blocked(self.mirror())
                    &&& e == if opaque_leads(self.mirror()) {
                        ClientError::NoMove
                    } else {
                        ClientError::BottomNotVisible
                    }
                },
            },
            self.wf() ==> (res matches Ok(list) && forall|m: Move|
                moves_of(list@).contains(m) <==> move_fits(self.game().columns, m)),
    {
        proof {
            if self.wf() {
                moves::lemma_game_never_blocked(self.game());
                assert forall|m: Move|
                    mirror_move_fits(self.mirror(), m) <==> move_fits(
                        self.game().columns,
                        m,
                    ) by {
                    moves::lemma_mirror_allows_what_fits(self.game().columns, m);
                }
            }
        }
        let moves = match candidate_moves(&self.local) {
            Ok(moves) => moves,
            Err(e) => {
                return Err(e);
            },
        };
        let key = self.digest();
        let last = match self.used.get(key.as_str()) {
            Some(u) => Some(*u),
            None => None,
        };
        let list = mark_moves(&moves, last);
        assert(moves_of(list@) =~= moves@);
        Ok(list)
    }

    /// Asks the game to make the move, brings the mirror in line, and puts
    /// the move on record for the position from which it was made. When the
    /// game refuses, nothing changes.
    pub fn move_cards(&mut self, m: Move) -> (res: Result<(), ClientError>)
        requires
            old(self).wf(),
        ensures
            final(self).wf(),
            match res {
                Ok(_) => {
                    &&& move_fits(old(self).game().columns, m)
                    &&& final(self).game() == old(self).game().after_move(m)
                    &&& final(self).used_moves() == old(self).used_moves().insert(
                        digest_text(old(self).mirror()),
                        m,
                    )
                },
                Err(e) => {
                    &&& !move_fits(old(self).game().columns, m)
                    &&& final(self).game() == old(self).game()
                    &&& final(self).used_moves() == old(self).used_moves()
                    &&& e == ClientError::GameError(GameError::InvalidMove { mv: m })
                },
            },
    {
        let pre_move_digest = self.digest();
        let deltas = match self.remote.move_cards(m) {
            Ok(deltas) => deltas,
            Err(e) => {
                return Err(ClientError::GameError(e));
            },
        };
        match self.apply_deltas(deltas) {
            Ok(_) => {},
            Err(e) => {
                return Err(e);
            },
        }
        self.used.insert(pre_move_digest, m);
        Ok(())
    }

    /// Replays deltas on the mirror, strictly in order: a face-down card
    /// adds an opaque slot, a card adds a known slot, and a card taken off
    /// removes the top slot. The game and the record of moves stay as they
    /// are, so the mirror is in line with the game afterwards only if the
    /// deltas were the game's own.
    pub fn apply_deltas(&mut self, deltas: Vec<Delta>) -> (res: Result<(), ClientError>)
        requires
            on_board(deltas@, old(self).mirror().len() as int),
        ensures
            res is Ok,
            final(self).mirror() == replay(old(self).mirror(), deltas@),
            final(self).game() == old(self).game(),
            final(self).used_moves() == old(self).used_moves(),
    {
        let ghost start = old(self).mirror();
        let mut k: usize = 0;
        while k < deltas.len()
            invariant
                k <= deltas@.len(),
                on_board(deltas@, start.len() as int),
                self.remote == old(self).remote,
                self.used == old(self).used,
                mirror_view(self.local@) == replay(start, deltas@.take(k as int)),
            decreases deltas@.len() - k,
        {
            let delta = deltas[k];
            proof {
                crate::game::delta::lemma_replay_width(start, deltas@.take(k as int));
                assert(deltas@.take(k + 1).drop_last() =~= deltas@.take(k as int));
                assert(0 <= deltas@[k as int].column() < start.len());
            }
            match delta {
                Delta::HiddenCard { index: i } => self.local[i].push(None),
                Delta::AppendCard { index: i, card: c } => self.local[i].push(Some(c)),
                Delta::PopCard { index: i } => {
                    self.local[i].pop();
                },
            }
            assert(mirror_view(self.local@) =~~= replay(start, deltas@.take(k + 1)));
            k += 1;
        }
        assert(deltas@.take(k as int) =~= deltas@);
        Ok(())
    }
}

/// A client on `game`: the mirror starts empty and is built from the deltas
/// that spell out the board, and no move is on record.
pub fn client_from_game(game: Game) -> (res: Result<Client, ClientError>)
    requires
        game.wf(),
    ensures
        res matches Ok(client) && client.wf() && client.game() == game@ && client.used_moves()
            == Map::<Seq<char>, Move>::empty(),
{
    let mut client = Client { remote: game, used: StringHashMap::new(), local: Vec::new() };
    let mut i: usize = 0;
    while i < WIDTH
        invariant
            i <= 10,
            client.remote == game,
            client.used@ == Map::<Seq<char>, Move>::empty(),
            client.local@.len() == i,
            forall|j: int| 0 <= j < i ==> (#[trigger] client.local@[j])@.len() == 0,
        decreases 10 - i,
    {
        client.local.push(Vec::new());
        i += 1;
    }
    assert(client.mirror() =~~= empty_mirror(10));
    let deltas = client.remote.initial_deltas();
    match client.apply_deltas(deltas) {
        Ok(_) => {},
        Err(e) => {
            return Err(e);
        },
    }
    Ok(client)
}

/// A step and its undo bring the observer back to where it was: the mirror
/// of the board is the same as before the step, and so is its digest.
pub proof fn lemma_digest_returns(s: State, play: Play)
    requires
        s.wf(),
        s.allows(play),
    ensures
        visible_part(s.after(play).before_last().columns) == visible_part(s.columns),
        digest_text(visible_part(s.after(play).before_last().columns)) == digest_text(
            visible_part(s.columns),
        ),
{
    match play {
        Play::Deal => lemma_deal_round_trip(s),
        Play::Move { action } => lemma_move_round_trip(s, action),
    }
}

} // verus!
