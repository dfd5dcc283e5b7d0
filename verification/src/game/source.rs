//! The source: two decks shuffled by a seed, and a cursor that deals them
//! out one card at a time.

use crate::cards::{full_deck, lemma_card_at_index, lemma_successor_is_next_above, Card};
use crate::game::error::GameError;
use crate::game::seed;
use rand::{Rng, SeedableRng, XorShiftRng};
use vstd::prelude::*;

verus! {

/// How many cards a source holds: two decks.
pub const TOTAL_CARDS: usize = 104;

/// Two full decks, one after the other, before any shuffling.
pub open spec fn two_decks() -> Seq<Card> {
    full_deck() + full_deck()
}

/// The order in which `rand`'s `XorShiftRng`, seeded with `seed`, leaves
/// `cards` when its `shuffle` is run over them. The generator draws
/// integers of the machine's word size, so the order also depends on
/// `word_bits`, the number of bits of a `usize`.
pub uninterp spec fn seeded_shuffle(seed: Seq<u8>, word_bits: nat, cards: Seq<Card>) -> Seq<Card>;

/// The deck that a seed stands for on this machine.
pub open spec fn shuffled_deck(seed: Seq<u8>) -> Seq<Card> {
    seeded_shuffle(seed, usize::BITS as nat, two_decks())
}

/// What holds of a seed, the deck made from it and a cursor into the deck:
/// sixteen bytes of seed, the 104 cards of two decks in the order that the
/// seed stands for, and a cursor within them.
pub open spec fn source_wf(seed: Seq<u8>, deck: Seq<Card>, dealt: nat) -> bool {
    &&& seed.len() == 16
    &&& deck.len() == TOTAL_CARDS
    &&& dealt <= TOTAL_CARDS
    &&& deck == shuffled_deck(seed)
    &&& deck.to_multiset() == two_decks().to_multiset()
}

/// Seeds an `XorShiftRng` with `SeedableRng::from_seed` and runs
/// `Rng::shuffle` over the cards. The generator is a function of the seed
/// alone and the shuffle draws from nothing else, so the outcome is named
/// [`seeded_shuffle`]. The shuffle only ever swaps two cards of the slice:
/// the cards afterwards are the cards before, in another order.
#[verifier::external_body]
fn shuffle(seed: [u8; 16], cards: &mut Vec<Card>)
    ensures
        final(cards)@ == seeded_shuffle(seed@, usize::BITS as nat, old(cards)@),
        final(cards)@.len() == old(cards)@.len(),
        final(cards)@.to_multiset() == old(cards)@.to_multiset(),
{
    let mut rng = XorShiftRng::from_seed(seed);
    rng.shuffle(cards);
}

/// Puts one full deck, in ascending order, behind the cards already there.
fn push_deck(cards: &mut Vec<Card>)
    ensures
        final(cards)@ == old(cards)@ + full_deck(),
{
    let mut it = Card::iter();
    loop
        invariant
            cards@ + it@ == old(cards)@ + full_deck(),
        ensures
            cards@ == old(cards)@ + full_deck(),
        decreases it@.len(),
    {
        let ghost before = it@;
        match it.next() {
            Some(c) => {
                cards.push(c);
                assert(cards@ + it@ =~= old(cards)@ + full_deck()) by {
                    assert(before =~= seq![c] + it@);
                }
            },
            None => {
                assert(cards@ =~= cards@ + it@);
                break;
            },
        }
    }
}

/// A shuffled double deck with a cursor. The deck is fixed when the source
/// is made; dealing only moves the cursor forward, and rewinding only
/// moves it back.
#[derive(Debug)]
pub struct Source {
    seed: [u8; 16],
    cards: Vec<Card>,
    next_card: usize,
}

impl Source {
    /// The seed that the source was made from.
    pub closed spec fn seed_bytes(&self) -> Seq<u8> {
        self.seed@
    }

    /// The whole deck in dealing order, dealt cards included.
    pub closed spec fn deck(&self) -> Seq<Card> {
        self.cards@
    }

    /// How many cards have been dealt: the cursor.
    pub closed spec fn dealt(&self) -> nat {
        self.next_card as nat
    }

    /// What holds of every source: it holds the 104 cards of two decks, in
    /// the order that its seed stands for, and its cursor is within them.
    pub open spec fn wf(&self) -> bool {
        source_wf(self.seed_bytes(), self.deck(), self.dealt())
    }

    /// A source from a random seed.
    pub fn new() -> (source: Source)
        ensures
            source.wf(),
            source.dealt() == 0,
    {
        let seed = seed::from_random();
        Source::from_seed(seed)
    }

    /// The source that `seed` stands for: the same seed gives the same deck
    /// every time.
    pub fn from_seed(seed: [u8; 16]) -> (source: Source)
        ensures
            source.wf(),
            source.seed_bytes() == seed@,
            source.deck() == shuffled_deck(seed@),
            source.dealt() == 0,
    {
        let mut cards: Vec<Card> = Vec::new();
        push_deck(&mut cards);
        push_deck(&mut cards);
        assert(cards@ =~= two_decks());
        shuffle(seed, &mut cards);
        Source { seed, cards, next_card: 0 }
    }

    /// The seed that the source was made from.
    pub fn seed(&self) -> (seed: [u8; 16])
        ensures
            seed@ == self.seed_bytes(),
    {
        self.seed
    }

    /// Deals the next card and moves the cursor past it. Once every card
    /// has been dealt there is nothing to deal, and the source stays as it
    /// is.
    pub fn deal(&mut self) -> (res: Result<Card, GameError>)
        requires
            old(self).wf(),
        ensures
            final(self).wf(),
            final(self).seed_bytes() == old(self).seed_bytes(),
            final(self).deck() == old(self).deck(),
            match res {
                Ok(card) => {
                    &&& old(self).dealt() < TOTAL_CARDS
                    &&& card == old(self).deck()[old(self).dealt() as int]
                    &&& final(self).dealt() == old(self).dealt() + 1
                },
                Err(e) => {
                    &&& old(self).dealt() == TOTAL_CARDS
                    &&& e == GameError::DealFromEmptyDeck
                    &&& final(self).dealt() == old(self).dealt()
                },
            },
    {
        if self.next_card >= self.cards.len() {
            Err(GameError::DealFromEmptyDeck)
        } else {
            let next = self.next_card;
            self.next_card += 1;
            Ok(self.cards[next])
        }
    }

    /// How many cards the source holds, dealt ones included.
    pub fn total_cards(&self) -> (n: usize)
        ensures
            n == self.deck().len(),
    {
        self.cards.len()
    }

    /// How many cards have been dealt. This is the point that a later
    /// rewind can come back to.
    pub fn cards_dealt(&self) -> (n: usize)
        ensures
            n == self.dealt(),
    {
        self.next_card
    }

    /// Moves the cursor back to the point where `n` cards had been dealt.
    /// A point that has not been reached yet is refused, and the cursor
    /// stays.
    pub fn rewind(&mut self, n: usize) -> (res: Result<(), GameError>)
        requires
            old(self).wf(),
        ensures
            final(self).wf(),
            final(self).seed_bytes() == old(self).seed_bytes(),
            final(self).deck() == old(self).deck(),
            match res {
                Ok(_) => n <= old(self).dealt() && final(self).dealt() == n,
                Err(e) => {
                    &&& n > old(self).dealt()
                    &&& e == GameError::RewindIntoFuture
                    &&& final(self).dealt() == old(self).dealt()
                },
            },
    {
        if n > self.next_card {
            Err(GameError::RewindIntoFuture)
        } else {
            self.next_card = n;
            Ok(())
        }
    }
}

/// A deck is a function of its seed: two sources made from the same seed
/// hold the same 104 cards in the same order.
pub proof fn lemma_same_seed_same_deck(a: Source, b: Source)
    requires
        a.wf(),
        b.wf(),
        a.seed_bytes() == b.seed_bytes(),
    ensures
        a.deck() == b.deck(),
        a.deck().len() == 104,
{
}

/// A source holds two decks: every card there is occurs exactly twice
/// among its 104 cards.
pub proof fn lemma_every_card_twice(source: Source, card: Card)
    requires
        source.wf(),
    ensures
        source.deck().to_multiset().count(card) == 2,
{
    broadcast use vstd::seq_lib::to_multiset_contains;

    let deck = full_deck();
    assert(deck.no_duplicates()) by {
        assert forall|i: int, j: int| 0 <= i < deck.len() && 0 <= j < deck.len() && i != j implies deck[i]
            != deck[j] by {
            lemma_card_at_index(i);
            lemma_card_at_index(j);
        }
    }
    deck.lemma_multiset_has_no_duplicates();
    lemma_successor_is_next_above(card);
    assert(deck[card.index()] == card);
    assert(deck.contains(card));
    vstd::seq_lib::lemma_multiset_commutative(deck, deck);
}

} // verus!
