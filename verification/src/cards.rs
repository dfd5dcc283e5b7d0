//! Cards: a suit and a rank, their order, and descending runs.

use std::cmp::Ordering;
use vstd::prelude::*;

pub mod rank;
pub mod suit;

use rank::Rank;
use suit::Suit;

verus! {

/// A playing card. Two decks are in play, so two cards of a game may be
/// equal; nothing tells them apart.
#[derive(Debug, PartialEq, Eq, Structural, Clone, Copy, Hash)]
pub struct Card {
    pub suit: Suit,
    pub rank: Rank,
}

/// How many different cards there are: one deck.
pub const DECK: usize = 52;

/// The card at position `n` of the card order: suits in turn, and within a
/// suit the ranks in turn.
pub open spec fn card_at(n: int) -> Card {
    Card { suit: suit::suit_at(n / 13), rank: rank::rank_at(n % 13) }
}

/// One full deck in ascending order, from the ace of clubs to the king of
/// spades.
pub open spec fn full_deck() -> Seq<Card> {
    Seq::new(52, |n: int| card_at(n))
}

impl Card {
    /// Position of the card in the card order, counted from zero: the suit
    /// counts thirteen times as much as the rank.
    pub open spec fn index(self) -> int {
        13 * self.suit.ordinal() + self.rank.ordinal()
    }

    /// The position of the card in the card order as a machine integer.
    pub fn position(self) -> (p: u8)
        ensures
            p == self.index(),
            p < 52,
    {
        13 * self.suit.tag() + self.rank.tag()
    }

    /// The two-byte form of the card: suit tag, then rank tag.
    pub open spec fn encoding(self) -> Seq<u8> {
        seq![self.suit.ordinal() as u8, self.rank.ordinal() as u8]
    }

    /// The two-byte form of the card, as board digests use it.
    pub fn encode(self) -> (bytes: [u8; 2])
        ensures
            bytes@ == self.encoding(),
    {
        let bytes = [self.suit.tag(), self.rank.tag()];
        assert(bytes@ =~= self.encoding());
        bytes
    }

    /// The display form of the card as a sequence of characters: the rank's
    /// two characters and the suit's letter, in round brackets.
    pub open spec fn label_text(self) -> Seq<char> {
        seq!['('] + self.rank.label_text() + seq![' '] + self.suit.label_text() + seq![')']
    }

    /// The display form of the card, such as `( A C)` or `(10 H)`.
    pub fn label(&self) -> (s: String)
        ensures
            s@ == self.label_text(),
    {
        proof {
            reveal_strlit("(");
            reveal_strlit(" ");
            reveal_strlit(")");
        }
        let s = String::from_str("(");
        let s = s.concat(self.rank.label());
        let s = s.concat(" ");
        let s = s.concat(self.suit.label());
        let s = s.concat(")");
        assert(s@ =~= self.label_text());
        s
    }

    /// A cursor placed before the lowest card.
    pub fn iter() -> (it: Iter)
        ensures
            it@ == full_deck(),
    {
        let it = Iter { current: Some(Card { suit: suit::first(), rank: rank::first() }) };
        assert(it@ =~= full_deck());
        it
    }
}

impl From<Card> for [u8; 2] {
    /// The two-byte form of the card: suit tag, then rank tag.
    fn from(card: Card) -> (bytes: [u8; 2]) {
        card.encode()
    }
}

impl vstd::std_specs::convert::FromSpecImpl<Card> for [u8; 2] {
    open spec fn obeys_from_spec() -> bool {
        true
    }

    open spec fn from_spec(card: Card) -> [u8; 2] {
        [card.suit.ordinal() as u8, card.rank.ordinal() as u8]
    }
}

impl PartialOrd for Card {
    fn partial_cmp(&self, other: &Card) -> (r: Option<Ordering>) {
        let a: u8 = self.position();
        let b: u8 = other.position();
        if a < b {
            Some(Ordering::Less)
        } else if a == b {
            Some(Ordering::Equal)
        } else {
            Some(Ordering::Greater)
        }
    }
}

impl vstd::std_specs::cmp::PartialOrdSpecImpl for Card {
    open spec fn obeys_partial_cmp_spec() -> bool {
        true
    }

    /// Suit decides first, rank second.
    open spec fn partial_cmp_spec(&self, other: &Card) -> Option<Ordering> {
        if self.index() < other.index() {
            Some(Ordering::Less)
        } else if self.index() == other.index() {
            Some(Ordering::Equal)
        } else {
            Some(Ordering::Greater)
        }
    }
}

/// The card that follows `c` in the card order: the next rank of the same
/// suit, after a king the ace of the next suit, and nothing after the king
/// of spades.
pub open spec fn next_card(c: Card) -> Option<Card> {
    if c.index() + 1 < 52 {
        Some(card_at(c.index() + 1))
    } else {
        None
    }
}

/// The card after `c`, or `None` for the highest card.
pub fn successor(c: Card) -> (next: Option<Card>)
    ensures
        next == next_card(c),
{
    if let Some(r) = rank::successor(c.rank) {
        Some(Card { suit: c.suit, rank: r })
    } else {
        if let Some(s) = suit::successor(c.suit) {
            Some(Card { suit: s, rank: rank::first() })
        } else {
            None
        }
    }
}

/// A cursor over one deck in ascending order.
pub struct Iter {
    current: Option<Card>,
}

impl View for Iter {
    type V = Seq<Card>;

    /// The cards that the cursor has yet to hand out, next one first.
    closed spec fn view(&self) -> Seq<Card> {
        match self.current {
            Some(c) => full_deck().skip(c.index()),
            None => Seq::empty(),
        }
    }
}

impl Iter {
    /// Hands out the next card and moves past it; `None` once the whole
    /// deck has been handed out.
    pub fn next(&mut self) -> (item: Option<Card>)
        ensures
            old(self)@.len() == 0 ==> item is None && final(self)@ == old(self)@,
            old(self)@.len() > 0 ==> item == Some(old(self)@[0]) && final(self)@ == old(
                self,
            )@.drop_first(),
    {
        let prev = self.current;
        match prev {
            Some(previous) => {
                self.current = successor(previous);
                assert(self@ =~= old(self)@.drop_first());
                prev
            },
            None => None,
        }
    }
}

/// Whether the card at `i` sits directly on the card at `i + 1` in a run:
/// same suit, and one step up in the card order.
pub open spec fn steps_down(cards: Seq<Card>, i: int) -> bool {
    cards[i].suit == cards[i + 1].suit && next_card(cards[i + 1]) == Some(cards[i])
}

/// A descending run: at least one card, all of one suit, each card one rank
/// below the card before it.
pub open spec fn descending_run(cards: Seq<Card>) -> bool {
    cards.len() > 0 && forall|i: int| 0 <= i < cards.len() - 1 ==> #[trigger] steps_down(cards, i)
}

/// Tells whether `cards` form a descending run. The empty slice is no run;
/// a single card always is one.
pub fn is_descending_run(cards: &[Card]) -> (run: bool)
    ensures
        run == descending_run(cards@),
{
    let n = cards.len();
    if n == 0 {
        return false;
    }
    let mut j: usize = 1;
    while j < n
        invariant
            1 <= j <= n,
            n == cards@.len(),
            forall|i: int| 0 <= i < j - 1 ==> #[trigger] steps_down(cards@, i),
        decreases n - j,
    {
        if cards[j - 1].suit != cards[j].suit {
            assert(!steps_down(cards@, j - 1));
            return false;
        }
        match successor(cards[j]) {
            Some(s) => {
                if cards[j - 1] != s {
                    assert(!steps_down(cards@, j - 1));
                    return false;
                }
            },
            None => {
                assert(!steps_down(cards@, j - 1));
                return false;
            },
        }
        j += 1;
    }
    true
}

/// The card that `c` follows in the card order: the inverse of
/// [`next_card`]. The ace of clubs follows nothing.
pub open spec fn prev_card(c: Card) -> Option<Card> {
    if c.index() >= 1 {
        Some(card_at(c.index() - 1))
    } else {
        None
    }
}

/// A card is fixed by its position, and `successor` moves exactly one
/// position up: every card lies directly below its successor in the order
/// that `<` tests.
pub proof fn lemma_successor_is_next_above(c: Card)
    ensures
        0 <= c.index() < 52,
        card_at(c.index()) == c,
        next_card(c) matches Some(d) ==> d.index() == c.index() + 1,
        next_card(c) is None <==> c == (Card { suit: Suit::Spades, rank: Rank::King }),
{
    suit::lemma_successor_is_next_above(c.suit, c.suit);
    rank::lemma_successor_is_next_above(c.rank, c.rank);
}

/// Stepping down and up again, or up and down again, comes back to the same
/// card: whenever a card has a predecessor, the successor of that
/// predecessor is the card itself, and whenever it has a successor, the
/// predecessor of that successor is the card itself.
pub proof fn lemma_successor_inverts_predecessor(c: Card)
    ensures
        prev_card(c) matches Some(p) ==> next_card(p) == Some(c),
        next_card(c) matches Some(n) ==> prev_card(n) == Some(c),
        prev_card(c) is None <==> c == (Card { suit: Suit::Clubs, rank: Rank::Ace }),
{
    lemma_successor_is_next_above(c);
    if c.index() >= 1 {
        let p = card_at(c.index() - 1);
        lemma_card_at_index(c.index() - 1);
    }
    if c.index() + 1 < 52 {
        lemma_card_at_index(c.index() + 1);
    }
}

/// Position `n` of the card order holds a card whose own position is `n`.
pub proof fn lemma_card_at_index(n: int)
    requires
        0 <= n < 52,
    ensures
        card_at(n).index() == n,
{
    let s = n / 13;
    let r = n % 13;
    assert(0 <= s < 4 && 0 <= r < 13 && n == 13 * s + r);
    assert(suit::suit_at(s).ordinal() == s);
    assert(rank::rank_at(r).ordinal() == r);
}

/// Inside one suit the successor of a card is the card of the next rank, so
/// a run may be read off the ranks alone: two neighbours step down exactly
/// when they share the suit and the upper rank follows the lower one.
pub proof fn lemma_steps_down_by_rank(cards: Seq<Card>, i: int)
    requires
        0 <= i < cards.len() - 1,
    ensures
        steps_down(cards, i) <==> (cards[i].suit == cards[i + 1].suit && rank::next_rank(
            cards[i + 1].rank,
        ) == Some(cards[i].rank)),
{
    let lo = cards[i + 1];
    let hi = cards[i];
    lemma_successor_is_next_above(lo);
    lemma_successor_is_next_above(hi);
    rank::lemma_successor_is_next_above(lo.rank, hi.rank);
    if lo.index() + 1 < 52 {
        lemma_card_at_index(lo.index() + 1);
    }
}

/// Every tail of a descending run is a descending run.
pub proof fn lemma_run_tail(cards: Seq<Card>, k: int)
    requires
        descending_run(cards),
        0 <= k < cards.len(),
    ensures
        descending_run(cards.skip(k)),
{
    let tail = cards.skip(k);
    assert forall|i: int| 0 <= i < tail.len() - 1 implies #[trigger] steps_down(tail, i) by {
        assert(steps_down(cards, k + i));
    }
}

} // verus!
