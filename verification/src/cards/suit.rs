//! The four suits and their fixed order.

use std::cmp::Ordering;
use vstd::prelude::*;

verus! {

/// A suit. The declaration order is the suit order: clubs lowest, spades
/// highest.
#[derive(Debug, PartialEq, Eq, Structural, Clone, Copy, Hash)]
pub enum Suit {
    Clubs,
    Diamonds,
    Hearts,
    Spades,
}

/// How many suits there are.
pub const SUITS: usize = 4;

/// The suit at position `n` of the suit order. Positions below zero read as
/// clubs and positions past the end as spades, so the function is total.
pub open spec fn suit_at(n: int) -> Suit {
    if n <= 0 {
        Suit::Clubs
    } else if n == 1 {
        Suit::Diamonds
    } else if n == 2 {
        Suit::Hearts
    } else {
        Suit::Spades
    }
}

/// All suits, lowest first.
pub open spec fn all_suits() -> Seq<Suit> {
    Seq::new(SUITS as nat, |n: int| suit_at(n))
}

impl Suit {
    /// Position of the suit in the suit order, counted from zero.
    pub open spec fn ordinal(self) -> int {
        match self {
            Suit::Clubs => 0,
            Suit::Diamonds => 1,
            Suit::Hearts => 2,
            Suit::Spades => 3,
        }
    }

    /// The one-byte tag of the suit: its position in the suit order.
    pub fn tag(self) -> (t: u8)
        ensures
            t == self.ordinal(),
    {
        match self {
            Suit::Clubs => 0,
            Suit::Diamonds => 1,
            Suit::Hearts => 2,
            Suit::Spades => 3,
        }
    }

    /// The one-letter name of the suit as a sequence of characters.
    pub open spec fn label_text(self) -> Seq<char> {
        match self {
            Suit::Clubs => seq!['C'],
            Suit::Diamonds => seq!['D'],
            Suit::Hearts => seq!['H'],
            Suit::Spades => seq!['S'],
        }
    }

    /// The one-letter name of the suit, for display.
    pub fn label(self) -> (s: &'static str)
        ensures
            s@ == self.label_text(),
    {
        proof {
            reveal_strlit("C");
            reveal_strlit("D");
            reveal_strlit("H");
            reveal_strlit("S");
        }
        let s = match self {
            Suit::Clubs => "C",
            Suit::Diamonds => "D",
            Suit::Hearts => "H",
            Suit::Spades => "S",
        };
        assert(s@ =~= self.label_text());
        s
    }
}

impl From<Suit> for u8 {
    /// The letter of the suit as an ASCII byte.
    fn from(suit: Suit) -> (letter: u8) {
        match suit {
            Suit::Clubs => 0x43,
            Suit::Diamonds => 0x44,
            Suit::Hearts => 0x48,
            Suit::Spades => 0x53,
        }
    }
}

impl vstd::std_specs::convert::FromSpecImpl<Suit> for u8 {
    open spec fn obeys_from_spec() -> bool {
        true
    }

    /// The letter of the suit as an ASCII byte: `C`, `D`, `H` or `S`.
    open spec fn from_spec(suit: Suit) -> u8 {
        match suit {
            Suit::Clubs => 0x43,
            Suit::Diamonds => 0x44,
            Suit::Hearts => 0x48,
            Suit::Spades => 0x53,
        }
    }
}

impl PartialOrd for Suit {
    fn partial_cmp(&self, other: &Suit) -> (r: Option<Ordering>) {
        let a: u8 = self.tag();
        let b: u8 = other.tag();
        if a < b {
            Some(Ordering::Less)
        } else if a == b {
            Some(Ordering::Equal)
        } else {
            Some(Ordering::Greater)
        }
    }
}

impl vstd::std_specs::cmp::PartialOrdSpecImpl for Suit {
    open spec fn obeys_partial_cmp_spec() -> bool {
        true
    }

    open spec fn partial_cmp_spec(&self, other: &Suit) -> Option<Ordering> {
        if self.ordinal() < other.ordinal() {
            Some(Ordering::Less)
        } else if self.ordinal() == other.ordinal() {
            Some(Ordering::Equal)
        } else {
            Some(Ordering::Greater)
        }
    }
}

/// The suit that follows `s` in the suit order; the highest suit has none.
pub open spec fn next_suit(s: Suit) -> Option<Suit> {
    if s.ordinal() + 1 < SUITS {
        Some(suit_at(s.ordinal() + 1))
    } else {
        None
    }
}

/// The suit after `s`, or `None` for spades.
pub fn successor(s: Suit) -> (next: Option<Suit>)
    ensures
        next == next_suit(s),
{
    match s {
        Suit::Clubs => Some(Suit::Diamonds),
        Suit::Diamonds => Some(Suit::Hearts),
        Suit::Hearts => Some(Suit::Spades),
        Suit::Spades => None,
    }
}

/// The lowest suit.
pub fn first() -> (s: Suit)
    ensures
        s == Suit::Clubs,
{
    Suit::Clubs
}

/// A cursor over the suits in ascending order.
pub struct Iter {
    current: Option<Suit>,
}

impl View for Iter {
    type V = Seq<Suit>;

    /// The suits that the cursor has yet to hand out, next one first.
    closed spec fn view(&self) -> Seq<Suit> {
        match self.current {
            Some(s) => all_suits().skip(s.ordinal()),
            None => Seq::empty(),
        }
    }
}

impl Iter {
    /// Hands out the next suit and moves past it; `None` once all four have
    /// been handed out.
    pub fn next(&mut self) -> (item: Option<Suit>)
        ensures
            old(self)@.len() == 0 ==> item is None && final(self)@ == old(self)@,
            old(self)@.len() > 0 ==> item == Some(old(self)@[0]) && final(self)@ == old(
                self,
            )@.drop_first(),
    {
        let prev = self.current;
        match prev {
            Some(previous) => {
                self.current = successor(previous);
                assert(self@ =~= old(self)@.drop_first());
                prev
            },
            None => None,
        }
    }
}

/// A cursor placed before the lowest suit.
pub fn iter() -> (it: Iter)
    ensures
        it@ == all_suits(),
{
    let it = Iter { current: Some(first()) };
    assert(it@ =~= all_suits());
    it
}

/// The suit order is the order of the positions, and `successor` climbs it
/// one step at a time: a suit is below its successor, and no suit lies
/// strictly between the two.
pub proof fn lemma_successor_is_next_above(s: Suit, t: Suit)
    ensures
        suit_at(s.ordinal()) == s,
        next_suit(s) matches Some(n) ==> s.ordinal() + 1 == n.ordinal(),
        next_suit(s) is None <==> s == Suit::Spades,
        next_suit(s) == Some(t) <==> t.ordinal() == s.ordinal() + 1,
{
}

} // verus!
