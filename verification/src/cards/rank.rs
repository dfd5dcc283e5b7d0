//! The thirteen ranks and their fixed order, ace low.

use std::cmp::Ordering;
use vstd::prelude::*;

verus! {

/// A rank. The declaration order is the rank order: ace lowest, king
/// highest.
#[derive(Debug, PartialEq, Eq, Structural, Clone, Copy, Hash)]
pub enum Rank {
    Ace,
    Two,
    Three,
    Four,
    Five,
    Six,
    Seven,
    Eight,
    Nine,
    Ten,
    Jack,
    Queen,
    King,
}

/// How many ranks there are.
pub const RANKS: usize = 13;

/// The rank at position `n` of the rank order. Positions below zero read as
/// the ace and positions past the end as the king, so the function is total.
pub open spec fn rank_at(n: int) -> Rank {
    if n <= 0 {
        Rank::Ace
    } else if n == 1 {
        Rank::Two
    } else if n == 2 {
        Rank::Three
    } else if n == 3 {
        Rank::Four
    } else if n == 4 {
        Rank::Five
    } else if n == 5 {
        Rank::Six
    } else if n == 6 {
        Rank::Seven
    } else if n == 7 {
        Rank::Eight
    } else if n == 8 {
        Rank::Nine
    } else if n == 9 {
        Rank::Ten
    } else if n == 10 {
        Rank::Jack
    } else if n == 11 {
        Rank::Queen
    } else {
        Rank::King
    }
}

/// All ranks, lowest first.
pub open spec fn all_ranks() -> Seq<Rank> {
    Seq::new(RANKS as nat, |n: int| rank_at(n))
}

impl Rank {
    /// Position of the rank in the rank order, counted from zero.
    pub open spec fn ordinal(self) -> int {
        match self {
            Rank::Ace => 0,
            Rank::Two => 1,
            Rank::Three => 2,
            Rank::Four => 3,
            Rank::Five => 4,
            Rank::Six => 5,
            Rank::Seven => 6,
            Rank::Eight => 7,
            Rank::Nine => 8,
            Rank::Ten => 9,
            Rank::Jack => 10,
            Rank::Queen => 11,
            Rank::King => 12,
        }
    }

    /// The one-byte tag of the rank: its position in the rank order.
    pub fn tag(self) -> (t: u8)
        ensures
            t == self.ordinal(),
    {
        match self {
            Rank::Ace => 0,
            Rank::Two => 1,
            Rank::Three => 2,
            Rank::Four => 3,
            Rank::Five => 4,
            Rank::Six => 5,
            Rank::Seven => 6,
            Rank::Eight => 7,
            Rank::Nine => 8,
            Rank::Ten => 9,
            Rank::Jack => 10,
            Rank::Queen => 11,
            Rank::King => 12,
        }
    }

    /// The two-character name of the rank, right-aligned, as a sequence of
    /// characters.
    pub open spec fn label_text(self) -> Seq<char> {
        match self {
            Rank::Ace => seq![' ', 'A'],
            Rank::Two => seq![' ', '2'],
            Rank::Three => seq![' ', '3'],
            Rank::Four => seq![' ', '4'],
            Rank::Five => seq![' ', '5'],
            Rank::Six => seq![' ', '6'],
            Rank::Seven => seq![' ', '7'],
            Rank::Eight => seq![' ', '8'],
            Rank::Nine => seq![' ', '9'],
            Rank::Ten => seq!['1', '0'],
            Rank::Jack => seq![' ', 'J'],
            Rank::Queen => seq![' ', 'Q'],
            Rank::King => seq![' ', 'K'],
        }
    }

    /// The two-character name of the rank, for display.
    pub fn label(self) -> (s: &'static str)
        ensures
            s@ == self.label_text(),
    {
        proof {
            reveal_strlit(" A");
            reveal_strlit(" 2");
            reveal_strlit(" 3");
            reveal_strlit(" 4");
            reveal_strlit(" 5");
            reveal_strlit(" 6");
            reveal_strlit(" 7");
            reveal_strlit(" 8");
            reveal_strlit(" 9");
            reveal_strlit("10");
            reveal_strlit(" J");
            reveal_strlit(" Q");
            reveal_strlit(" K");
        }
        let s = match self {
            Rank::Ace => " A",
            Rank::Two => " 2",
            Rank::Three => " 3",
            Rank::Four => " 4",
            Rank::Five => " 5",
            Rank::Six => " 6",
            Rank::Seven => " 7",
            Rank::Eight => " 8",
            Rank::Nine => " 9",
            Rank::Ten => "10",
            Rank::Jack => " J",
            Rank::Queen => " Q",
            Rank::King => " K",
        };
        assert(s@ =~= self.label_text());
        s
    }
}

impl From<Rank> for u8 {
    /// The letter of the rank as an ASCII byte; ten is `X`.
    fn from(rank: Rank) -> (letter: u8) {
        match rank {
            Rank::Ace => 0x41,
            Rank::Two => 0x32,
            Rank::Three => 0x33,
            Rank::Four => 0x34,
            Rank::Five => 0x35,
            Rank::Six => 0x36,
            Rank::Seven => 0x37,
            Rank::Eight => 0x38,
            Rank::Nine => 0x39,
            Rank::Ten => 0x58,
            Rank::Jack => 0x4a,
            Rank::Queen => 0x51,
            Rank::King => 0x4b,
        }
    }
}

impl vstd::std_specs::convert::FromSpecImpl<Rank> for u8 {
    open spec fn obeys_from_spec() -> bool {
        true
    }

    /// The letter of the rank as an ASCII byte: the digit for two to nine,
    /// and `A`, `X`, `J`, `Q`, `K` for ace, ten, jack, queen and king.
    open spec fn from_spec(rank: Rank) -> u8 {
        match rank {
            Rank::Ace => 0x41,
            Rank::Two => 0x32,
            Rank::Three => 0x33,
            Rank::Four => 0x34,
            Rank::Five => 0x35,
            Rank::Six => 0x36,
            Rank::Seven => 0x37,
            Rank::Eight => 0x38,
            Rank::Nine => 0x39,
            Rank::Ten => 0x58,
            Rank::Jack => 0x4a,
            Rank::Queen => 0x51,
            Rank::King => 0x4b,
        }
    }
}

impl PartialOrd for Rank {
    fn partial_cmp(&self, other: &Rank) -> (r: Option<Ordering>) {
        let a: u8 = self.tag();
        let b: u8 = other.tag();
        if a < b {
            Some(Ordering::Less)
        } else if a == b {
            Some(Ordering::Equal)
        } else {
            Some(Ordering::Greater)
        }
    }
}

impl vstd::std_specs::cmp::PartialOrdSpecImpl for Rank {
    open spec fn obeys_partial_cmp_spec() -> bool {
        true
    }

    open spec fn partial_cmp_spec(&self, other: &Rank) -> Option<Ordering> {
        if self.ordinal() < other.ordinal() {
            Some(Ordering::Less)
        } else if self.ordinal() == other.ordinal() {
            Some(Ordering::Equal)
        } else {
            Some(Ordering::Greater)
        }
    }
}

/// The rank that follows `r` in the rank order; the king has none.
pub open spec fn next_rank(r: Rank) -> Option<Rank> {
    if r.ordinal() + 1 < RANKS {
        Some(rank_at(r.ordinal() + 1))
    } else {
        None
    }
}

/// The rank after `r`, or `None` for the king: ranks do not wrap around.
pub fn successor(r: Rank) -> (next: Option<Rank>)
    ensures
        next == next_rank(r),
{
    match r {
        Rank::Ace => Some(Rank::Two),
        Rank::Two => Some(Rank::Three),
        Rank::Three => Some(Rank::Four),
        Rank::Four => Some(Rank::Five),
        Rank::Five => Some(Rank::Six),
        Rank::Six => Some(Rank::Seven),
        Rank::Seven => Some(Rank::Eight),
        Rank::Eight => Some(Rank::Nine),
        Rank::Nine => Some(Rank::Ten),
        Rank::Ten => Some(Rank::Jack),
        Rank::Jack => Some(Rank::Queen),
        Rank::Queen => Some(Rank::King),
        Rank::King => None,
    }
}

/// The lowest rank.
pub fn first() -> (r: Rank)
    ensures
        r == Rank::Ace,
{
    Rank::Ace
}

/// A cursor over the ranks in ascending order.
pub struct Iter {
    current: Option<Rank>,
}

impl View for Iter {
    type V = Seq<Rank>;

    /// The ranks that the cursor has yet to hand out, next one first.
    closed spec fn view(&self) -> Seq<Rank> {
        match self.current {
            Some(r) => all_ranks().skip(r.ordinal()),
            None => Seq::empty(),
        }
    }
}

impl Iter {
    /// Hands out the next rank and moves past it; `None` once all thirteen
    /// have been handed out.
    pub fn next(&mut self) -> (item: Option<Rank>)
        ensures
            old(self)@.len() == 0 ==> item is None && final(self)@ == old(self)@,
            old(self)@.len() > 0 ==> item == Some(old(self)@[0]) && final(self)@ == old(
                self,
            )@.drop_first(),
    {
        let prev = self.current;
        match prev {
            Some(previous) => {
                self.current = successor(previous);
                assert(self@ =~= old(self)@.drop_first());
                prev
            },
            None => None,
        }
    }
}

/// A cursor placed before the lowest rank.
pub fn iter() -> (it: Iter)
    ensures
        it@ == all_ranks(),
{
    let it = Iter { current: Some(first()) };
    assert(it@ =~= all_ranks());
    it
}

/// The rank order is the order of the positions, and `successor` climbs it
/// one step at a time: a rank is below its successor, and no rank lies
/// strictly between the two.
pub proof fn lemma_successor_is_next_above(r: Rank, t: Rank)
    ensures
        rank_at(r.ordinal()) == r,
        next_rank(r) matches Some(n) ==> r.ordinal() + 1 == n.ordinal(),
        next_rank(r) is None <==> r == Rank::King,
        next_rank(r) == Some(t) <==> t.ordinal() == r.ordinal() + 1,
{
}

} // verus!
