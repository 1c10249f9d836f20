use vstd::prelude::*;
use vstd::string::StringExecFns;

verus! {

/// The four suits, which matter only for display.
#[derive(PartialEq, Eq, Structural, Copy, Clone, Debug)]
pub enum Suit {
    Hearts,
    Diamonds,
    Spades,
    Clubs,
}

/// The thirteen ranks, lowest first.
#[derive(PartialEq, Eq, Structural, Copy, Clone, Debug)]
pub enum Rank {
    Two,
    Three,
    Four,
    Five,
    Six,
    Seven,
    Eight,
    Nine,
    Ten,
    Jack,
    Queen,
    King,
    Ace,
}

/// A playing card: a rank and a suit, compared by value.
#[derive(PartialEq, Eq, Structural, Copy, Clone, Debug)]
pub struct Card {
    pub rank: Rank,
    pub suit: Suit,
}

/// Every suit, in the order in which a fresh deck is built.
pub open spec fn all_suits() -> Seq<Suit> {
    seq![Suit::Hearts, Suit::Diamonds, Suit::Spades, Suit::Clubs]
}

/// Every rank, from Two up to Ace.
pub open spec fn all_ranks() -> Seq<Rank> {
    seq![
        Rank::Two,
        Rank::Three,
        Rank::Four,
        Rank::Five,
        Rank::Six,
        Rank::Seven,
        Rank::Eight,
        Rank::Nine,
        Rank::Ten,
        Rank::Jack,
        Rank::Queen,
        Rank::King,
        Rank::Ace,
    ]
}

/// The glyph that shows a suit.
pub open spec fn suit_symbol(s: Suit) -> Seq<char> {
    match s {
        Suit::Spades => seq!['\u{2664}'],
        Suit::Hearts => seq!['\u{2661}'],
        Suit::Diamonds => seq!['\u{2662}'],
        Suit::Clubs => seq!['\u{2667}'],
    }
}

/// The short text that shows a rank.
pub open spec fn rank_text(r: Rank) -> Seq<char> {
    match r {
        Rank::Two => seq!['2'],
        Rank::Three => seq!['3'],
        Rank::Four => seq!['4'],
        Rank::Five => seq!['5'],
        Rank::Six => seq!['6'],
        Rank::Seven => seq!['7'],
        Rank::Eight => seq!['8'],
        Rank::Nine => seq!['9'],
        Rank::Ten => seq!['1', '0'],
        Rank::Jack => seq!['J'],
        Rank::Queen => seq!['Q'],
        Rank::King => seq!['K'],
        Rank::Ace => seq!['A'],
    }
}

/// The rank written by one character of a card code ('2'..'9', 'T', 'J', 'Q', 'K', 'A').
pub open spec fn rank_of_code(c: char) -> Option<Rank> {
    if c == '2' {
        Some(Rank::Two)
    } else if c == '3' {
        Some(Rank::Three)
    } else if c == '4' {
        Some(Rank::Four)
    } else if c == '5' {
        Some(Rank::Five)
    } else if c == '6' {
        Some(Rank::Six)
    } else if c == '7' {
        Some(Rank::Seven)
    } else if c == '8' {
        Some(Rank::Eight)
    } else if c == '9' {
        Some(Rank::Nine)
    } else if c == 'T' {
        Some(Rank::Ten)
    } else if c == 'J' {
        Some(Rank::Jack)
    } else if c == 'Q' {
        Some(Rank::Queen)
    } else if c == 'K' {
        Some(Rank::King)
    } else if c == 'A' {
        Some(Rank::Ace)
    } else {
        None
    }
}

/// The suit written by one character of a card code ('h', 'd', 'c', 's').
pub open spec fn suit_of_code(c: char) -> Option<Suit> {
    if c == 'h' {
        Some(Suit::Hearts)
    } else if c == 'd' {
        Some(Suit::Diamonds)
    } else if c == 'c' {
        Some(Suit::Clubs)
    } else if c == 's' {
        Some(Suit::Spades)
    } else {
        None
    }
}

/// A two-character card code such as "Tc" names a card.
pub open spec fn is_card_code(code: Seq<char>) -> bool {
    code.len() >= 2 && rank_of_code(code[0]) is Some && suit_of_code(code[1]) is Some
}

impl Suit {
    /// Every suit, in fixed order.
    pub fn all() -> (r: [Suit; 4])
        ensures
            r@ == all_suits(),
    {
        let r = [Suit::Hearts, Suit::Diamonds, Suit::Spades, Suit::Clubs];
        assert(r@ =~= all_suits());
        r
    }

    /// The glyph that shows this suit.
    pub fn symbol(&self) -> (r: &'static str)
        ensures
            r@ == suit_symbol(*self),
    {
        match self {
            Suit::Spades => {
                proof { reveal_strlit("\u{2664}"); }
                "\u{2664}"
            },
            Suit::Hearts => {
                proof { reveal_strlit("\u{2661}"); }
                "\u{2661}"
            },
            Suit::Diamonds => {
                proof { reveal_strlit("\u{2662}"); }
                "\u{2662}"
            },
            Suit::Clubs => {
                proof { reveal_strlit("\u{2667}"); }
                "\u{2667}"
            },
        }
    }
}

impl Rank {
    /// Every rank, from Two up to Ace.
    pub fn all() -> (r: [Rank; 13])
        ensures
            r@ == all_ranks(),
    {
        let r = [
            Rank::Two,
            Rank::Three,
            Rank::Four,
            Rank::Five,
            Rank::Six,
            Rank::Seven,
            Rank::Eight,
            Rank::Nine,
            Rank::Ten,
            Rank::Jack,
            Rank::Queen,
            Rank::King,
            Rank::Ace,
        ];
        assert(r@ =~= all_ranks());
        r
    }

    /// The point value of a rank: face value for Two to Ten, 10 for a face
    /// card, and 11 for an Ace before any adjustment.
    pub open spec fn spec_value(self) -> nat {
        match self {
            Rank::Two => 2,
            Rank::Three => 3,
            Rank::Four => 4,
            Rank::Five => 5,
            Rank::Six => 6,
            Rank::Seven => 7,
            Rank::Eight => 8,
            Rank::Nine => 9,
            Rank::Ten | Rank::Jack | Rank::Queen | Rank::King => 10,
            Rank::Ace => 11,
        }
    }

    /// The point value of this rank, an Ace counting 11.
    pub fn value(&self) -> (r: u8)
        ensures
            r == self.spec_value(),
            2 <= r <= 11,
    {
        match *self {
            Rank::Two => 2,
            Rank::Three => 3,
            Rank::Four => 4,
            Rank::Five => 5,
            Rank::Six => 6,
            Rank::Seven => 7,
            Rank::Eight => 8,
            Rank::Nine => 9,
            Rank::Ten | Rank::Jack | Rank::Queen | Rank::King => 10,
            Rank::Ace => 11,
        }
    }

    /// The short text that shows this rank.
    pub fn text(&self) -> (r: &'static str)
        ensures
            r@ == rank_text(*self),
    {
        match self {
            Rank::Two => {
                proof { reveal_strlit("2"); }
                "2"
            },
            Rank::Three => {
                proof { reveal_strlit("3"); }
                "3"
            },
            Rank::Four => {
                proof { reveal_strlit("4"); }
                "4"
            },
            Rank::Five => {
                proof { reveal_strlit("5"); }
                "5"
            },
            Rank::Six => {
                proof { reveal_strlit("6"); }
                "6"
            },
            Rank::Seven => {
                proof { reveal_strlit("7"); }
                "7"
            },
            Rank::Eight => {
                proof { reveal_strlit("8"); }
                "8"
            },
            Rank::Nine => {
                proof { reveal_strlit("9"); }
                "9"
            },
            Rank::Ten => {
                proof { reveal_strlit("10"); }
                "10"
            },
            Rank::Jack => {
                proof { reveal_strlit("J"); }
                "J"
            },
            Rank::Queen => {
                proof { reveal_strlit("Q"); }
                "Q"
            },
            Rank::King => {
                proof { reveal_strlit("K"); }
                "K"
            },
            Rank::Ace => {
                proof { reveal_strlit("A"); }
                "A"
            },
        }
    }
}

impl Card {
    /// The card of the given rank and suit.
    pub fn new(rank: Rank, suit: Suit) -> (r: Card)
        ensures
            r == (Card { rank, suit }),
    {
        Card { rank, suit }
    }

    /// Reads a card from its two-character code, rank first ("Tc", "4h", "As").
    pub fn of(code: &str) -> (r: Card)
        requires
            is_card_code(code@),
        ensures
            r == (Card { rank: rank_of_code(code@[0])->0, suit: suit_of_code(code@[1])->0 }),
    {
        let rc = code.get_char(0);
        let sc = code.get_char(1);
        let rank = if rc == '2' {
            Rank::Two
        } else if rc == '3' {
            Rank::Three
        } else if rc == '4' {
            Rank::Four
        } else if rc == '5' {
            Rank::Five
        } else if rc == '6' {
            Rank::Six
        } else if rc == '7' {
            Rank::Seven
        } else if rc == '8' {
            Rank::Eight
        } else if rc == '9' {
            Rank::Nine
        } else if rc == 'T' {
            Rank::Ten
        } else if rc == 'J' {
            Rank::Jack
        } else if rc == 'Q' {
            Rank::Queen
        } else if rc == 'K' {
            Rank::King
        } else {
            Rank::Ace
        };
        let suit = if sc == 'h' {
            Suit::Hearts
        } else if sc == 'd' {
            Suit::Diamonds
        } else if sc == 'c' {
            Suit::Clubs
        } else {
            Suit::Spades
        };
        Card { rank, suit }
    }

    /// The card's text: its rank followed by its suit glyph.
    pub fn text(&self) -> (r: String)
        ensures
            r@ == rank_text(self.rank) + suit_symbol(self.suit),
    {
        self.rank.text().to_owned().concat(self.suit.symbol())
    }
}

} // verus!
