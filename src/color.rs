use vstd::prelude::*;

verus! {

/// One of the six colors an indicator can show, in cycle order.
#[derive(Clone, Copy, Debug, PartialEq, Eq, Hash, Structural)]
pub enum NodeColor {
    Off,
    Green,
    Blue,
    Red,
    Purple,
    White,
}

impl NodeColor {
    /// Position of the color in the cycle Off, Green, Blue, Red, Purple, White.
    pub open spec fn index(self) -> nat {
        match self {
            NodeColor::Off => 0,
            NodeColor::Green => 1,
            NodeColor::Blue => 2,
            NodeColor::Red => 3,
            NodeColor::Purple => 4,
            NodeColor::White => 5,
        }
    }

    /// The color at position `n mod 6` of the cycle.
    pub open spec fn from_index(n: nat) -> NodeColor {
        let k = n % 6;
        if k == 0 {
            NodeColor::Off
        } else if k == 1 {
            NodeColor::Green
        } else if k == 2 {
            NodeColor::Blue
        } else if k == 3 {
            NodeColor::Red
        } else if k == 4 {
            NodeColor::Purple
        } else {
            NodeColor::White
        }
    }

    /// The color reached after `steps` advances around the cycle.
    pub open spec fn advanced(self, steps: nat) -> NodeColor {
        NodeColor::from_index(self.index() + steps)
    }

    /// Upper-case name of the color.
    pub open spec fn name(self) -> Seq<char> {
        match self {
            NodeColor::Off => seq!['O', 'F', 'F'],
            NodeColor::Green => seq!['G', 'R', 'E', 'E', 'N'],
            NodeColor::Blue => seq!['B', 'L', 'U', 'E'],
            NodeColor::Red => seq!['R', 'E', 'D'],
            NodeColor::Purple => seq!['P', 'U', 'R', 'P', 'L', 'E'],
            NodeColor::White => seq!['W', 'H', 'I', 'T', 'E'],
        }
    }

    /// Advances one step in the cycle, wrapping from White back to Off.
    pub fn next(self) -> (r: NodeColor)
        ensures
            r.index() == (self.index() + 1) % 6,
            r == self.advanced(1),
    {
        match self {
            NodeColor::Off => NodeColor::Green,
            NodeColor::Green => NodeColor::Blue,
            NodeColor::Blue => NodeColor::Red,
            NodeColor::Red => NodeColor::Purple,
            NodeColor::Purple => NodeColor::White,
            NodeColor::White => NodeColor::Off,
        }
    }

    /// The color's upper-case name.
    pub fn as_str(self) -> (r: &'static str)
        ensures
            r@ == self.name(),
    {
        proof {
            reveal_strlit("OFF");
            reveal_strlit("GREEN");
            reveal_strlit("BLUE");
            reveal_strlit("RED");
            reveal_strlit("PURPLE");
            reveal_strlit("WHITE");
        }
        match self {
            NodeColor::Off => "OFF",
            NodeColor::Green => "GREEN",
            NodeColor::Blue => "BLUE",
            NodeColor::Red => "RED",
            NodeColor::Purple => "PURPLE",
            NodeColor::White => "WHITE",
        }
    }
}

/// Every color sits at a position below six, and that position names it back.
pub proof fn lemma_index_round_trip(c: NodeColor)
    ensures
        c.index() < 6,
        NodeColor::from_index(c.index()) == c,
{
}

} // verus!
