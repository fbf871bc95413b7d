use vstd::prelude::*;

use crate::color::NodeColor;

verus! {

/// `n` spaces.
pub open spec fn spaces(n: nat) -> Seq<char> {
    Seq::new(n, |i: int| ' ')
}

/// The first `width` characters of `s`, or all of `s` where it is shorter.
pub open spec fn trimmed(s: Seq<char>, width: nat) -> Seq<char> {
    if s.len() <= width {
        s
    } else {
        s.take(width as int)
    }
}

/// `s` cut to `width` and padded with spaces on both sides to exactly `width`
/// characters, the left side getting the smaller half of the padding.
pub open spec fn centered(s: Seq<char>, width: nat) -> Seq<char> {
    let clean = trimmed(s, width);
    if clean.len() >= width {
        clean
    } else {
        let left = ((width - clean.len()) / 2) as nat;
        let right = (width - clean.len() - left) as nat;
        spaces(left) + clean + spaces(right)
    }
}

/// The names of the first `n` colors of `s`, separated by `" | "`.
pub open spec fn board_text(s: Seq<NodeColor>, n: nat) -> Seq<char>
    decreases n,
{
    if n == 0 {
        Seq::empty()
    } else if n == 1 {
        s[0].name()
    } else {
        board_text(s, (n - 1) as nat) + seq![' ', '|', ' '] + s[n - 1].name()
    }
}

/// The character of decimal digit `d`.
pub open spec fn digit_char(d: nat) -> char {
    if d == 0 {
        '0'
    } else if d == 1 {
        '1'
    } else if d == 2 {
        '2'
    } else if d == 3 {
        '3'
    } else if d == 4 {
        '4'
    } else if d == 5 {
        '5'
    } else if d == 6 {
        '6'
    } else if d == 7 {
        '7'
    } else if d == 8 {
        '8'
    } else {
        '9'
    }
}

/// The decimal digits of `n`, most significant first, without leading zeros.
pub open spec fn decimal(n: nat) -> Seq<char>
    decreases n,
{
    if n < 10 {
        seq![digit_char(n)]
    } else {
        decimal(n / 10) + seq![digit_char(n % 10)]
    }
}

/// The first `width` characters of `text`.
pub fn trim_to_width(text: &str, width: usize) -> (r: String)
    ensures
        r@ == trimmed(text@, width as nat),
{
    let n = text.unicode_len();
    if n <= width {
        String::from_str(text)
    } else {
        let part = text.substring_char(0, width);
        proof {
            assert(part@ =~= text@.take(width as int));
        }
        String::from_str(part)
    }
}

/// `count` spaces.
pub fn space_text(count: usize) -> (r: String)
    ensures
        r@ == spaces(count as nat),
{
    let mut r = String::new();
    let mut i: usize = 0;
    proof {
        reveal_strlit(" ");
    }
    while i < count
        invariant
            i <= count,
            r@ == spaces(i as nat),
        decreases count - i,
    {
        r.append(" ");
        i = i + 1;
        proof {
            reveal_strlit(" ");
            assert(r@ =~= spaces(i as nat));
        }
    }
    r
}

/// `text` cut to `width` and centred between spaces in a field of `width` characters.
pub fn center_text(text: &str, width: usize) -> (r: String)
    ensures
        r@ == centered(text@, width as nat),
{
    let clean = trim_to_width(text, width);
    let clean_len = clean.as_str().unicode_len();
    if clean_len >= width {
        return clean;
    }
    let left = (width - clean_len) / 2;
    let right = width - clean_len - left;
    let mut r = space_text(left);
    r.append(clean.as_str());
    let pad = space_text(right);
    r.append(pad.as_str());
    r
}

/// The names of the board's colors, separated by `" | "`.
pub fn render_state(state: [NodeColor; 6]) -> (r: String)
    ensures
        r@ == board_text(state@, 6),
{
    proof {
        reveal_strlit(" | ");
    }
    let mut r = String::from_str(state[0].as_str());
    let mut i: usize = 1;
    while i < 6
        invariant
            1 <= i <= 6,
            state@.len() == 6,
            r@ == board_text(state@, i as nat),
        decreases 6 - i,
    {
        proof {
            reveal_strlit(" | ");
        }
        r.append(" | ");
        r.append(state[i].as_str());
        proof {
            assert(board_text(state@, (i + 1) as nat) == board_text(state@, i as nat) + seq![' ', '|', ' '] + state@[i as int].name());
            assert(r@ =~= board_text(state@, (i + 1) as nat));
        }
        i = i + 1;
    }
    r
}

fn digit_text(d: usize) -> (r: &'static str)
    requires
        d < 10,
    ensures
        r@ == seq![digit_char(d as nat)],
{
    proof {
        reveal_strlit("0");
        reveal_strlit("1");
        reveal_strlit("2");
        reveal_strlit("3");
        reveal_strlit("4");
        reveal_strlit("5");
        reveal_strlit("6");
        reveal_strlit("7");
        reveal_strlit("8");
        reveal_strlit("9");
    }
    if d == 0 {
        "0"
    } else if d == 1 {
        "1"
    } else if d == 2 {
        "2"
    } else if d == 3 {
        "3"
    } else if d == 4 {
        "4"
    } else if d == 5 {
        "5"
    } else if d == 6 {
        "6"
    } else if d == 7 {
        "7"
    } else if d == 8 {
        "8"
    } else {
        "9"
    }
}

/// `n` written in decimal.
pub fn decimal_text(n: usize) -> (r: String)
    ensures
        r@ == decimal(n as nat),
{
    let mut m = n;
    let mut acc = String::new();
    loop
        invariant
            decimal(n as nat) == decimal(m as nat) + acc@,
        decreases m,
    {
        let d = m % 10;
        let next = String::from_str(digit_text(d));
        let digits = next.concat(acc.as_str());
        if m < 10 {
            proof {
                assert(decimal(m as nat) == seq![digit_char(m as nat)]);
            }
            return digits;
        }
        proof {
            assert(decimal(m as nat) == decimal((m / 10) as nat) + seq![digit_char((m % 10) as nat)]);
            assert(decimal(n as nat) =~= decimal((m / 10) as nat) + digits@);
        }
        acc = digits;
        m = m / 10;
    }
}

} // verus!
