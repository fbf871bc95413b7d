use vstd::prelude::*;

use crate::color::NodeColor;

verus! {

/// Number of indicators on the board.
pub const INDICATOR_COUNT: usize = 6;

/// Number of distinct boards: six colors at each of six positions.
pub const BOARD_SPACE: usize = 46656;

/// The board every puzzle starts from: all indicators off.
pub const START_STATE: [NodeColor; 6] = [
    NodeColor::Off,
    NodeColor::Off,
    NodeColor::Off,
    NodeColor::Off,
    NodeColor::Off,
    NodeColor::Off,
];

/// The board the puzzle asks for.
pub const TARGET_STATE: [NodeColor; 6] = [
    NodeColor::White,
    NodeColor::Purple,
    NodeColor::Green,
    NodeColor::White,
    NodeColor::Purple,
    NodeColor::Green,
];

/// Shortest number of hops between positions `a` and `b` on the ring of six.
pub open spec fn ring_distance(a: int, b: int) -> int {
    let d = (a - b) % 6;
    if d <= 3 {
        d
    } else {
        6 - d
    }
}

/// How many times a press advances an indicator that lies `d` hops away.
pub open spec fn advance_count(d: int) -> nat {
    if d == 0 {
        2
    } else if d == 1 {
        1
    } else if d == 2 {
        5
    } else {
        3
    }
}

/// The board after pressing indicator `i` on board `s`.
pub open spec fn press_spec(s: Seq<NodeColor>, i: int) -> Seq<NodeColor> {
    Seq::new(6, |t: int| s[t].advanced(advance_count(ring_distance(t, i))))
}

/// The board reached from `s` by pressing the indicators of `path` in order.
pub open spec fn replay(s: Seq<NodeColor>, path: Seq<usize>) -> Seq<NodeColor>
    decreases path.len(),
{
    if path.len() == 0 {
        s
    } else {
        replay(press_spec(s, path[0] as int), path.drop_first())
    }
}

/// `path` presses valid indicators only and leads from `s` to `g`.
pub open spec fn is_path(s: Seq<NodeColor>, g: Seq<NodeColor>, path: Seq<usize>) -> bool {
    &&& forall|k: int| 0 <= k < path.len() ==> path[k] < 6
    &&& replay(s, path) == g
}

/// Some sequence of presses leads from `s` to `g`.
pub open spec fn reachable(s: Seq<NodeColor>, g: Seq<NodeColor>) -> bool {
    exists|path: Seq<usize>| is_path(s, g, path)
}

/// The number that identifies a board: its colors read as base-six digits.
pub open spec fn board_code(s: Seq<NodeColor>) -> int {
    (s[0].index() + 6 * (s[1].index() + 6 * (s[2].index() + 6 * (s[3].index() + 6 * (
    s[4].index() + 6 * s[5].index()))))) as int
}

/// Boards with the same code are the same board.
pub proof fn lemma_code_injective(a: Seq<NodeColor>, b: Seq<NodeColor>)
    requires
        a.len() == 6,
        b.len() == 6,
        board_code(a) == board_code(b),
    ensures
        a == b,
{
    assert forall|t: int| 0 <= t < 6 implies a[t].index() == b[t].index() by {
        assert(a[0].index() == b[0].index());
        assert(a[1].index() == b[1].index());
        assert(a[2].index() == b[2].index());
        assert(a[3].index() == b[3].index());
        assert(a[4].index() == b[4].index());
    }
    assert forall|t: int| 0 <= t < 6 implies a[t] == b[t] by {
        crate::color::lemma_index_round_trip(a[t]);
        crate::color::lemma_index_round_trip(b[t]);
    }
    assert(a =~= b);
}

/// Every board's code lies below the number of boards.
pub proof fn lemma_code_bound(s: Seq<NodeColor>)
    requires
        s.len() == 6,
    ensures
        0 <= board_code(s) < BOARD_SPACE,
{
    assert forall|t: int| 0 <= t < 6 implies s[t].index() < 6 by {
        crate::color::lemma_index_round_trip(s[t]);
    }
}

/// Replaying a path and then one more press is the same as replaying the longer path.
pub proof fn lemma_replay_push(s: Seq<NodeColor>, path: Seq<usize>, i: usize)
    ensures
        replay(s, path.push(i)) == press_spec(replay(s, path), i as int),
    decreases path.len(),
{
    if path.len() == 0 {
        assert(path.push(i).drop_first() =~= Seq::<usize>::empty());
        assert(replay(press_spec(s, i as int), Seq::<usize>::empty()) == press_spec(s, i as int));
        assert(path.push(i)[0] == i);
    } else {
        assert(path.push(i)[0] == path[0]);
        assert(path.push(i).drop_first() =~= path.drop_first().push(i));
        lemma_replay_push(press_spec(s, path[0] as int), path.drop_first(), i);
    }
}

/// Pressing one indicator keeps a board at six positions.
pub proof fn lemma_press_len(s: Seq<NodeColor>, i: int)
    ensures
        press_spec(s, i).len() == 6,
{
}

/// The code of a board, computed.
pub fn encode(b: &[NodeColor; 6]) -> (r: usize)
    ensures
        r == board_code(b@),
        r < BOARD_SPACE,
{
    proof {
        lemma_code_bound(b@);
    }
    let d0 = color_digit(b[0]);
    let d1 = color_digit(b[1]);
    let d2 = color_digit(b[2]);
    let d3 = color_digit(b[3]);
    let d4 = color_digit(b[4]);
    let d5 = color_digit(b[5]);
    d0 + 6 * (d1 + 6 * (d2 + 6 * (d3 + 6 * (d4 + 6 * d5))))
}

fn color_digit(c: NodeColor) -> (r: usize)
    ensures
        r == c.index(),
{
    match c {
        NodeColor::Off => 0,
        NodeColor::Green => 1,
        NodeColor::Blue => 2,
        NodeColor::Red => 3,
        NodeColor::Purple => 4,
        NodeColor::White => 5,
    }
}

/// Whether two boards show the same colors at every position.
pub fn same_board(a: &[NodeColor; 6], b: &[NodeColor; 6]) -> (r: bool)
    ensures
        r == (a@ == b@),
{
    let mut t: usize = 0;
    while t < 6
        invariant
            t <= 6,
            forall|k: int| 0 <= k < t ==> a@[k] == b@[k],
        decreases 6 - t,
    {
        if a[t] != b[t] {
            return false;
        }
        t = t + 1;
    }
    assert(a@ =~= b@);
    true
}

/// Presses indicator `index`: every indicator advances by the count that its ring
/// distance from `index` gives (2 for itself, 1 for its neighbours, 5 at distance
/// two, 3 for the opposite one).
pub fn press_indicator(state: [NodeColor; 6], index: usize) -> (r: [NodeColor; 6])
    requires
        index < 6,
    ensures
        r@ == press_spec(state@, index as int),
{
    let mut state = state;
    let ghost orig = state@;
    let mut target: usize = 0;
    while target < INDICATOR_COUNT
        invariant
            target <= 6,
            index < 6,
            state@.len() == 6,
            forall|k: int| 0 <= k < target ==> state@[k] == press_spec(orig, index as int)[k],
            forall|k: int| target <= k < 6 ==> state@[k] == orig[k],
        decreases 6 - target,
    {
        let clockwise = (target + INDICATOR_COUNT - index) % INDICATOR_COUNT;
        let counterclockwise = (index + INDICATOR_COUNT - target) % INDICATOR_COUNT;
        let distance = if clockwise < counterclockwise {
            clockwise
        } else {
            counterclockwise
        };
        assert(distance == ring_distance(target as int, index as int));
        let delta: usize = if distance == 0 {
            2
        } else if distance == 1 {
            1
        } else if distance == 2 {
            5
        } else {
            3
        };
        let mut step: usize = 0;
        while step < delta
            invariant
                target < 6,
                step <= delta,
                state@.len() == 6,
                state@[target as int] == orig[target as int].advanced(step as nat),
                forall|k: int| 0 <= k < target ==> state@[k] == press_spec(orig, index as int)[k],
                forall|k: int| target < k < 6 ==> state@[k] == orig[k],
            decreases delta - step,
        {
            let c = state[target].next();
            proof {
                crate::color::lemma_index_round_trip(orig[target as int]);
            }
            state[target] = c;
            step = step + 1;
        }
        target = target + 1;
    }
    assert(state@ =~= press_spec(orig, index as int));
    state
}

} // verus!
