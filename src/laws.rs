use vstd::prelude::*;

use crate::board::{
    advance_count, is_path, press_spec, reachable, replay, ring_distance, START_STATE,
    TARGET_STATE,
};
use crate::color::NodeColor;
use crate::board::lemma_replay_push;
use crate::session::{hint_fits, optimal_count, Hint};
use crate::solver::{is_least_shortest_path, is_shortest_path, lex_le};

verus! {

/// A press advances each indicator by the count for its ring distance from the pressed
/// one: twice for the pressed indicator, once for its two neighbours, five times (one
/// step back) for the two indicators two hops away, three times for the opposite one.
/// The new board depends on the old board and the index alone.
pub proof fn lemma_press_table(s: Seq<NodeColor>, i: int)
    requires
        s.len() == 6,
        0 <= i < 6,
    ensures
        press_spec(s, i).len() == 6,
        forall|t: int|
            0 <= t < 6 ==> #[trigger] press_spec(s, i)[t] == s[t].advanced(
                advance_count(ring_distance(t, i)),
            ),
        ring_distance(i, i) == 0,
        ring_distance((i + 1) % 6, i) == 1,
        ring_distance((i + 5) % 6, i) == 1,
        ring_distance((i + 2) % 6, i) == 2,
        ring_distance((i + 4) % 6, i) == 2,
        ring_distance((i + 3) % 6, i) == 3,
        advance_count(0) == 2,
        advance_count(1) == 1,
        advance_count(2) == 5,
        advance_count(3) == 3,
{
    if i == 0 {
    } else if i == 1 {
    } else if i == 2 {
    } else if i == 3 {
    } else if i == 4 {
    } else {
    }
}

/// Replaying presses whose every step is given walks through the given boards.
proof fn lemma_walk(boards: Seq<Seq<NodeColor>>, path: Seq<usize>)
    requires
        boards.len() == path.len() + 1,
        forall|k: int| 0 <= k < path.len() ==> press_spec(boards[k], path[k] as int) == boards[k + 1],
    ensures
        replay(boards[0], path) == boards[path.len() as int],
    decreases path.len(),
{
    if path.len() > 0 {
        let rest = boards.drop_first();
        assert forall|k: int| 0 <= k < path.drop_first().len() implies press_spec(
            rest[k],
            path.drop_first()[k] as int,
        ) == rest[k + 1] by {
            assert(press_spec(boards[k + 1], path[k + 1] as int) == boards[k + 2]);
        }
        lemma_walk(rest, path.drop_first());
        assert(press_spec(boards[0], path[0] as int) == boards[1]);
    }
}

proof fn lemma_step_0()
    ensures
        press_spec(seq![NodeColor::Off, NodeColor::Off, NodeColor::Off, NodeColor::Off, NodeColor::Off, NodeColor::Off], 0) == seq![NodeColor::Blue, NodeColor::Green, NodeColor::White, NodeColor::Red, NodeColor::White, NodeColor::Green],
{
    assert(press_spec(seq![NodeColor::Off, NodeColor::Off, NodeColor::Off, NodeColor::Off, NodeColor::Off, NodeColor::Off], 0) =~= seq![NodeColor::Blue, NodeColor::Green, NodeColor::White, NodeColor::Red, NodeColor::White, NodeColor::Green]);
}

proof fn lemma_step_1()
    ensures
        press_spec(seq![NodeColor::Blue, NodeColor::Green, NodeColor::White, NodeColor::Red, NodeColor::White, NodeColor::Green], 1) == seq![NodeColor::Red, NodeColor::Red, NodeColor::Off, NodeColor::Blue, NodeColor::Blue, NodeColor::Off],
{
    assert(press_spec(seq![NodeColor::Blue, NodeColor::Green, NodeColor::White, NodeColor::Red, NodeColor::White, NodeColor::Green], 1) =~= seq![NodeColor::Red, NodeColor::Red, NodeColor::Off, NodeColor::Blue, NodeColor::Blue, NodeColor::Off]);
}

proof fn lemma_step_2()
    ensures
        press_spec(seq![NodeColor::Red, NodeColor::Red, NodeColor::Off, NodeColor::Blue, NodeColor::Blue, NodeColor::Off], 1) == seq![NodeColor::Purple, NodeColor::White, NodeColor::Green, NodeColor::Green, NodeColor::White, NodeColor::White],
{
    assert(press_spec(seq![NodeColor::Red, NodeColor::Red, NodeColor::Off, NodeColor::Blue, NodeColor::Blue, NodeColor::Off], 1) =~= seq![NodeColor::Purple, NodeColor::White, NodeColor::Green, NodeColor::Green, NodeColor::White, NodeColor::White]);
}

proof fn lemma_step_3()
    ensures
        press_spec(seq![NodeColor::Purple, NodeColor::White, NodeColor::Green, NodeColor::Green, NodeColor::White, NodeColor::White], 2) == seq![NodeColor::Red, NodeColor::Off, NodeColor::Red, NodeColor::Blue, NodeColor::Purple, NodeColor::Blue],
{
    assert(press_spec(seq![NodeColor::Purple, NodeColor::White, NodeColor::Green, NodeColor::Green, NodeColor::White, NodeColor::White], 2) =~= seq![NodeColor::Red, NodeColor::Off, NodeColor::Red, NodeColor::Blue, NodeColor::Purple, NodeColor::Blue]);
}

proof fn lemma_step_4()
    ensures
        press_spec(seq![NodeColor::Red, NodeColor::Off, NodeColor::Red, NodeColor::Blue, NodeColor::Purple, NodeColor::Blue], 2) == seq![NodeColor::Blue, NodeColor::Green, NodeColor::White, NodeColor::Red, NodeColor::Red, NodeColor::White],
{
    assert(press_spec(seq![NodeColor::Red, NodeColor::Off, NodeColor::Red, NodeColor::Blue, NodeColor::Purple, NodeColor::Blue], 2) =~= seq![NodeColor::Blue, NodeColor::Green, NodeColor::White, NodeColor::Red, NodeColor::Red, NodeColor::White]);
}

proof fn lemma_step_5()
    ensures
        press_spec(seq![NodeColor::Blue, NodeColor::Green, NodeColor::White, NodeColor::Red, NodeColor::Red, NodeColor::White], 2) == seq![NodeColor::Green, NodeColor::Blue, NodeColor::Green, NodeColor::Purple, NodeColor::Blue, NodeColor::Blue],
{
    assert(press_spec(seq![NodeColor::Blue, NodeColor::Green, NodeColor::White, NodeColor::Red, NodeColor::Red, NodeColor::White], 2) =~= seq![NodeColor::Green, NodeColor::Blue, NodeColor::Green, NodeColor::Purple, NodeColor::Blue, NodeColor::Blue]);
}

proof fn lemma_step_6()
    ensures
        press_spec(seq![NodeColor::Green, NodeColor::Blue, NodeColor::Green, NodeColor::Purple, NodeColor::Blue, NodeColor::Blue], 2) == seq![NodeColor::Off, NodeColor::Red, NodeColor::Red, NodeColor::White, NodeColor::Green, NodeColor::White],
{
    assert(press_spec(seq![NodeColor::Green, NodeColor::Blue, NodeColor::Green, NodeColor::Purple, NodeColor::Blue, NodeColor::Blue], 2) =~= seq![NodeColor::Off, NodeColor::Red, NodeColor::Red, NodeColor::White, NodeColor::Green, NodeColor::White]);
}

proof fn lemma_step_7()
    ensures
        press_spec(seq![NodeColor::Off, NodeColor::Red, NodeColor::Red, NodeColor::White, NodeColor::Green, NodeColor::White], 2) == seq![NodeColor::White, NodeColor::Purple, NodeColor::White, NodeColor::Off, NodeColor::Off, NodeColor::Blue],
{
    assert(press_spec(seq![NodeColor::Off, NodeColor::Red, NodeColor::Red, NodeColor::White, NodeColor::Green, NodeColor::White], 2) =~= seq![NodeColor::White, NodeColor::Purple, NodeColor::White, NodeColor::Off, NodeColor::Off, NodeColor::Blue]);
}

proof fn lemma_step_8()
    ensures
        press_spec(seq![NodeColor::White, NodeColor::Purple, NodeColor::White, NodeColor::Off, NodeColor::Off, NodeColor::Blue], 3) == seq![NodeColor::Blue, NodeColor::Red, NodeColor::Off, NodeColor::Blue, NodeColor::Green, NodeColor::Green],
{
    assert(press_spec(seq![NodeColor::White, NodeColor::Purple, NodeColor::White, NodeColor::Off, NodeColor::Off, NodeColor::Blue], 3) =~= seq![NodeColor::Blue, NodeColor::Red, NodeColor::Off, NodeColor::Blue, NodeColor::Green, NodeColor::Green]);
}

proof fn lemma_step_9()
    ensures
        press_spec(seq![NodeColor::Blue, NodeColor::Red, NodeColor::Off, NodeColor::Blue, NodeColor::Green, NodeColor::Green], 4) == seq![NodeColor::Green, NodeColor::Off, NodeColor::White, NodeColor::Red, NodeColor::Red, NodeColor::Blue],
{
    assert(press_spec(seq![NodeColor::Blue, NodeColor::Red, NodeColor::Off, NodeColor::Blue, NodeColor::Green, NodeColor::Green], 4) =~= seq![NodeColor::Green, NodeColor::Off, NodeColor::White, NodeColor::Red, NodeColor::Red, NodeColor::Blue]);
}

proof fn lemma_step_10()
    ensures
        press_spec(seq![NodeColor::Green, NodeColor::Off, NodeColor::White, NodeColor::Red, NodeColor::Red, NodeColor::Blue], 4) == seq![NodeColor::Off, NodeColor::Red, NodeColor::Purple, NodeColor::Purple, NodeColor::White, NodeColor::Red],
{
    assert(press_spec(seq![NodeColor::Green, NodeColor::Off, NodeColor::White, NodeColor::Red, NodeColor::Red, NodeColor::Blue], 4) =~= seq![NodeColor::Off, NodeColor::Red, NodeColor::Purple, NodeColor::Purple, NodeColor::White, NodeColor::Red]);
}

proof fn lemma_step_11()
    ensures
        press_spec(seq![NodeColor::Off, NodeColor::Red, NodeColor::Purple, NodeColor::Purple, NodeColor::White, NodeColor::Red], 5) == seq![NodeColor::Green, NodeColor::Blue, NodeColor::Green, NodeColor::Red, NodeColor::Off, NodeColor::White],
{
    assert(press_spec(seq![NodeColor::Off, NodeColor::Red, NodeColor::Purple, NodeColor::Purple, NodeColor::White, NodeColor::Red], 5) =~= seq![NodeColor::Green, NodeColor::Blue, NodeColor::Green, NodeColor::Red, NodeColor::Off, NodeColor::White]);
}

proof fn lemma_step_12()
    ensures
        press_spec(seq![NodeColor::Green, NodeColor::Blue, NodeColor::Green, NodeColor::Red, NodeColor::Off, NodeColor::White], 5) == seq![NodeColor::Blue, NodeColor::Green, NodeColor::Purple, NodeColor::Blue, NodeColor::Green, NodeColor::Green],
{
    assert(press_spec(seq![NodeColor::Green, NodeColor::Blue, NodeColor::Green, NodeColor::Red, NodeColor::Off, NodeColor::White], 5) =~= seq![NodeColor::Blue, NodeColor::Green, NodeColor::Purple, NodeColor::Blue, NodeColor::Green, NodeColor::Green]);
}

proof fn lemma_step_13()
    ensures
        press_spec(seq![NodeColor::Blue, NodeColor::Green, NodeColor::Purple, NodeColor::Blue, NodeColor::Green, NodeColor::Green], 5) == seq![NodeColor::Red, NodeColor::Off, NodeColor::Green, NodeColor::Green, NodeColor::Blue, NodeColor::Red],
{
    assert(press_spec(seq![NodeColor::Blue, NodeColor::Green, NodeColor::Purple, NodeColor::Blue, NodeColor::Green, NodeColor::Green], 5) =~= seq![NodeColor::Red, NodeColor::Off, NodeColor::Green, NodeColor::Green, NodeColor::Blue, NodeColor::Red]);
}

proof fn lemma_step_14()
    ensures
        press_spec(seq![NodeColor::Red, NodeColor::Off, NodeColor::Green, NodeColor::Green, NodeColor::Blue, NodeColor::Red], 5) == seq![NodeColor::Purple, NodeColor::White, NodeColor::Purple, NodeColor::Off, NodeColor::Red, NodeColor::White],
{
    assert(press_spec(seq![NodeColor::Red, NodeColor::Off, NodeColor::Green, NodeColor::Green, NodeColor::Blue, NodeColor::Red], 5) =~= seq![NodeColor::Purple, NodeColor::White, NodeColor::Purple, NodeColor::Off, NodeColor::Red, NodeColor::White]);
}

proof fn lemma_step_15()
    ensures
        press_spec(seq![NodeColor::Purple, NodeColor::White, NodeColor::Purple, NodeColor::Off, NodeColor::Red, NodeColor::White], 5) == seq![NodeColor::White, NodeColor::Purple, NodeColor::Green, NodeColor::White, NodeColor::Purple, NodeColor::Green],
{
    assert(press_spec(seq![NodeColor::Purple, NodeColor::White, NodeColor::Purple, NodeColor::Off, NodeColor::Red, NodeColor::White], 5) =~= seq![NodeColor::White, NodeColor::Purple, NodeColor::Green, NodeColor::White, NodeColor::Purple, NodeColor::Green]);
}

/// The sixteen presses 0, 1, 1, 2, 2, 2, 2, 2, 3, 4, 4, 5, 5, 5, 5, 5 lead from the
/// start board to the target board.
pub proof fn lemma_known_solution()
    ensures
        is_path(
            START_STATE@,
            TARGET_STATE@,
            seq![0usize, 1, 1, 2, 2, 2, 2, 2, 3, 4, 4, 5, 5, 5, 5, 5],
        ),
{
    let path = seq![0usize, 1, 1, 2, 2, 2, 2, 2, 3, 4, 4, 5, 5, 5, 5, 5];
    let boards = seq![
        seq![NodeColor::Off, NodeColor::Off, NodeColor::Off, NodeColor::Off, NodeColor::Off, NodeColor::Off],
        seq![NodeColor::Blue, NodeColor::Green, NodeColor::White, NodeColor::Red, NodeColor::White, NodeColor::Green],
        seq![NodeColor::Red, NodeColor::Red, NodeColor::Off, NodeColor::Blue, NodeColor::Blue, NodeColor::Off],
        seq![NodeColor::Purple, NodeColor::White, NodeColor::Green, NodeColor::Green, NodeColor::White, NodeColor::White],
        seq![NodeColor::Red, NodeColor::Off, NodeColor::Red, NodeColor::Blue, NodeColor::Purple, NodeColor::Blue],
        seq![NodeColor::Blue, NodeColor::Green, NodeColor::White, NodeColor::Red, NodeColor::Red, NodeColor::White],
        seq![NodeColor::Green, NodeColor::Blue, NodeColor::Green, NodeColor::Purple, NodeColor::Blue, NodeColor::Blue],
        seq![NodeColor::Off, NodeColor::Red, NodeColor::Red, NodeColor::White, NodeColor::Green, NodeColor::White],
        seq![NodeColor::White, NodeColor::Purple, NodeColor::White, NodeColor::Off, NodeColor::Off, NodeColor::Blue],
        seq![NodeColor::Blue, NodeColor::Red, NodeColor::Off, NodeColor::Blue, NodeColor::Green, NodeColor::Green],
        seq![NodeColor::Green, NodeColor::Off, NodeColor::White, NodeColor::Red, NodeColor::Red, NodeColor::Blue],
        seq![NodeColor::Off, NodeColor::Red, NodeColor::Purple, NodeColor::Purple, NodeColor::White, NodeColor::Red],
        seq![NodeColor::Green, NodeColor::Blue, NodeColor::Green, NodeColor::Red, NodeColor::Off, NodeColor::White],
        seq![NodeColor::Blue, NodeColor::Green, NodeColor::Purple, NodeColor::Blue, NodeColor::Green, NodeColor::Green],
        seq![NodeColor::Red, NodeColor::Off, NodeColor::Green, NodeColor::Green, NodeColor::Blue, NodeColor::Red],
        seq![NodeColor::Purple, NodeColor::White, NodeColor::Purple, NodeColor::Off, NodeColor::Red, NodeColor::White],
        seq![NodeColor::White, NodeColor::Purple, NodeColor::Green, NodeColor::White, NodeColor::Purple, NodeColor::Green]
    ];
    assert forall|k: int| 0 <= k < path.len() implies press_spec(boards[k], path[k] as int)
        == boards[k + 1] by {
        if k == 0 {
            lemma_step_0();
        }
        if k == 1 {
            lemma_step_1();
        }
        if k == 2 {
            lemma_step_2();
        }
        if k == 3 {
            lemma_step_3();
        }
        if k == 4 {
            lemma_step_4();
        }
        if k == 5 {
            lemma_step_5();
        }
        if k == 6 {
            lemma_step_6();
        }
        if k == 7 {
            lemma_step_7();
        }
        if k == 8 {
            lemma_step_8();
        }
        if k == 9 {
            lemma_step_9();
        }
        if k == 10 {
            lemma_step_10();
        }
        if k == 11 {
            lemma_step_11();
        }
        if k == 12 {
            lemma_step_12();
        }
        if k == 13 {
            lemma_step_13();
        }
        if k == 14 {
            lemma_step_14();
        }
        if k == 15 {
            lemma_step_15();
        }
    }
    lemma_walk(boards, path);
    assert(START_STATE@ =~= boards[0]);
    assert(TARGET_STATE@ =~= boards[16]);
}

/// The target board can be reached from the start board.
pub proof fn lemma_target_reachable()
    ensures
        reachable(START_STATE@, TARGET_STATE@),
{
    lemma_known_solution();
    let path = seq![0usize, 1, 1, 2, 2, 2, 2, 2, 3, 4, 4, 5, 5, 5, 5, 5];
    assert(is_path(START_STATE@, TARGET_STATE@, path));
}

/// How many times press `i` occurs in `q`.
pub open spec fn count(q: Seq<usize>, i: int) -> nat
    decreases q.len(),
{
    if q.len() == 0 {
        0
    } else {
        count(q.drop_last(), i) + (if q.last() == i {
            1nat
        } else {
            0nat
        })
    }
}

/// The total number of advances that the presses of `q` give position `t`.
pub open spec fn total(q: Seq<usize>, t: int) -> nat
    decreases q.len(),
{
    if q.len() == 0 {
        0
    } else {
        total(q.drop_last(), t) + advance_count(ring_distance(t, q.last() as int))
    }
}

proof fn lemma_from_index_index(n: nat)
    ensures
        NodeColor::from_index(n).index() == n % 6,
{
}

/// From the start board, each position shows the total of its advances, modulo six.
proof fn lemma_replay_totals(q: Seq<usize>)
    ensures
        replay(START_STATE@, q).len() == 6,
        forall|t: int| 0 <= t < 6 ==> #[trigger] replay(START_STATE@, q)[t].index() == total(q, t) % 6,
    decreases q.len(),
{
    if q.len() == 0 {
        assert(START_STATE@[0] == NodeColor::Off && START_STATE@[1] == NodeColor::Off
            && START_STATE@[2] == NodeColor::Off && START_STATE@[3] == NodeColor::Off
            && START_STATE@[4] == NodeColor::Off && START_STATE@[5] == NodeColor::Off);
    } else {
        let p = q.drop_last();
        let j = q.last();
        assert(p.push(j) =~= q);
        lemma_replay_totals(p);
        lemma_replay_push(START_STATE@, p, j);
        assert forall|t: int| 0 <= t < 6 implies #[trigger] replay(START_STATE@, q)[t].index() == total(q, t) % 6 by {
            let b = replay(START_STATE@, p);
            let a = advance_count(ring_distance(t, j as int));
            lemma_from_index_index(b[t].index() + a);
            assert(b[t].index() == total(p, t) % 6);
            assert(total(q, t) == total(p, t) + a);
            vstd::arithmetic::div_mod::lemma_add_mod_noop(total(p, t) as int, a as int, 6);
        }
    }
}

/// The press counts of `q`, weighted by how far each press advances position `t`.
pub open spec fn weighted(q: Seq<usize>, t: int) -> nat {
    count(q, 0) * advance_count(ring_distance(t, 0)) + count(q, 1) * advance_count(ring_distance(t, 1))
        + count(q, 2) * advance_count(ring_distance(t, 2)) + count(q, 3) * advance_count(
        ring_distance(t, 3),
    ) + count(q, 4) * advance_count(ring_distance(t, 4)) + count(q, 5) * advance_count(
        ring_distance(t, 5),
    )
}

/// The total of a position is the press counts weighted by the press rule.
proof fn lemma_total_weighted(q: Seq<usize>, t: int)
    requires
        forall|k: int| 0 <= k < q.len() ==> q[k] < 6,
    ensures
        total(q, t) == weighted(q, t),
    decreases q.len(),
{
    if q.len() > 0 {
        let p = q.drop_last();
        assert forall|k: int| 0 <= k < p.len() implies p[k] < 6 by {
            assert(p[k] == q[k]);
        }
        lemma_total_weighted(p, t);
        let j = q.last();
        assert(j < 6);
        let c0 = count(p, 0) as int;
        let w0 = advance_count(ring_distance(t, 0)) as int;
        assert(count(q, 0) == c0 + (if j == 0 { 1int } else { 0int }));
        assert((c0 + 1) * w0 == c0 * w0 + w0) by (nonlinear_arith);
        let c1 = count(p, 1) as int;
        let w1 = advance_count(ring_distance(t, 1)) as int;
        assert(count(q, 1) == c1 + (if j == 1 { 1int } else { 0int }));
        assert((c1 + 1) * w1 == c1 * w1 + w1) by (nonlinear_arith);
        let c2 = count(p, 2) as int;
        let w2 = advance_count(ring_distance(t, 2)) as int;
        assert(count(q, 2) == c2 + (if j == 2 { 1int } else { 0int }));
        assert((c2 + 1) * w2 == c2 * w2 + w2) by (nonlinear_arith);
        let c3 = count(p, 3) as int;
        let w3 = advance_count(ring_distance(t, 3)) as int;
        assert(count(q, 3) == c3 + (if j == 3 { 1int } else { 0int }));
        assert((c3 + 1) * w3 == c3 * w3 + w3) by (nonlinear_arith);
        let c4 = count(p, 4) as int;
        let w4 = advance_count(ring_distance(t, 4)) as int;
        assert(count(q, 4) == c4 + (if j == 4 { 1int } else { 0int }));
        assert((c4 + 1) * w4 == c4 * w4 + w4) by (nonlinear_arith);
        let c5 = count(p, 5) as int;
        let w5 = advance_count(ring_distance(t, 5)) as int;
        assert(count(q, 5) == c5 + (if j == 5 { 1int } else { 0int }));
        assert((c5 + 1) * w5 == c5 * w5 + w5) by (nonlinear_arith);
    }
}

/// The length of a sequence of presses is the sum of its press counts.
proof fn lemma_len_counts(q: Seq<usize>)
    requires
        forall|k: int| 0 <= k < q.len() ==> q[k] < 6,
    ensures
        q.len() == count(q, 0) + count(q, 1) + count(q, 2) + count(q, 3) + count(q, 4) + count(q, 5),
    decreases q.len(),
{
    if q.len() > 0 {
        let p = q.drop_last();
        assert forall|k: int| 0 <= k < p.len() implies p[k] < 6 by {
            assert(p[k] == q[k]);
        }
        lemma_len_counts(p);
        assert(q.last() < 6);
    }
}

/// The totals of each position are the press counts weighted by the press rule.
proof fn lemma_totals_by_counts(q: Seq<usize>)
    requires
        forall|k: int| 0 <= k < q.len() ==> q[k] < 6,
    ensures
        total(q, 0) == 2 * count(q, 0) + 1 * count(q, 1) + 5 * count(q, 2) + 3 * count(q, 3) + 5 * count(q, 4) + 1 * count(q, 5),
        total(q, 1) == 1 * count(q, 0) + 2 * count(q, 1) + 1 * count(q, 2) + 5 * count(q, 3) + 3 * count(q, 4) + 5 * count(q, 5),
        total(q, 2) == 5 * count(q, 0) + 1 * count(q, 1) + 2 * count(q, 2) + 1 * count(q, 3) + 5 * count(q, 4) + 3 * count(q, 5),
        total(q, 3) == 3 * count(q, 0) + 5 * count(q, 1) + 1 * count(q, 2) + 2 * count(q, 3) + 1 * count(q, 4) + 5 * count(q, 5),
        total(q, 4) == 5 * count(q, 0) + 3 * count(q, 1) + 5 * count(q, 2) + 1 * count(q, 3) + 2 * count(q, 4) + 1 * count(q, 5),
        total(q, 5) == 1 * count(q, 0) + 5 * count(q, 1) + 3 * count(q, 2) + 5 * count(q, 3) + 1 * count(q, 4) + 2 * count(q, 5),
        q.len() == count(q, 0) + count(q, 1) + count(q, 2) + count(q, 3) + count(q, 4) + count(q, 5),
{
    lemma_len_counts(q);
    lemma_total_weighted(q, 0);
    assert(advance_count(ring_distance(0, 0)) == 2);
    assert(advance_count(ring_distance(0, 1)) == 1);
    assert(advance_count(ring_distance(0, 2)) == 5);
    assert(advance_count(ring_distance(0, 3)) == 3);
    assert(advance_count(ring_distance(0, 4)) == 5);
    assert(advance_count(ring_distance(0, 5)) == 1);
    lemma_weighted_row(q, 0, 2, 1, 5, 3, 5, 1);
    lemma_total_weighted(q, 1);
    assert(advance_count(ring_distance(1, 0)) == 1);
    assert(advance_count(ring_distance(1, 1)) == 2);
    assert(advance_count(ring_distance(1, 2)) == 1);
    assert(advance_count(ring_distance(1, 3)) == 5);
    assert(advance_count(ring_distance(1, 4)) == 3);
    assert(advance_count(ring_distance(1, 5)) == 5);
    lemma_weighted_row(q, 1, 1, 2, 1, 5, 3, 5);
    lemma_total_weighted(q, 2);
    assert(advance_count(ring_distance(2, 0)) == 5);
    assert(advance_count(ring_distance(2, 1)) == 1);
    assert(advance_count(ring_distance(2, 2)) == 2);
    assert(advance_count(ring_distance(2, 3)) == 1);
    assert(advance_count(ring_distance(2, 4)) == 5);
    assert(advance_count(ring_distance(2, 5)) == 3);
    lemma_weighted_row(q, 2, 5, 1, 2, 1, 5, 3);
    lemma_total_weighted(q, 3);
    assert(advance_count(ring_distance(3, 0)) == 3);
    assert(advance_count(ring_distance(3, 1)) == 5);
    assert(advance_count(ring_distance(3, 2)) == 1);
    assert(advance_count(ring_distance(3, 3)) == 2);
    assert(advance_count(ring_distance(3, 4)) == 1);
    assert(advance_count(ring_distance(3, 5)) == 5);
    lemma_weighted_row(q, 3, 3, 5, 1, 2, 1, 5);
    lemma_total_weighted(q, 4);
    assert(advance_count(ring_distance(4, 0)) == 5);
    assert(advance_count(ring_distance(4, 1)) == 3);
    assert(advance_count(ring_distance(4, 2)) == 5);
    assert(advance_count(ring_distance(4, 3)) == 1);
    assert(advance_count(ring_distance(4, 4)) == 2);
    assert(advance_count(ring_distance(4, 5)) == 1);
    lemma_weighted_row(q, 4, 5, 3, 5, 1, 2, 1);
    lemma_total_weighted(q, 5);
    assert(advance_count(ring_distance(5, 0)) == 1);
    assert(advance_count(ring_distance(5, 1)) == 5);
    assert(advance_count(ring_distance(5, 2)) == 3);
    assert(advance_count(ring_distance(5, 3)) == 5);
    assert(advance_count(ring_distance(5, 4)) == 1);
    assert(advance_count(ring_distance(5, 5)) == 2);
    lemma_weighted_row(q, 5, 1, 5, 3, 5, 1, 2);
}

/// One position's weighted total, with the weights given as numbers.
proof fn lemma_weighted_row(q: Seq<usize>, t: int, k0: int, k1: int, k2: int, k3: int, k4: int, k5: int)
    requires
        advance_count(ring_distance(t, 0)) == k0,
        advance_count(ring_distance(t, 1)) == k1,
        advance_count(ring_distance(t, 2)) == k2,
        advance_count(ring_distance(t, 3)) == k3,
        advance_count(ring_distance(t, 4)) == k4,
        advance_count(ring_distance(t, 5)) == k5,
    ensures
        weighted(q, t) == k0 * count(q, 0) + k1 * count(q, 1) + k2 * count(q, 2) + k3 * count(q, 3)
            + k4 * count(q, 4) + k5 * count(q, 5),
{
    let c0 = count(q, 0) as int;
    let a0 = advance_count(ring_distance(t, 0)) as int;
    let c1 = count(q, 1) as int;
    let a1 = advance_count(ring_distance(t, 1)) as int;
    let c2 = count(q, 2) as int;
    let a2 = advance_count(ring_distance(t, 2)) as int;
    let c3 = count(q, 3) as int;
    let a3 = advance_count(ring_distance(t, 3)) as int;
    let c4 = count(q, 4) as int;
    let a4 = advance_count(ring_distance(t, 4)) as int;
    let c5 = count(q, 5) as int;
    let a5 = advance_count(ring_distance(t, 5)) as int;
    assert(weighted(q, t) == c0 * a0 + c1 * a1 + c2 * a2 + c3 * a3 + c4 * a4 + c5 * a5);
    assert(c0 * a0 + c1 * a1 + c2 * a2 + c3 * a3 + c4 * a4 + c5 * a5 == k0 * c0 + k1 * c1 + k2 * c2 + k3 * c3 + k4 * c4 + k5 * c5) by (nonlinear_arith)
        requires
            a0 == k0,
            a1 == k1,
            a2 == k2,
            a3 == k3,
            a4 == k4,
            a5 == k5,
    ;
}

/// Press counts whose weighted totals match the target modulo six are, modulo six,
/// 1, 2, 5, 1, 2, 5: the weights have an inverse modulo six.
proof fn lemma_counts_mod_six(x0: int, x1: int, x2: int, x3: int, x4: int, x5: int, e0: int, e1: int, e2: int, e3: int, e4: int, e5: int)
    requires
        x0 >= 0,
        x1 >= 0,
        x2 >= 0,
        x3 >= 0,
        x4 >= 0,
        x5 >= 0,
        e0 == 2 * x0 + 1 * x1 + 5 * x2 + 3 * x3 + 5 * x4 + 1 * x5,
        e1 == 1 * x0 + 2 * x1 + 1 * x2 + 5 * x3 + 3 * x4 + 5 * x5,
        e2 == 5 * x0 + 1 * x1 + 2 * x2 + 1 * x3 + 5 * x4 + 3 * x5,
        e3 == 3 * x0 + 5 * x1 + 1 * x2 + 2 * x3 + 1 * x4 + 5 * x5,
        e4 == 5 * x0 + 3 * x1 + 5 * x2 + 1 * x3 + 2 * x4 + 1 * x5,
        e5 == 1 * x0 + 5 * x1 + 3 * x2 + 5 * x3 + 1 * x4 + 2 * x5,
        e0 % 6 == 5,
        e1 % 6 == 4,
        e2 % 6 == 1,
        e3 % 6 == 5,
        e4 % 6 == 4,
        e5 % 6 == 1,
    ensures
        x0 % 6 == 1,
        x1 % 6 == 2,
        x2 % 6 == 5,
        x3 % 6 == 1,
        x4 % 6 == 2,
        x5 % 6 == 5,
        x0 + x1 + x2 + x3 + x4 + x5 >= 16,
        x0 >= 1 && x1 >= 2 && x2 >= 5 && x3 >= 1 && x4 >= 2 && x5 >= 5,
{
    let m0 = e0 / 6;
    assert(e0 == 6 * m0 + 5);
    let m1 = e1 / 6;
    assert(e1 == 6 * m1 + 4);
    let m2 = e2 / 6;
    assert(e2 == 6 * m2 + 1);
    let m3 = e3 / 6;
    assert(e3 == 6 * m3 + 5);
    let m4 = e4 / 6;
    assert(e4 == 6 * m4 + 4);
    let m5 = e5 / 6;
    assert(e5 == 6 * m5 + 1);
    assert(4 * e0 + 5 * e1 + 1 * e2 + 1 * e3 + 1 * e4 + 5 * e5 == x0 + 6 * (5 * x0 + 8 * x1 + 8 * x2 + 11 * x3 + 8 * x4 + 8 * x5));
    assert(x0 == 6 * (4 * m0 + 5 * m1 + 1 * m2 + 1 * m3 + 1 * m4 + 5 * m5 - (5 * x0 + 8 * x1 + 8 * x2 + 11 * x3 + 8 * x4 + 8 * x5)) + 55);
    assert(x0 % 6 == 1) by {
        vstd::arithmetic::div_mod::lemma_mod_multiples_vanish(4 * m0 + 5 * m1 + 1 * m2 + 1 * m3 + 1 * m4 + 5 * m5 - (5 * x0 + 8 * x1 + 8 * x2 + 11 * x3 + 8 * x4 + 8 * x5), 55, 6);
    }
    assert(5 * e0 + 4 * e1 + 5 * e2 + 1 * e3 + 1 * e4 + 1 * e5 == x1 + 6 * (8 * x0 + 5 * x1 + 8 * x2 + 8 * x3 + 11 * x4 + 8 * x5));
    assert(x1 == 6 * (5 * m0 + 4 * m1 + 5 * m2 + 1 * m3 + 1 * m4 + 1 * m5 - (8 * x0 + 5 * x1 + 8 * x2 + 8 * x3 + 11 * x4 + 8 * x5)) + 56);
    assert(x1 % 6 == 2) by {
        vstd::arithmetic::div_mod::lemma_mod_multiples_vanish(5 * m0 + 4 * m1 + 5 * m2 + 1 * m3 + 1 * m4 + 1 * m5 - (8 * x0 + 5 * x1 + 8 * x2 + 8 * x3 + 11 * x4 + 8 * x5), 56, 6);
    }
    assert(1 * e0 + 5 * e1 + 4 * e2 + 5 * e3 + 1 * e4 + 1 * e5 == x2 + 6 * (8 * x0 + 8 * x1 + 5 * x2 + 8 * x3 + 8 * x4 + 11 * x5));
    assert(x2 == 6 * (1 * m0 + 5 * m1 + 4 * m2 + 5 * m3 + 1 * m4 + 1 * m5 - (8 * x0 + 8 * x1 + 5 * x2 + 8 * x3 + 8 * x4 + 11 * x5)) + 59);
    assert(x2 % 6 == 5) by {
        vstd::arithmetic::div_mod::lemma_mod_multiples_vanish(1 * m0 + 5 * m1 + 4 * m2 + 5 * m3 + 1 * m4 + 1 * m5 - (8 * x0 + 8 * x1 + 5 * x2 + 8 * x3 + 8 * x4 + 11 * x5), 59, 6);
    }
    assert(1 * e0 + 1 * e1 + 5 * e2 + 4 * e3 + 5 * e4 + 1 * e5 == x3 + 6 * (11 * x0 + 8 * x1 + 8 * x2 + 5 * x3 + 8 * x4 + 8 * x5));
    assert(x3 == 6 * (1 * m0 + 1 * m1 + 5 * m2 + 4 * m3 + 5 * m4 + 1 * m5 - (11 * x0 + 8 * x1 + 8 * x2 + 5 * x3 + 8 * x4 + 8 * x5)) + 55);
    assert(x3 % 6 == 1) by {
        vstd::arithmetic::div_mod::lemma_mod_multiples_vanish(1 * m0 + 1 * m1 + 5 * m2 + 4 * m3 + 5 * m4 + 1 * m5 - (11 * x0 + 8 * x1 + 8 * x2 + 5 * x3 + 8 * x4 + 8 * x5), 55, 6);
    }
    assert(1 * e0 + 1 * e1 + 1 * e2 + 5 * e3 + 4 * e4 + 5 * e5 == x4 + 6 * (8 * x0 + 11 * x1 + 8 * x2 + 8 * x3 + 5 * x4 + 8 * x5));
    assert(x4 == 6 * (1 * m0 + 1 * m1 + 1 * m2 + 5 * m3 + 4 * m4 + 5 * m5 - (8 * x0 + 11 * x1 + 8 * x2 + 8 * x3 + 5 * x4 + 8 * x5)) + 56);
    assert(x4 % 6 == 2) by {
        vstd::arithmetic::div_mod::lemma_mod_multiples_vanish(1 * m0 + 1 * m1 + 1 * m2 + 5 * m3 + 4 * m4 + 5 * m5 - (8 * x0 + 11 * x1 + 8 * x2 + 8 * x3 + 5 * x4 + 8 * x5), 56, 6);
    }
    assert(5 * e0 + 1 * e1 + 1 * e2 + 1 * e3 + 5 * e4 + 4 * e5 == x5 + 6 * (8 * x0 + 8 * x1 + 11 * x2 + 8 * x3 + 8 * x4 + 5 * x5));
    assert(x5 == 6 * (5 * m0 + 1 * m1 + 1 * m2 + 1 * m3 + 5 * m4 + 4 * m5 - (8 * x0 + 8 * x1 + 11 * x2 + 8 * x3 + 8 * x4 + 5 * x5)) + 59);
    assert(x5 % 6 == 5) by {
        vstd::arithmetic::div_mod::lemma_mod_multiples_vanish(5 * m0 + 1 * m1 + 1 * m2 + 1 * m3 + 5 * m4 + 4 * m5 - (8 * x0 + 8 * x1 + 11 * x2 + 8 * x3 + 8 * x4 + 5 * x5), 59, 6);
    }
    assert(x0 >= 1) by {
        vstd::arithmetic::div_mod::lemma_fundamental_div_mod(x0, 6);
        assert(x0 / 6 >= 0) by {
            vstd::arithmetic::div_mod::lemma_div_pos_is_pos(x0, 6);
        }
    }
    assert(x1 >= 2) by {
        vstd::arithmetic::div_mod::lemma_fundamental_div_mod(x1, 6);
        assert(x1 / 6 >= 0) by {
            vstd::arithmetic::div_mod::lemma_div_pos_is_pos(x1, 6);
        }
    }
    assert(x2 >= 5) by {
        vstd::arithmetic::div_mod::lemma_fundamental_div_mod(x2, 6);
        assert(x2 / 6 >= 0) by {
            vstd::arithmetic::div_mod::lemma_div_pos_is_pos(x2, 6);
        }
    }
    assert(x3 >= 1) by {
        vstd::arithmetic::div_mod::lemma_fundamental_div_mod(x3, 6);
        assert(x3 / 6 >= 0) by {
            vstd::arithmetic::div_mod::lemma_div_pos_is_pos(x3, 6);
        }
    }
    assert(x4 >= 2) by {
        vstd::arithmetic::div_mod::lemma_fundamental_div_mod(x4, 6);
        assert(x4 / 6 >= 0) by {
            vstd::arithmetic::div_mod::lemma_div_pos_is_pos(x4, 6);
        }
    }
    assert(x5 >= 5) by {
        vstd::arithmetic::div_mod::lemma_fundamental_div_mod(x5, 6);
        assert(x5 / 6 >= 0) by {
            vstd::arithmetic::div_mod::lemma_div_pos_is_pos(x5, 6);
        }
    }
}

/// Every sequence of presses that leads from the start board to the target board has at
/// least sixteen presses: the press rule is invertible modulo six, so each index must
/// be pressed at least 1, 2, 5, 1, 2, 5 times.
#[verifier::rlimit(50)]
pub proof fn lemma_solution_lower_bound(q: Seq<usize>)
    requires
        is_path(START_STATE@, TARGET_STATE@, q),
    ensures
        q.len() >= 16,
        count(q, 0) >= 1 && count(q, 1) >= 2 && count(q, 2) >= 5 && count(q, 3) >= 1 && count(q, 4)
            >= 2 && count(q, 5) >= 5,
        q.len() == count(q, 0) + count(q, 1) + count(q, 2) + count(q, 3) + count(q, 4) + count(q, 5),
{
    lemma_replay_totals(q);
    lemma_totals_by_counts(q);
    assert(replay(START_STATE@, q) == TARGET_STATE@);
    assert(TARGET_STATE@[0] == NodeColor::White && TARGET_STATE@[1] == NodeColor::Purple
        && TARGET_STATE@[2] == NodeColor::Green && TARGET_STATE@[3] == NodeColor::White
        && TARGET_STATE@[4] == NodeColor::Purple && TARGET_STATE@[5] == NodeColor::Green);
    assert(total(q, 0) % 6 == 5) by {
        assert(replay(START_STATE@, q)[0].index() == total(q, 0) % 6);
    }
    assert(total(q, 1) % 6 == 4) by {
        assert(replay(START_STATE@, q)[1].index() == total(q, 1) % 6);
    }
    assert(total(q, 2) % 6 == 1) by {
        assert(replay(START_STATE@, q)[2].index() == total(q, 2) % 6);
    }
    assert(total(q, 3) % 6 == 5) by {
        assert(replay(START_STATE@, q)[3].index() == total(q, 3) % 6);
    }
    assert(total(q, 4) % 6 == 4) by {
        assert(replay(START_STATE@, q)[4].index() == total(q, 4) % 6);
    }
    assert(total(q, 5) % 6 == 1) by {
        assert(replay(START_STATE@, q)[5].index() == total(q, 5) % 6);
    }
    lemma_counts_mod_six(count(q, 0) as int, count(q, 1) as int, count(q, 2) as int, count(q, 3) as int, count(q, 4) as int, count(q, 5) as int, total(q, 0) as int, total(q, 1) as int, total(q, 2) as int, total(q, 3) as int, total(q, 4) as int, total(q, 5) as int);
}

/// A shortest solution from the start board has exactly sixteen presses, and the known
/// sixteen-press sequence is one.
pub proof fn lemma_optimal_is_sixteen(n: nat)
    requires
        optimal_count(START_STATE@, TARGET_STATE@, n),
    ensures
        n == 16,
        is_shortest_path(
            START_STATE@,
            TARGET_STATE@,
            seq![0usize, 1, 1, 2, 2, 2, 2, 2, 3, 4, 4, 5, 5, 5, 5, 5],
        ),
{
    let known = seq![0usize, 1, 1, 2, 2, 2, 2, 2, 3, 4, 4, 5, 5, 5, 5, 5];
    lemma_known_solution();
    assert forall|q: Seq<usize>| is_path(START_STATE@, TARGET_STATE@, q) implies known.len() <= q.len() by {
        lemma_solution_lower_bound(q);
    }
    let p = choose|p: Seq<usize>| is_shortest_path(START_STATE@, TARGET_STATE@, p) && p.len() == n;
    lemma_solution_lower_bound(p);
}

/// From the start board the hint is to press the first indicator (index 0).
pub proof fn lemma_start_hint(h: Hint)
    requires
        hint_fits(START_STATE@, h),
    ensures
        h == Hint::Press(0),
{
    let known = seq![0usize, 1, 1, 2, 2, 2, 2, 2, 3, 4, 4, 5, 5, 5, 5, 5];
    lemma_known_solution();
    lemma_target_reachable();
    crate::session::lemma_start_is_not_target();
    match h {
        Hint::Press(i) => {
            let p = choose|p: Seq<usize>| is_least_shortest_path(START_STATE@, TARGET_STATE@, p) && p.len() > 0 && p[0] == i;
            lemma_solution_lower_bound(p);
            assert(p.len() <= known.len());
            assert(lex_le(p, known));
            if p != known {
                let k = choose|k: int| 0 <= k < p.len() && k < known.len() && p.take(k) == known.take(k) && #[trigger] p[k] < known[k];
                if k > 0 {
                    assert(p[0] == p.take(k)[0]);
                    assert(known[0] == known.take(k)[0]);
                }
            }
        },
        _ => {},
    }
}

proof fn lemma_count_step(q: Seq<usize>, k: int, v: int)
    requires
        0 <= k < q.len(),
    ensures
        count(q.take(k + 1), v) == count(q.take(k), v) + (if q[k] == v {
            1nat
        } else {
            0nat
        }),
{
    assert(q.take(k + 1).drop_last() =~= q.take(k));
    assert(q.take(k + 1).last() == q[k]);
}

/// Where every press from position `k` on is above `v`, the prefix before `k` already
/// holds all the presses `v`.
proof fn lemma_count_prefix(q: Seq<usize>, k: int, v: int)
    requires
        0 <= k <= q.len(),
        forall|m: int| k <= m < q.len() ==> q[m] > v,
    ensures
        count(q.take(k), v) == count(q, v),
    decreases q.len() - k,
{
    if k < q.len() {
        lemma_count_prefix(q, k + 1, v);
        lemma_count_step(q, k, v);
    } else {
        assert(q.take(k) =~= q);
    }
}

/// Presses of a prefix are presses of the whole sequence.
proof fn lemma_count_prefix_le(q: Seq<usize>, k: int, v: int)
    requires
        0 <= k <= q.len(),
    ensures
        count(q.take(k), v) <= count(q, v),
    decreases q.len() - k,
{
    if k < q.len() {
        lemma_count_prefix_le(q, k + 1, v);
        lemma_count_step(q, k, v);
    } else {
        assert(q.take(k) =~= q);
    }
}

/// The first in dictionary order among the shortest solutions from the start board is
/// 0, 1, 1, 2, 2, 2, 2, 2, 3, 4, 4, 5, 5, 5, 5, 5.
pub proof fn lemma_least_solution(p: Seq<usize>)
    requires
        is_least_shortest_path(START_STATE@, TARGET_STATE@, p),
    ensures
        p == seq![0usize, 1, 1, 2, 2, 2, 2, 2, 3, 4, 4, 5, 5, 5, 5, 5],
{
    let known = seq![0usize, 1, 1, 2, 2, 2, 2, 2, 3, 4, 4, 5, 5, 5, 5, 5];
    lemma_known_solution();
    lemma_solution_lower_bound(p);
    lemma_solution_lower_bound(known);
    assert(p.len() <= known.len());
    assert(lex_le(p, known));
    if p != known {
        let k = choose|k: int| 0 <= k < p.len() && k < known.len() && p.take(k) == known.take(k) && #[trigger] p[k] < known[k];
        let v = p[k] as int;
        assert forall|m: int| k <= m < known.len() implies known[m] > v by {
            assert forall|a: int, b: int| 0 <= a <= b < 16 implies known[a] <= known[b] by {
                if a == 0 {} else if a == 1 {} else if a == 2 {} else if a == 3 {} else if a == 4 {} else if a == 5 {} else if a == 6 {} else if a == 7 {} else if a == 8 {} else if a == 9 {} else if a == 10 {} else if a == 11 {} else if a == 12 {} else if a == 13 {} else if a == 14 {} else {}
                if b == 0 {} else if b == 1 {} else if b == 2 {} else if b == 3 {} else if b == 4 {} else if b == 5 {} else if b == 6 {} else if b == 7 {} else if b == 8 {} else if b == 9 {} else if b == 10 {} else if b == 11 {} else if b == 12 {} else if b == 13 {} else if b == 14 {} else {}
            }
            assert(known[k] <= known[m]);
        }
        lemma_count_prefix(known, k, v);
        lemma_count_step(p, k, v);
        lemma_count_prefix_le(p, k + 1, v);
        assert(count(p, v) == count(known, v));
    }
}

} // verus!
