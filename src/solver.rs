use vstd::prelude::*;

use crate::board::{
    board_code, encode, is_path, lemma_code_bound, lemma_code_injective, lemma_press_len,
    lemma_replay_push, press_indicator, press_spec, reachable, replay, same_board, BOARD_SPACE,
    INDICATOR_COUNT,
};
use crate::color::NodeColor;

verus! {

/// `path` leads from `s` to `g`, and no sequence of presses that does so is shorter.
pub open spec fn is_shortest_path(s: Seq<NodeColor>, g: Seq<NodeColor>, path: Seq<usize>) -> bool {
    &&& is_path(s, g, path)
    &&& forall|q: Seq<usize>| is_path(s, g, q) ==> path.len() <= q.len()
}

/// `a` comes before `b` in dictionary order: at the first position where they differ,
/// `a` holds the lower index.
pub open spec fn lex_lt(a: Seq<usize>, b: Seq<usize>) -> bool {
    exists|k: int| 0 <= k < a.len() && k < b.len() && a.take(k) == b.take(k) && #[trigger] a[k] < b[k]
}

/// `a` equals `b` or comes before it in dictionary order.
pub open spec fn lex_le(a: Seq<usize>, b: Seq<usize>) -> bool {
    a == b || lex_lt(a, b)
}

/// `path` is a shortest path from `s` to `g`, and among the shortest ones the first
/// in dictionary order: ties go to lower indices pressed earlier.
pub open spec fn is_least_shortest_path(s: Seq<NodeColor>, g: Seq<NodeColor>, path: Seq<usize>) -> bool {
    &&& is_shortest_path(s, g, path)
    &&& forall|q: Seq<usize>| is_path(s, g, q) && q.len() == path.len() ==> lex_le(path, q)
}

/// No path from `s` to `g` is shorter than `p`, and none as short comes before it.
pub open spec fn least_among(s: Seq<NodeColor>, g: Seq<NodeColor>, p: Seq<usize>) -> bool {
    forall|q: Seq<usize>|
        is_path(s, g, q) ==> p.len() <= q.len() && (q.len() == p.len() ==> lex_le(p, q))
}

proof fn lemma_lex_push(a: Seq<usize>, b: Seq<usize>, x: usize, y: usize)
    requires
        a.len() == b.len(),
        lex_lt(a, b) || (a == b && x < y),
    ensures
        lex_lt(a.push(x), b.push(y)),
{
    if lex_lt(a, b) {
        let k = choose|k: int| 0 <= k < a.len() && k < b.len() && a.take(k) == b.take(k) && #[trigger] a[k] < b[k];
        assert(a.push(x).take(k) =~= a.take(k));
        assert(b.push(y).take(k) =~= b.take(k));
        assert(a.push(x)[k] == a[k] && b.push(y)[k] == b[k]);
    } else {
        let k = a.len() as int;
        assert(a.push(x).take(k) =~= a);
        assert(b.push(y).take(k) =~= b);
        assert(a.push(x)[k] < b.push(y)[k]);
    }
}

proof fn lemma_lex_trans(a: Seq<usize>, b: Seq<usize>, c: Seq<usize>)
    requires
        a.len() == b.len(),
        b.len() == c.len(),
        lex_lt(a, b),
        lex_lt(b, c),
    ensures
        lex_lt(a, c),
{
    let k1 = choose|k: int| 0 <= k < a.len() && k < b.len() && a.take(k) == b.take(k) && #[trigger] a[k] < b[k];
    let k2 = choose|k: int| 0 <= k < b.len() && k < c.len() && b.take(k) == c.take(k) && #[trigger] b[k] < c[k];
    if k1 < k2 {
        assert(b.take(k1) =~= c.take(k2).take(k1));
        assert(b.take(k1) =~= b.take(k2).take(k1));
        assert(b[k1] == b.take(k2)[k1]);
        assert(c[k1] == c.take(k2)[k1]);
        assert(a.take(k1) == c.take(k1) && a[k1] < c[k1]);
    } else if k2 < k1 {
        assert(a.take(k2) =~= a.take(k1).take(k2));
        assert(b.take(k2) =~= b.take(k1).take(k2));
        assert(a[k2] == a.take(k1)[k2]);
        assert(b[k2] == b.take(k1)[k2]);
        assert(a.take(k2) == c.take(k2) && a[k2] < c[k2]);
    } else {
        assert(a.take(k1) == c.take(k1) && a[k1] < c[k1]);
    }
}

proof fn lemma_lex_lt_le(a: Seq<usize>, b: Seq<usize>, c: Seq<usize>)
    requires
        a.len() == b.len(),
        b.len() == c.len(),
        lex_lt(a, b),
        lex_le(b, c),
    ensures
        lex_lt(a, c),
{
    if b != c {
        lemma_lex_trans(a, b, c);
    }
}

proof fn lemma_lex_le_lt(a: Seq<usize>, b: Seq<usize>, c: Seq<usize>)
    requires
        a.len() == b.len(),
        b.len() == c.len(),
        lex_le(a, b),
        lex_lt(b, c),
    ensures
        lex_lt(a, c),
{
    if a != b {
        lemma_lex_trans(a, b, c);
    }
}

/// `a` comes before `b` extended by one press `x`, and `b` before `c`: then `a` comes
/// before `c` extended by any press.
proof fn lemma_lex_next_layer(a: Seq<usize>, b: Seq<usize>, c: Seq<usize>, x: usize, y: usize)
    requires
        a.len() == b.len() + 1,
        b.len() == c.len(),
        lex_lt(a, b.push(x)),
        lex_lt(b, c),
    ensures
        lex_lt(a, c.push(y)),
{
    let n = b.len() as int;
    let k = choose|k: int| 0 <= k < a.len() && k < b.push(x).len() && a.take(k) == b.push(x).take(k) && #[trigger] a[k] < b.push(x)[k];
    let a0 = a.take(n);
    assert(a0.push(a[n]) =~= a);
    if k < n {
        assert(a0.take(k) =~= a.take(k));
        assert(b.push(x).take(k) =~= b.take(k));
        assert(a0[k] == a[k] && b.push(x)[k] == b[k]);
        assert(lex_lt(a0, b));
        lemma_lex_trans(a0, b, c);
    } else {
        assert(a0 =~= b.push(x).take(n));
        assert(b.push(x).take(n) =~= b);
    }
    lemma_lex_push(a0, c, a[n], y);
}

/// Code of the board at position `k` of a search queue.
pub open spec fn slot_code(queue: Seq<[NodeColor; 6]>, k: int) -> int {
    board_code(queue[k]@)
}

/// Replaying presses keeps a board at six positions.
pub proof fn lemma_replay_len(s: Seq<NodeColor>, q: Seq<usize>)
    requires
        s.len() == 6,
    ensures
        replay(s, q).len() == 6,
    decreases q.len(),
{
    if q.len() > 0 {
        lemma_replay_len(press_spec(s, q[0] as int), q.drop_first());
    }
}

/// From a board inside a set of codes that every press keeps inside, any replay stays inside.
proof fn lemma_replay_stays_visited(visited: Seq<bool>, s: Seq<NodeColor>, q: Seq<usize>)
    requires
        visited.len() == BOARD_SPACE,
        s.len() == 6,
        visited[board_code(s)],
        forall|k: int| 0 <= k < q.len() ==> q[k] < 6,
        forall|b: Seq<NodeColor>, i: int|
            b.len() == 6 && 0 <= i < 6 && visited[board_code(b)] ==> visited[board_code(
                #[trigger] press_spec(b, i),
            )],
    ensures
        visited[board_code(replay(s, q))],
    decreases q.len(),
{
    if q.len() > 0 {
        let n = press_spec(s, q[0] as int);
        assert(q[0] < 6);
        lemma_press_len(s, q[0] as int);
        assert(visited[board_code(n)]);
        lemma_replay_stays_visited(visited, n, q.drop_first());
    }
}

/// Where every visited board of depth below `d` has its neighbours visited one level
/// deeper at most, every path of at most `d` presses ends at a visited board no
/// deeper than its length.
proof fn lemma_short_paths_visited(
    visited: Seq<bool>,
    depth: Seq<usize>,
    start: Seq<NodeColor>,
    q: Seq<usize>,
    d: int,
)
    requires
        visited.len() == BOARD_SPACE,
        depth.len() == BOARD_SPACE,
        start.len() == 6,
        visited[board_code(start)],
        depth[board_code(start)] == 0,
        forall|k: int| 0 <= k < q.len() ==> q[k] < 6,
        q.len() <= d,
        forall|b: Seq<NodeColor>, i: int|
            b.len() == 6 && 0 <= i < 6 && visited[board_code(b)] && depth[board_code(b)] < d
                ==> visited[board_code(#[trigger] press_spec(b, i))] && depth[board_code(
                press_spec(b, i),
            )] <= depth[board_code(b)] + 1,
    ensures
        visited[board_code(replay(start, q))],
        depth[board_code(replay(start, q))] <= q.len(),
    decreases q.len(),
{
    if q.len() > 0 {
        let p = q.drop_last();
        let i = q.last();
        assert(p.push(i) =~= q);
        lemma_short_paths_visited(visited, depth, start, p, d);
        lemma_replay_push(start, p, i);
        lemma_replay_len(start, p);
        let b = replay(start, p);
        assert(q[q.len() - 1] < 6);
        assert(visited[board_code(press_spec(b, i as int))]);
    }
}

/// Tables of a breadth-first search, indexed by board code.
struct Search {
    visited: Vec<bool>,
    depth: Vec<usize>,
    slot: Vec<usize>,
    parent: Vec<[NodeColor; 6]>,
    pressed: Vec<usize>,
    queue: Vec<[NodeColor; 6]>,
    unvisited: Ghost<Set<int>>,
    /// For each queue position, the presses that lead to its board along the
    /// recorded predecessors.
    paths: Ghost<Seq<Seq<usize>>>,
}

impl Search {
    /// The tables agree with each other: every visited board is queued once, at the
    /// slot recorded for it; depths do not decrease along the queue; each visited
    /// board but the start records the board and press it was discovered from.
    spec fn tables(self, start: Seq<NodeColor>) -> bool {
        &&& self.visited@.len() == BOARD_SPACE
        &&& self.depth@.len() == BOARD_SPACE
        &&& self.slot@.len() == BOARD_SPACE
        &&& self.parent@.len() == BOARD_SPACE
        &&& self.pressed@.len() == BOARD_SPACE
        &&& start.len() == 6
        &&& self.queue@.len() >= 1
        &&& self.paths@.len() == self.queue@.len()
        &&& self.queue@[0]@ == start
        &&& self.visited@[board_code(start)]
        &&& self.depth@[board_code(start)] == 0
        &&& self.unvisited@.finite()
        &&& self.unvisited@ == Set::new(|c: int| 0 <= c < BOARD_SPACE && !self.visited@[c])
        &&& self.queue@.len() + self.unvisited@.len() == BOARD_SPACE
        &&& self.queue_ok()
        &&& self.slot_ok()
        &&& self.depth_ordered()
        &&& self.parent_ok(start)
        &&& forall|c: int| 0 <= c < BOARD_SPACE ==> #[trigger] self.pressed@[c] < 6
    }

    /// Each queued board is visited, recorded at its own slot, no deeper than its slot.
    #[verifier::opaque]
    spec fn queue_ok(self) -> bool {
        forall|k: int|
            0 <= k < self.queue@.len() ==> self.visited@[#[trigger] slot_code(self.queue@, k)]
                && self.slot@[slot_code(self.queue@, k)] == k && self.depth@[slot_code(
                self.queue@,
                k,
            )] <= k
    }

    /// Each visited board stands in the queue at its recorded slot.
    #[verifier::opaque]
    spec fn slot_ok(self) -> bool {
        forall|c: int|
            0 <= c < BOARD_SPACE && #[trigger] self.visited@[c] ==> self.slot@[c]
                < self.queue@.len() && slot_code(self.queue@, self.slot@[c] as int) == c
    }

    /// Depths do not decrease along the queue.
    #[verifier::opaque]
    spec fn depth_ordered(self) -> bool {
        forall|k1: int, k2: int|
            0 <= k1 <= k2 < self.queue@.len() ==> self.depth@[slot_code(self.queue@, k1)]
                <= self.depth@[slot_code(self.queue@, k2)]
    }

    /// Each visited board but the start records a visited board, one level shallower,
    /// and the press that leads from it.
    #[verifier::opaque]
    spec fn parent_ok(self, start: Seq<NodeColor>) -> bool {
        forall|c: int|
            0 <= c < BOARD_SPACE && self.visited@[c] && c != board_code(start) ==> self.visited@[board_code(#[trigger] self.parent@[c]@)] && board_code(
                press_spec(self.parent@[c]@, self.pressed@[c] as int),
            ) == c && self.depth@[c] == self.depth@[board_code(self.parent@[c]@)] + 1
    }

    /// The boards at queue positions below `head` have had all six presses tried.
    #[verifier::opaque]
    spec fn expanded(self, head: int) -> bool {
        forall|k: int, i: int|
            0 <= k < head && 0 <= i < 6 ==> self.visited@[board_code(
                #[trigger] press_spec(self.queue@[k]@, i),
            )] && self.depth@[board_code(press_spec(self.queue@[k]@, i))] <= self.depth@[slot_code(
                self.queue@,
                k,
            )] + 1
    }

    /// Each queued board's recorded path leads to it from the start, has its depth as
    /// length, and is the first in dictionary order among the shortest paths to it.
    #[verifier::opaque]
    spec fn paths_ok(self, start: Seq<NodeColor>) -> bool {
        &&& self.paths@.len() == self.queue@.len()
        &&& forall|k: int|
            0 <= k < self.queue@.len() ==> is_path(start, self.queue@[k]@, #[trigger] self.paths@[k])
                && self.paths@[k].len() == self.depth@[slot_code(self.queue@, k)] && least_among(
                start,
                self.queue@[k]@,
                self.paths@[k],
            )
    }

    /// The recorded path of each visited board but the start is its predecessor's path
    /// followed by the recorded press.
    #[verifier::opaque]
    spec fn links_ok(self, start: Seq<NodeColor>) -> bool {
        forall|c: int|
            0 <= c < BOARD_SPACE && self.visited@[c] && c != board_code(start)
                ==> self.paths@[self.slot@[c] as int] == self.paths@[self.slot@[board_code(
                #[trigger] self.parent@[c]@,
            ) as int] as int].push(self.pressed@[c])
    }

    /// Among queued boards of one depth, the recorded paths come in dictionary order.
    #[verifier::opaque]
    spec fn layers_ordered(self) -> bool {
        forall|k1: int, k2: int|
            0 <= k1 < k2 < self.queue@.len() && (#[trigger] self.paths@[k1]).len()
                == (#[trigger] self.paths@[k2]).len() ==> lex_lt(self.paths@[k1], self.paths@[k2])
    }

    /// Every queued path as long as `bound` comes before it in dictionary order.
    #[verifier::opaque]
    spec fn next_below(self, bound: Seq<usize>) -> bool {
        forall|k: int|
            0 <= k < self.queue@.len() && (#[trigger] self.paths@[k]).len() == bound.len()
                ==> lex_lt(self.paths@[k], bound)
    }

    /// Every queued board lies at most one level deeper than `d`.
    #[verifier::opaque]
    spec fn depth_capped(self, d: int) -> bool {
        forall|k: int|
            0 <= k < self.queue@.len() ==> self.depth@[#[trigger] slot_code(self.queue@, k)] <= d
    }

    /// The first `n` presses on `b` lead to visited boards at most one level deeper than `d`.
    #[verifier::opaque]
    spec fn presses_done(self, b: Seq<NodeColor>, n: int, d: int) -> bool {
        forall|i: int|
            0 <= i < n ==> self.visited@[board_code(#[trigger] press_spec(b, i))]
                && self.depth@[board_code(press_spec(b, i))] <= d + 1
    }

    /// `self` only adds to what `prev` had visited and queued.
    spec fn grows_from(self, prev: Search) -> bool {
        &&& self.visited@.len() == BOARD_SPACE
        &&& self.depth@.len() == BOARD_SPACE
        &&& forall|c: int|
            0 <= c < BOARD_SPACE && #[trigger] prev.visited@[c] ==> self.visited@[c]
                && self.depth@[c] == prev.depth@[c]
        &&& self.queue@.len() >= prev.queue@.len()
        &&& forall|k: int| 0 <= k < prev.queue@.len() ==> #[trigger] self.queue@[k] == prev.queue@[k]
    }

    /// Tables holding the start board alone.
    fn new(start: [NodeColor; 6]) -> (r: Search)
        ensures
            r.tables(start@),
            r.queue@.len() == 1,
            r.expanded(0),
            forall|c: int| 0 <= c < BOARD_SPACE && c != board_code(start@) ==> !r.visited@[c],
            r.paths_ok(start@),
            r.links_ok(start@),
            r.layers_ordered(),
            r.next_below(r.paths@[0].push(0)),
    {
        let mut visited: Vec<bool> = Vec::new();
        let mut depth: Vec<usize> = Vec::new();
        let mut slot: Vec<usize> = Vec::new();
        let mut parent: Vec<[NodeColor; 6]> = Vec::new();
        let mut pressed: Vec<usize> = Vec::new();
        let mut n: usize = 0;
        while n < BOARD_SPACE
            invariant
                n <= BOARD_SPACE,
                visited@.len() == n,
                depth@.len() == n,
                slot@.len() == n,
                parent@.len() == n,
                pressed@.len() == n,
                forall|c: int| 0 <= c < n ==> !visited@[c],
                forall|c: int| 0 <= c < n ==> pressed@[c] == 0,
            decreases BOARD_SPACE - n,
        {
            visited.push(false);
            depth.push(0);
            slot.push(0);
            parent.push(start);
            pressed.push(0);
            n = n + 1;
        }
        let sc = encode(&start);
        proof {
            vstd::set_lib::lemma_int_range(0, BOARD_SPACE as int);
        }
        let ghost unvisited = vstd::set_lib::set_int_range(0, BOARD_SPACE as int).remove(sc as int);
        let ghost first_paths = seq![Seq::<usize>::empty()];
        visited.set(sc, true);
        slot.set(sc, 0);
        depth.set(sc, 0);
        let mut queue: Vec<[NodeColor; 6]> = Vec::new();
        queue.push(start);
        let r = Search {
            visited,
            depth,
            slot,
            parent,
            pressed,
            queue,
            unvisited: Ghost(unvisited),
            paths: Ghost(first_paths),
        };
        proof {
            assert(r.unvisited@ =~= Set::new(|c: int| 0 <= c < BOARD_SPACE && !r.visited@[c]));
            assert(slot_code(r.queue@, 0) == sc);
            reveal(Search::queue_ok);
            reveal(Search::slot_ok);
            reveal(Search::depth_ordered);
            reveal(Search::parent_ok);
            reveal(Search::expanded);
            reveal(Search::paths_ok);
            reveal(Search::links_ok);
            reveal(Search::layers_ordered);
            reveal(Search::next_below);
            assert(is_path(start@, start@, Seq::<usize>::empty()));
            assert forall|q: Seq<usize>| is_path(start@, r.queue@[0]@, q) implies 0 <= q.len() && (q.len() == 0 ==> lex_le(r.paths@[0], q)) by {
                if q.len() == 0 {
                    assert(q =~= r.paths@[0]);
                }
            }
        }
        r
    }

    /// Marks `next`, reached by pressing `index` on `from`, as visited one level deeper
    /// than `from`, and queues it.
    fn discover(
        &mut self,
        start: Ghost<Seq<NodeColor>>,
        from: [NodeColor; 6],
        d: usize,
        index: usize,
        next: [NodeColor; 6],
        nc: usize,
        next_path: Ghost<Seq<usize>>,
    )
        requires
            old(self).tables(start@),
            index < 6,
            next@ == press_spec(from@, index as int),
            nc == board_code(next@),
            !old(self).visited@[nc as int],
            old(self).visited@[board_code(from@)],
            old(self).depth@[board_code(from@)] == d,
            d < old(self).queue@.len(),
            old(self).depth_capped(d + 1),
        ensures
            final(self).tables(start@),
            final(self).grows_from(*old(self)),
            final(self).visited@[nc as int],
            final(self).depth@[nc as int] == d + 1,
            final(self).queue@ == old(self).queue@.push(next),
            final(self).visited@ == old(self).visited@.update(nc as int, true),
            final(self).depth@ == old(self).depth@.update(nc as int, (d + 1) as usize),
            final(self).slot@ == old(self).slot@.update(nc as int, old(self).queue@.len() as usize),
            final(self).parent@ == old(self).parent@.update(nc as int, from),
            final(self).pressed@ == old(self).pressed@.update(nc as int, index),
            final(self).paths@ == old(self).paths@.push(next_path@),
    {
        let ghost prev = *self;
        proof {
            lemma_press_len(from@, index as int);
            lemma_code_bound(next@);
            lemma_code_bound(from@);
            assert(prev.unvisited@.contains(nc as int));
        }
        let d1 = d + 1;
        let ql = self.queue.len();
        self.visited.set(nc, true);
        self.depth.set(nc, d1);
        self.slot.set(nc, ql);
        self.parent.set(nc, from);
        self.pressed.set(nc, index);
        self.queue.push(next);
        let ghost new_paths = prev.paths@.push(next_path@);
        self.paths = Ghost(new_paths);
        proof {
            self.unvisited = Ghost(prev.unvisited@.remove(nc as int));
            assert(self.unvisited@ =~= Set::new(
                |c: int| 0 <= c < BOARD_SPACE && !self.visited@[c],
            ));
            lemma_discover_queue(prev, *self, next, nc, d1, ql);
            lemma_discover_slot(prev, *self, next, nc, ql);
            lemma_discover_order(prev, *self, next, nc, d1);
            lemma_discover_parent(prev, *self, start@, from, index, nc, d, d1);
            assert(self.queue@[0] == prev.queue@[0]);
            assert forall|c: int| 0 <= c < BOARD_SPACE implies #[trigger] self.pressed@[c] < 6 by {
                if c != nc {
                    assert(self.pressed@[c] == prev.pressed@[c]);
                }
            }
            if nc as int == board_code(start@) {
                assert(prev.visited@[board_code(start@)]);
            }
        }
    }
}

proof fn lemma_discover_queue(
    prev: Search,
    cur: Search,
    next: [NodeColor; 6],
    nc: usize,
    d1: usize,
    ql: usize,
)
    requires
        prev.queue_ok(),
        prev.visited@.len() == BOARD_SPACE,
        prev.depth@.len() == BOARD_SPACE,
        prev.slot@.len() == BOARD_SPACE,
        0 <= nc < BOARD_SPACE,
        !prev.visited@[nc as int],
        nc == board_code(next@),
        d1 <= ql,
        ql == prev.queue@.len(),
        cur.visited@ == prev.visited@.update(nc as int, true),
        cur.depth@ == prev.depth@.update(nc as int, d1),
        cur.slot@ == prev.slot@.update(nc as int, ql),
        cur.queue@ == prev.queue@.push(next),
    ensures
        cur.queue_ok(),
{
    reveal(Search::queue_ok);
    assert forall|k: int| 0 <= k < cur.queue@.len() implies cur.visited@[#[trigger] slot_code(
        cur.queue@,
        k,
    )] && cur.slot@[slot_code(cur.queue@, k)] == k && cur.depth@[slot_code(cur.queue@, k)]
        <= k by {
        if k < prev.queue@.len() {
            assert(cur.queue@[k] == prev.queue@[k]);
            assert(prev.visited@[slot_code(prev.queue@, k)]);
        } else {
            assert(cur.queue@[k] == next);
        }
    }
}

proof fn lemma_discover_slot(prev: Search, cur: Search, next: [NodeColor; 6], nc: usize, ql: usize)
    requires
        prev.slot_ok(),
        prev.visited@.len() == BOARD_SPACE,
        prev.slot@.len() == BOARD_SPACE,
        0 <= nc < BOARD_SPACE,
        nc == board_code(next@),
        ql == prev.queue@.len(),
        cur.visited@ == prev.visited@.update(nc as int, true),
        cur.slot@ == prev.slot@.update(nc as int, ql),
        cur.queue@ == prev.queue@.push(next),
    ensures
        cur.slot_ok(),
{
    reveal(Search::slot_ok);
    assert forall|c: int| 0 <= c < BOARD_SPACE && #[trigger] cur.visited@[c] implies cur.slot@[c]
        < cur.queue@.len() && slot_code(cur.queue@, cur.slot@[c] as int) == c by {
        if c != nc {
            assert(prev.visited@[c]);
            assert(cur.queue@[cur.slot@[c] as int] == prev.queue@[prev.slot@[c] as int]);
        } else {
            assert(cur.queue@[cur.slot@[c] as int] == next);
        }
    }
}

proof fn lemma_discover_order(prev: Search, cur: Search, next: [NodeColor; 6], nc: usize, d1: usize)
    requires
        prev.depth_ordered(),
        prev.queue_ok(),
        prev.depth_capped(d1 as int),
        prev.visited@.len() == BOARD_SPACE,
        prev.depth@.len() == BOARD_SPACE,
        0 <= nc < BOARD_SPACE,
        !prev.visited@[nc as int],
        nc == board_code(next@),
        cur.depth@ == prev.depth@.update(nc as int, d1),
        cur.queue@ == prev.queue@.push(next),
    ensures
        cur.depth_ordered(),
{
    reveal(Search::depth_ordered);
    reveal(Search::queue_ok);
    reveal(Search::depth_capped);
    assert forall|k1: int, k2: int|
        0 <= k1 <= k2 < cur.queue@.len() implies cur.depth@[slot_code(cur.queue@, k1)]
        <= cur.depth@[slot_code(cur.queue@, k2)] by {
        if k1 < prev.queue@.len() {
            assert(cur.queue@[k1] == prev.queue@[k1]);
            assert(prev.visited@[slot_code(prev.queue@, k1)]);
        }
        if k2 < prev.queue@.len() {
            assert(cur.queue@[k2] == prev.queue@[k2]);
            assert(prev.visited@[slot_code(prev.queue@, k2)]);
        } else {
            assert(cur.queue@[k2] == next);
        }
    }
}

proof fn lemma_discover_parent(
    prev: Search,
    cur: Search,
    start: Seq<NodeColor>,
    from: [NodeColor; 6],
    index: usize,
    nc: usize,
    d: usize,
    d1: usize,
)
    requires
        prev.parent_ok(start),
        prev.visited@.len() == BOARD_SPACE,
        prev.depth@.len() == BOARD_SPACE,
        prev.parent@.len() == BOARD_SPACE,
        prev.pressed@.len() == BOARD_SPACE,
        0 <= nc < BOARD_SPACE,
        !prev.visited@[nc as int],
        index < 6,
        nc == board_code(press_spec(from@, index as int)),
        prev.visited@[board_code(from@)],
        prev.depth@[board_code(from@)] == d,
        cur.visited@ == prev.visited@.update(nc as int, true),
        d1 == d + 1,
        cur.depth@ == prev.depth@.update(nc as int, d1),
        cur.parent@ == prev.parent@.update(nc as int, from),
        cur.pressed@ == prev.pressed@.update(nc as int, index),
    ensures
        cur.parent_ok(start),
{
    reveal(Search::parent_ok);
    lemma_code_bound(from@);
    assert forall|c: int|
        0 <= c < BOARD_SPACE && cur.visited@[c] && c != board_code(start) implies cur.visited@[board_code(#[trigger] cur.parent@[c]@)] && board_code(
        press_spec(cur.parent@[c]@, cur.pressed@[c] as int),
    ) == c && cur.depth@[c] == cur.depth@[board_code(cur.parent@[c]@)] + 1 by {
        if c != nc {
            assert(prev.visited@[c]);
            assert(prev.parent@[c] == cur.parent@[c]);
            lemma_code_bound(prev.parent@[c]@);
            assert(prev.visited@[board_code(prev.parent@[c]@)]);
            assert(board_code(prev.parent@[c]@) != nc);
        } else {
            assert(cur.pressed@[c] == index);
            assert(cur.parent@[c] == from);
            assert(board_code(from@) != nc);
        }
    }
    assert(cur.parent_ok(start));
}

/// After one more board is discovered, what had been expanded stays expanded.
proof fn lemma_expanded_grows(prev: Search, cur: Search, head: int)
    requires
        prev.expanded(head),
        prev.queue_ok(),
        cur.grows_from(prev),
        head <= prev.queue@.len(),
        prev.visited@.len() == BOARD_SPACE,
    ensures
        cur.expanded(head),
{
    reveal(Search::expanded);
    reveal(Search::queue_ok);
    assert forall|k: int, i: int| 0 <= k < head && 0 <= i < 6 implies cur.visited@[board_code(
        #[trigger] press_spec(cur.queue@[k]@, i),
    )] && cur.depth@[board_code(press_spec(cur.queue@[k]@, i))] <= cur.depth@[slot_code(
        cur.queue@,
        k,
    )] + 1 by {
        assert(cur.queue@[k] == prev.queue@[k]);
        assert(prev.visited@[slot_code(prev.queue@, k)]);
        lemma_press_len(prev.queue@[k]@, i);
        lemma_code_bound(press_spec(prev.queue@[k]@, i));
        assert(prev.visited@[board_code(press_spec(prev.queue@[k]@, i))]);
    }
}

/// After one more board is discovered at depth `d + 1`, the presses already tried on
/// `b` still lead to visited boards, and now the next press does too.
proof fn lemma_presses_grow(prev: Search, cur: Search, b: Seq<NodeColor>, n: int, d: int)
    requires
        prev.presses_done(b, n, d),
        cur.grows_from(prev),
        prev.visited@.len() == BOARD_SPACE,
        0 <= n < 6,
        cur.visited@[board_code(press_spec(b, n))],
        cur.depth@[board_code(press_spec(b, n))] <= d + 1,
    ensures
        cur.presses_done(b, n + 1, d),
{
    reveal(Search::presses_done);
    assert forall|i: int| 0 <= i < n + 1 implies cur.visited@[board_code(
        #[trigger] press_spec(b, i),
    )] && cur.depth@[board_code(press_spec(b, i))] <= d + 1 by {
        if i < n {
            lemma_press_len(b, i);
            lemma_code_bound(press_spec(b, i));
            assert(prev.visited@[board_code(press_spec(b, i))]);
        }
    }
}

/// After one more board is queued at depth `d`, every queued board is still no deeper than `d`.
proof fn lemma_capped_grows(prev: Search, cur: Search, next: [NodeColor; 6], d: int)
    requires
        prev.depth_capped(d),
        prev.queue_ok(),
        cur.grows_from(prev),
        prev.visited@.len() == BOARD_SPACE,
        cur.queue@ == prev.queue@.push(next),
        cur.depth@[board_code(next@)] <= d,
    ensures
        cur.depth_capped(d),
{
    reveal(Search::depth_capped);
    reveal(Search::queue_ok);
    assert forall|k: int| 0 <= k < cur.queue@.len() implies cur.depth@[#[trigger] slot_code(
        cur.queue@,
        k,
    )] <= d by {
        if k < prev.queue@.len() {
            assert(cur.queue@[k] == prev.queue@[k]);
            assert(prev.visited@[slot_code(prev.queue@, k)]);
        } else {
            assert(cur.queue@[k] == next);
        }
    }
}

/// When all presses on the board at `head` have been tried, it counts as expanded;
/// and the next board in the queue is no shallower.
proof fn lemma_head_done(s: Search, head: int, d: int)
    requires
        s.expanded(head),
        s.presses_done(s.queue@[head]@, 6, d),
        s.depth_ordered(),
        0 <= head < s.queue@.len(),
        d == s.depth@[slot_code(s.queue@, head)],
        s.depth_capped(d + 1),
    ensures
        s.expanded(head + 1),
        head + 1 < s.queue@.len() ==> s.depth_capped(s.depth@[slot_code(s.queue@, head + 1)] + 1),
{
    reveal(Search::expanded);
    reveal(Search::presses_done);
    reveal(Search::depth_ordered);
    reveal(Search::depth_capped);
    assert forall|k: int, i: int| 0 <= k < head + 1 && 0 <= i < 6 implies s.visited@[board_code(
        #[trigger] press_spec(s.queue@[k]@, i),
    )] && s.depth@[board_code(press_spec(s.queue@[k]@, i))] <= s.depth@[slot_code(s.queue@, k)]
        + 1 by {
        if k == head {
            assert(s.visited@[board_code(press_spec(s.queue@[head]@, i))]);
        }
    }
    if head + 1 < s.queue@.len() {
        assert(s.depth@[slot_code(s.queue@, head)] <= s.depth@[slot_code(s.queue@, head + 1)]);
    }
}

/// Once every queued board is expanded, every board that presses reach from the
/// start is visited.
proof fn lemma_search_closed(s: Search, start: Seq<NodeColor>, q: Seq<usize>)
    requires
        s.tables(start),
        s.expanded(s.queue@.len() as int),
        forall|k: int| 0 <= k < q.len() ==> q[k] < 6,
    ensures
        s.visited@[board_code(replay(start, q))],
{
    reveal(Search::expanded);
    reveal(Search::slot_ok);
    assert forall|b: Seq<NodeColor>, i: int|
        b.len() == 6 && 0 <= i < 6 && s.visited@[board_code(b)] implies s.visited@[board_code(
        #[trigger] press_spec(b, i),
    )] by {
        lemma_code_bound(b);
        let k = s.slot@[board_code(b)] as int;
        lemma_code_injective(s.queue@[k]@, b);
        assert(press_spec(s.queue@[k]@, i) == press_spec(b, i));
    }
    lemma_replay_stays_visited(s.visited@, start, q);
}

/// While the board at `head` is being expanded, every path no longer than its depth
/// ends at a board that is already visited.
proof fn lemma_search_short_paths(s: Search, start: Seq<NodeColor>, head: int, q: Seq<usize>)
    requires
        s.tables(start),
        0 <= head < s.queue@.len(),
        s.expanded(head),
        forall|k: int| 0 <= k < q.len() ==> q[k] < 6,
        q.len() <= s.depth@[slot_code(s.queue@, head)],
    ensures
        s.visited@[board_code(replay(start, q))],
        s.depth@[board_code(replay(start, q))] <= q.len(),
{
    let cd = s.depth@[slot_code(s.queue@, head)] as int;
    reveal(Search::expanded);
    reveal(Search::slot_ok);
    reveal(Search::depth_ordered);
    assert forall|b: Seq<NodeColor>, i: int|
        b.len() == 6 && 0 <= i < 6 && s.visited@[board_code(b)] && s.depth@[board_code(b)]
            < cd implies s.visited@[board_code(#[trigger] press_spec(b, i))] && s.depth@[board_code(
        press_spec(b, i),
    )] <= s.depth@[board_code(b)] + 1 by {
        let c = board_code(b);
        lemma_code_bound(b);
        let k = s.slot@[c] as int;
        lemma_code_injective(s.queue@[k]@, b);
        if k >= head {
            assert(s.depth@[slot_code(s.queue@, head)] <= s.depth@[slot_code(s.queue@, k)]);
        }
        assert(press_spec(s.queue@[k]@, i) == press_spec(b, i));
    }
    lemma_short_paths_visited(s.visited@, s.depth@, start, q, cd);
}

/// While the board at `head` is being expanded, a board not yet visited lies more
/// presses away from the start than the depth of that board.
proof fn lemma_unvisited_far(s: Search, start: Seq<NodeColor>, goal: Seq<NodeColor>, head: int)
    requires
        s.tables(start),
        0 <= head < s.queue@.len(),
        s.expanded(head),
        goal.len() == 6,
        !s.visited@[board_code(goal)],
    ensures
        forall|q: Seq<usize>|
            is_path(start, goal, q) ==> s.depth@[slot_code(s.queue@, head)] + 1 <= q.len(),
{
    assert forall|q: Seq<usize>| is_path(start, goal, q) implies s.depth@[slot_code(s.queue@, head)]
        + 1 <= q.len() by {
        if q.len() <= s.depth@[slot_code(s.queue@, head)] {
            lemma_search_short_paths(s, start, head, q);
        }
    }
}

/// A press that leads to a board already visited counts as tried.
proof fn lemma_press_seen(s: Search, b: Seq<NodeColor>, n: int, d: int)
    requires
        s.visited@.len() == BOARD_SPACE,
        s.queue_ok(),
        s.slot_ok(),
        s.depth_capped(d + 1),
        s.presses_done(b, n, d),
        0 <= n < 6,
        s.visited@[board_code(press_spec(b, n))],
    ensures
        s.presses_done(b, n + 1, d),
{
    reveal(Search::presses_done);
    reveal(Search::queue_ok);
    reveal(Search::slot_ok);
    reveal(Search::depth_capped);
    lemma_press_len(b, n);
    lemma_code_bound(press_spec(b, n));
    let nc = board_code(press_spec(b, n));
    let k = s.slot@[nc] as int;
    assert(slot_code(s.queue@, k) == nc);
}

/// While the board at `head` is being expanded, the path that reaches a new board by
/// press `index` is the first in dictionary order among the shortest paths to it.
proof fn lemma_least_new(s: Search, start: Seq<NodeColor>, head: int, index: usize)
    requires
        s.tables(start),
        0 <= head < s.queue@.len(),
        s.expanded(head),
        index < 6,
        s.presses_done(s.queue@[head]@, index as int, s.depth@[slot_code(s.queue@, head)] as int),
        s.paths_ok(start),
        s.layers_ordered(),
        !s.visited@[board_code(press_spec(s.queue@[head]@, index as int))],
    ensures
        least_among(
            start,
            press_spec(s.queue@[head]@, index as int),
            s.paths@[head].push(index),
        ),
{
    let cur = s.queue@[head]@;
    let next = press_spec(cur, index as int);
    let cd = s.depth@[slot_code(s.queue@, head)];
    let hp = s.paths@[head];
    let pp = hp.push(index);
    reveal(Search::paths_ok);
    lemma_press_len(cur, index as int);
    lemma_unvisited_far(s, start, next, head);
    assert(hp.len() == cd);
    assert forall|q: Seq<usize>| is_path(start, next, q) implies pp.len() <= q.len() && (q.len()
        == pp.len() ==> lex_le(pp, q)) by {
        if q.len() == pp.len() {
            let q1 = q.drop_last();
            let j = q.last();
            assert(q1.push(j) =~= q);
            assert(q[q.len() - 1] < 6);
            lemma_replay_push(start, q1, j);
            lemma_replay_len(start, q1);
            let u = replay(start, q1);
            assert forall|k: int| 0 <= k < q1.len() implies q1[k] < 6 by {
                assert(q1[k] == q[k]);
            }
            lemma_search_short_paths(s, start, head, q1);
            lemma_code_bound(u);
            reveal(Search::slot_ok);
            reveal(Search::queue_ok);
            let ku = s.slot@[board_code(u)] as int;
            lemma_code_injective(s.queue@[ku]@, u);
            assert(is_path(start, u, q1));
            assert(press_spec(u, j as int) == next);
            if ku < head {
                reveal(Search::expanded);
                assert(press_spec(s.queue@[ku]@, j as int) == next);
                assert(s.visited@[board_code(press_spec(s.queue@[ku]@, j as int))]);
            } else if ku == head {
                if j < index {
                    reveal(Search::presses_done);
                    assert(s.visited@[board_code(press_spec(cur, j as int))]);
                }
                assert(lex_le(hp, q1));
                if hp == q1 && j == index {
                    assert(pp =~= q);
                } else {
                    lemma_lex_push(hp, q1, index, j);
                }
            } else {
                reveal(Search::depth_ordered);
                reveal(Search::layers_ordered);
                assert(s.depth@[slot_code(s.queue@, head)] <= s.depth@[slot_code(s.queue@, ku)]);
                assert(s.paths@[ku].len() == cd);
                assert(lex_lt(s.paths@[head], s.paths@[ku]));
                assert(lex_le(s.paths@[ku], q1));
                lemma_lex_lt_le(hp, s.paths@[ku], q1);
                lemma_lex_push(hp, q1, index, j);
            }
        }
    }
}

/// After a new board is discovered from the board at `head` by press `index` and its
/// path recorded, the path invariants still hold, and the next press's path bounds
/// the next layer.
proof fn lemma_after_discover(
    pre: Search,
    post: Search,
    start: Seq<NodeColor>,
    head: int,
    index: usize,
    next: [NodeColor; 6],
    nc: usize,
)
    requires
        pre.tables(start),
        post.tables(start),
        0 <= head < pre.queue@.len(),
        index < 6,
        pre.paths_ok(start),
        pre.links_ok(start),
        pre.layers_ordered(),
        pre.next_below(pre.paths@[head].push(index)),
        least_among(start, next@, pre.paths@[head].push(index)),
        next@ == press_spec(pre.queue@[head]@, index as int),
        nc == board_code(next@),
        !pre.visited@[nc as int],
        post.visited@ == pre.visited@.update(nc as int, true),
        post.depth@ == pre.depth@.update(nc as int, (pre.depth@[slot_code(pre.queue@, head)] + 1) as usize),
        post.slot@ == pre.slot@.update(nc as int, pre.queue@.len() as usize),
        post.parent@ == pre.parent@.update(nc as int, pre.queue@[head]),
        post.pressed@ == pre.pressed@.update(nc as int, index),
        post.queue@ == pre.queue@.push(next),
        post.paths@ == pre.paths@.push(pre.paths@[head].push(index)),
    ensures
        post.paths_ok(start),
        post.links_ok(start),
        post.layers_ordered(),
        post.next_below(pre.paths@[head].push((index + 1) as usize)),
{
    reveal(Search::paths_ok);
    reveal(Search::links_ok);
    reveal(Search::layers_ordered);
    reveal(Search::next_below);
    reveal(Search::queue_ok);
    reveal(Search::slot_ok);
    reveal(Search::parent_ok);
    let hp = pre.paths@[head];
    let pp = hp.push(index);
    let p2 = hp.push((index + 1) as usize);
    let ql = pre.queue@.len() as int;
    let from = pre.queue@[head];
    let fc = slot_code(pre.queue@, head);
    assert(pre.visited@[fc]);
    assert(pre.slot@[fc] == head);
    lemma_replay_push(start, hp, index);
    assert(replay(start, hp) == from@);
    assert(post.queue@[ql] == next);
    assert forall|k: int| 0 <= k < post.queue@.len() implies is_path(start, post.queue@[k]@, #[trigger] post.paths@[k])
        && post.paths@[k].len() == post.depth@[slot_code(post.queue@, k)] && least_among(
        start,
        post.queue@[k]@,
        post.paths@[k],
    ) by {
        if k < ql {
            assert(post.queue@[k] == pre.queue@[k]);
            assert(post.paths@[k] == pre.paths@[k]);
            assert(pre.visited@[slot_code(pre.queue@, k)]);
        } else {
            assert(post.paths@[k] == pp);
            assert(is_path(start, next@, pp)) by {
                assert forall|m: int| 0 <= m < pp.len() implies pp[m] < 6 by {
                    if m < hp.len() {
                        assert(pp[m] == hp[m]);
                    }
                }
            }
        }
    }
    assert forall|c: int|
        0 <= c < BOARD_SPACE && post.visited@[c] && c != board_code(start) implies post.paths@[post.slot@[c] as int]
        == post.paths@[post.slot@[board_code(#[trigger] post.parent@[c]@) as int] as int].push(
        post.pressed@[c],
    ) by {
        if c == nc {
            assert(post.parent@[c] == from);
            assert(fc != nc);
            assert(post.slot@[fc] == head);
            assert(post.paths@[head] == hp);
            assert(post.paths@[ql] == pp);
        } else {
            assert(pre.visited@[c]);
            assert(pre.parent@[c] == post.parent@[c]);
            lemma_code_bound(pre.parent@[c]@);
            let pc = board_code(pre.parent@[c]@);
            assert(pre.visited@[pc]);
            assert(pc != nc);
            assert(pre.slot@[c] < ql);
            assert(pre.slot@[pc] < ql);
        }
    }
    lemma_lex_push(hp, hp, index, (index + 1) as usize);
    assert forall|k1: int, k2: int|
        0 <= k1 < k2 < post.queue@.len() && (#[trigger] post.paths@[k1]).len()
            == (#[trigger] post.paths@[k2]).len() implies lex_lt(post.paths@[k1], post.paths@[k2]) by {
        assert(post.paths@[k1] == pre.paths@[k1]);
        if k2 < ql {
            assert(post.paths@[k2] == pre.paths@[k2]);
        } else {
            assert(post.paths@[k2] == pp);
            assert(lex_lt(pre.paths@[k1], pp));
        }
    }
    assert forall|k: int|
        0 <= k < post.queue@.len() && (#[trigger] post.paths@[k]).len() == p2.len() implies lex_lt(
        post.paths@[k],
        p2,
    ) by {
        if k < ql {
            assert(post.paths@[k] == pre.paths@[k]);
            assert(lex_lt(pre.paths@[k], pp));
            lemma_lex_trans(pre.paths@[k], pp, p2);
        } else {
            assert(post.paths@[k] == pp);
        }
    }
}

/// A press that finds its board already visited moves the bound of the next layer on.
proof fn lemma_next_below_step(s: Search, hp: Seq<usize>, index: usize)
    requires
        s.next_below(hp.push(index)),
        index < 6,
    ensures
        s.next_below(hp.push((index + 1) as usize)),
{
    reveal(Search::next_below);
    lemma_lex_push(hp, hp, index, (index + 1) as usize);
    assert forall|k: int|
        0 <= k < s.queue@.len() && (#[trigger] s.paths@[k]).len() == hp.push((index + 1) as usize).len()
            implies lex_lt(s.paths@[k], hp.push((index + 1) as usize)) by {
        lemma_lex_trans(s.paths@[k], hp.push(index), hp.push((index + 1) as usize));
    }
}

/// Once the board at `head` is expanded, the next board's path bounds the next layer.
proof fn lemma_next_head(s: Search, start: Seq<NodeColor>, head: int, cd: int)
    requires
        s.tables(start),
        s.paths_ok(start),
        s.layers_ordered(),
        0 <= head,
        head + 1 < s.queue@.len(),
        cd == s.depth@[slot_code(s.queue@, head)],
        s.depth_capped(cd + 1),
        s.next_below(s.paths@[head].push(6)),
    ensures
        s.next_below(s.paths@[head + 1].push(0)),
{
    reveal(Search::next_below);
    reveal(Search::paths_ok);
    reveal(Search::layers_ordered);
    reveal(Search::depth_ordered);
    reveal(Search::depth_capped);
    let hp = s.paths@[head];
    let np = s.paths@[head + 1];
    assert(s.depth@[slot_code(s.queue@, head)] <= s.depth@[slot_code(s.queue@, head + 1)]);
    assert forall|k: int|
        0 <= k < s.queue@.len() && (#[trigger] s.paths@[k]).len() == np.push(0).len() implies lex_lt(
        s.paths@[k],
        np.push(0),
    ) by {
        assert(s.depth@[slot_code(s.queue@, k)] <= cd + 1);
        assert(np.len() == cd);
        assert(lex_lt(hp, np));
        assert(lex_lt(s.paths@[k], hp.push(6)));
        lemma_lex_next_layer(s.paths@[k], hp, np, 6, 0);
    }
}

/// The path recorded for a visited board is the first in dictionary order among the
/// shortest paths to it.
proof fn lemma_recorded_least(s: Search, start: Seq<NodeColor>, g: Seq<NodeColor>)
    requires
        s.tables(start),
        s.paths_ok(start),
        g.len() == 6,
        s.visited@[board_code(g)],
    ensures
        is_least_shortest_path(start, g, s.paths@[s.slot@[board_code(g)] as int]),
{
    reveal(Search::paths_ok);
    reveal(Search::slot_ok);
    lemma_code_bound(g);
    let k = s.slot@[board_code(g)] as int;
    assert(slot_code(s.queue@, k) == board_code(g));
    lemma_code_injective(s.queue@[k]@, g);
    let p = s.paths@[k];
    assert(least_among(start, g, p));
    assert(is_path(start, g, p));
}

/// Breadth-first search for a shortest sequence of presses from `start` to `goal`.
/// Neighbours are tried in index order and boards are marked when first discovered,
/// so the path returned is the same on every run. `None` means that `goal` cannot be
/// reached from `start`.
pub fn shortest_solution(start: [NodeColor; 6], goal: [NodeColor; 6]) -> (r: Option<Vec<usize>>)
    ensures
        r is Some <==> reachable(start@, goal@),
        r matches Some(p) ==> is_least_shortest_path(start@, goal@, p@) && p@.len() < BOARD_SPACE,
        start@ == goal@ ==> (r matches Some(p) && p@.len() == 0),
{
    if same_board(&start, &goal) {
        let empty: Vec<usize> = Vec::new();
        proof {
            assert(is_path(start@, goal@, empty@));
            assert forall|q: Seq<usize>| is_path(start@, goal@, q) && q.len() == 0 implies lex_le(
                empty@,
                q,
            ) by {
                assert(q =~= empty@);
            }
        }
        return Some(empty);
    }
    let mut search = Search::new(start);
    let ghost gc = board_code(goal@);
    proof {
        lemma_code_bound(goal@);
        if gc == board_code(start@) {
            lemma_code_injective(start@, goal@);
        }
        reveal(Search::depth_capped);
        reveal(Search::queue_ok);
        assert(slot_code(search.queue@, 0) == board_code(start@));
    }
    let mut head: usize = 0;
    while head < search.queue.len()
        invariant
            search.tables(start@),
            0 <= gc < BOARD_SPACE,
            gc == board_code(goal@),
            start@ != goal@,
            head <= search.queue@.len(),
            !search.visited@[gc],
            search.expanded(head as int),
            head < search.queue@.len() ==> search.depth_capped(
                search.depth@[slot_code(search.queue@, head as int)] + 1,
            ),
            search.paths_ok(start@),
            search.links_ok(start@),
            search.layers_ordered(),
            head < search.queue@.len() ==> search.next_below(search.paths@[head as int].push(0)),
        decreases BOARD_SPACE - head,
    {
        let current = search.queue[head];
        let cc = encode(&current);
        let cd = search.depth[cc];
        proof {
            reveal(Search::queue_ok);
            reveal(Search::presses_done);
            assert(slot_code(search.queue@, head as int) == cc);
        }
        let ghost hp = search.paths@[head as int];
        let mut index: usize = 0;
        while index < INDICATOR_COUNT
            invariant
                search.tables(start@),
                0 <= gc < BOARD_SPACE,
                gc == board_code(goal@),
                start@ != goal@,
                index <= 6,
                head < search.queue@.len(),
                search.queue@[head as int] == current,
                cc == board_code(current@),
                cc == slot_code(search.queue@, head as int),
                cd == search.depth@[cc as int],
                cd <= head,
                search.visited@[cc as int],
                !search.visited@[gc],
                search.expanded(head as int),
                search.depth_capped(cd + 1),
                search.presses_done(current@, index as int, cd as int),
                search.paths_ok(start@),
                search.links_ok(start@),
                search.layers_ordered(),
                search.next_below(search.paths@[head as int].push(index)),
                hp == search.paths@[head as int],
            decreases 6 - index,
        {
            let next = press_indicator(current, index);
            let nc = encode(&next);
            proof {
                lemma_press_len(current@, index as int);
            }
            if !search.visited[nc] {
                let found = same_board(&next, &goal);
                if found {
                    proof {
                        lemma_unvisited_far(search, start@, goal@, head as int);
                    }
                } else {
                    proof {
                        if nc as int == gc {
                            lemma_code_injective(next@, goal@);
                        }
                    }
                }
                proof {
                    lemma_least_new(search, start@, head as int, index);
                }
                let ghost prev = search;
                search.discover(Ghost(start@), current, cd, index, next, nc, Ghost(hp.push(index)));
                proof {
                    lemma_after_discover(prev, search, start@, head as int, index, next, nc);
                    lemma_expanded_grows(prev, search, head as int);
                    lemma_presses_grow(prev, search, current@, index as int, cd as int);
                    lemma_capped_grows(prev, search, next, cd + 1);
                    assert(search.queue@[head as int] == prev.queue@[head as int]);
                    assert(prev.visited@[cc as int]);
                    reveal(Search::queue_ok);
                    assert(slot_code(search.queue@, head as int) == cc);
                }
                if found {
                    let path = reconstruct_moves(start, goal, &search);
                    proof {
                        lemma_recorded_least(search, start@, goal@);
                    }
                    return Some(path);
                }
            } else {
                proof {
                    lemma_press_seen(search, current@, index as int, cd as int);
                    lemma_next_below_step(search, hp, index);
                }
            }
            index = index + 1;
        }
        proof {
            lemma_head_done(search, head as int, cd as int);
            if head + 1 < search.queue@.len() {
                lemma_next_head(search, start@, head as int, cd as int);
            }
        }
        head = head + 1;
    }
    proof {
        assert forall|q: Seq<usize>| !is_path(start@, goal@, q) by {
            if forall|k: int| 0 <= k < q.len() ==> q[k] < 6 {
                lemma_search_closed(search, start@, q);
            }
        }
    }
    None
}

/// Walks the recorded predecessors back from `goal` to `start` and returns the presses
/// in the order they are made: the path recorded for `goal`.
fn reconstruct_moves(start: [NodeColor; 6], goal: [NodeColor; 6], search: &Search) -> (r: Vec<
    usize,
>)
    requires
        search.tables(start@),
        search.paths_ok(start@),
        search.links_ok(start@),
        search.visited@[board_code(goal@)],
    ensures
        r@ == search.paths@[search.slot@[board_code(goal@)] as int],
        is_path(start@, goal@, r@),
        r@.len() == search.depth@[board_code(goal@)],
        r@.len() < BOARD_SPACE,
{
    let ghost gk = search.slot@[board_code(goal@)] as int;
    let ghost g = search.paths@[gk];
    let mut cursor = goal;
    let mut backwards: Vec<usize> = Vec::new();
    let ghost mut suffix: Seq<usize> = Seq::empty();
    proof {
        reveal(Search::queue_ok);
        reveal(Search::slot_ok);
        reveal(Search::paths_ok);
        lemma_code_bound(goal@);
        assert(slot_code(search.queue@, gk) == board_code(goal@));
        lemma_code_injective(search.queue@[gk]@, goal@);
        assert(search.visited@[slot_code(search.queue@, gk)]);
        assert(g.take(g.len() as int) =~= g);
        assert(g.skip(g.len() as int) =~= suffix);
    }
    while !same_board(&cursor, &start)
        invariant
            search.tables(start@),
            search.paths_ok(start@),
            search.links_ok(start@),
            0 <= gk < search.queue@.len(),
            g == search.paths@[gk],
            search.visited@[board_code(cursor@)],
            search.paths@[search.slot@[board_code(cursor@)] as int].len() <= g.len(),
            g.take(search.paths@[search.slot@[board_code(cursor@)] as int].len() as int)
                == search.paths@[search.slot@[board_code(cursor@)] as int],
            suffix == g.skip(search.paths@[search.slot@[board_code(cursor@)] as int].len() as int),
            backwards@.len() == suffix.len(),
            forall|j: int| 0 <= j < suffix.len() ==> backwards@[j] == suffix[suffix.len() - 1 - j],
        decreases search.depth@[board_code(cursor@)],
    {
        let c = encode(&cursor);
        let ghost pc = search.paths@[search.slot@[c as int] as int];
        proof {
            if c as int == board_code(start@) {
                lemma_code_injective(cursor@, start@);
            }
            reveal(Search::parent_ok);
            reveal(Search::links_ok);
        }
        let previous = search.parent[c];
        let p = search.pressed[c];
        proof {
            lemma_code_bound(previous@);
            let pk = search.slot@[board_code(previous@)] as int;
            let pp = search.paths@[pk];
            assert(pc == pp.push(p));
            reveal(Search::paths_ok);
            reveal(Search::slot_ok);
            let ck = search.slot@[c as int] as int;
            assert(slot_code(search.queue@, ck) == c);
            assert(slot_code(search.queue@, pk) == board_code(previous@));
            assert(pc.len() == search.depth@[c as int]);
            assert(pp.len() == search.depth@[board_code(previous@)]);
            let n = pc.len() as int;
            assert(g.take(n - 1) =~= pc.take(n - 1));
            assert(pc.take(n - 1) =~= pp);
            assert(g[n - 1] == pc[n - 1]);
            let ns = seq![p].add(suffix);
            assert(ns =~= g.skip(n - 1));
            suffix = ns;
        }
        backwards.push(p);
        cursor = previous;
    }
    proof {
        lemma_code_injective(cursor@, start@);
        reveal(Search::paths_ok);
        reveal(Search::slot_ok);
        let sk = search.slot@[board_code(start@)] as int;
        assert(slot_code(search.queue@, sk) == board_code(start@));
        assert(search.paths@[sk].len() == 0);
        assert(suffix =~= g);
        reveal(Search::queue_ok);
        assert(search.depth@[slot_code(search.queue@, gk)] <= gk);
    }
    let mut path: Vec<usize> = Vec::new();
    let mut j: usize = backwards.len();
    while j > 0
        invariant
            j <= backwards@.len(),
            backwards@.len() == suffix.len(),
            forall|k: int| 0 <= k < suffix.len() ==> backwards@[k] == suffix[suffix.len() - 1 - k],
            path@.len() == backwards@.len() - j,
            forall|k: int| 0 <= k < path@.len() ==> path@[k] == suffix[k],
        decreases j,
    {
        j = j - 1;
        path.push(backwards[j]);
    }
    assert(path@ =~= suffix);
    path
}

} // verus!
