//! Walks through a set of directed connections, and what adding one connection
//! does to them.

use vstd::prelude::*;

verus! {

/// A directed connection: audio flows from the first node to the second.
pub type Edge = (usize, usize);

/// `walk` is a sequence of at least one node in which every node is connected
/// to the one after it.
pub open spec fn is_walk(edges: Set<Edge>, walk: Seq<usize>) -> bool {
    &&& walk.len() > 0
    &&& forall|i: int| 0 <= i < walk.len() - 1 ==> edges.contains((#[trigger] walk[i], walk[i + 1]))
}

/// Audio leaving `from` can arrive at `to`: a walk leads from one to the other.
/// Every node reaches itself.
pub open spec fn reaches(edges: Set<Edge>, from: usize, to: usize) -> bool {
    exists|walk: Seq<usize>| #[trigger] is_walk(edges, walk) && walk[0] == from && walk.last() == to
}

/// No connection is closed into a loop by a walk back from its end to its
/// start.
pub open spec fn acyclic(edges: Set<Edge>) -> bool {
    forall|a: usize, b: usize| #[trigger] edges.contains((a, b)) ==> !reaches(edges, b, a)
}

/// Every node reaches itself.
pub proof fn lemma_reaches_self(edges: Set<Edge>, a: usize)
    ensures
        reaches(edges, a, a),
{
    let walk = seq![a];
    assert(is_walk(edges, walk));
    assert(walk[0] == a && walk.last() == a);
}

/// A walk can be continued along one more connection.
pub proof fn lemma_reaches_then_edge(edges: Set<Edge>, a: usize, b: usize, c: usize)
    requires
        reaches(edges, a, b),
        edges.contains((b, c)),
    ensures
        reaches(edges, a, c),
{
    let w = choose|w: Seq<usize>| #[trigger] is_walk(edges, w) && w[0] == a && w.last() == b;
    let walk = w.push(c);
    assert forall|i: int| 0 <= i < walk.len() - 1 implies edges.contains(
        (#[trigger] walk[i], walk[i + 1]),
    ) by {
        if i < w.len() - 1 {
            assert(walk[i] == w[i] && walk[i + 1] == w[i + 1]);
        }
    }
    assert(is_walk(edges, walk));
    assert(walk[0] == a && walk.last() == c);
}

/// A walk can be entered through one more connection.
pub proof fn lemma_edge_then_reaches(edges: Set<Edge>, a: usize, b: usize, c: usize)
    requires
        edges.contains((a, b)),
        reaches(edges, b, c),
    ensures
        reaches(edges, a, c),
{
    let w = choose|w: Seq<usize>| #[trigger] is_walk(edges, w) && w[0] == b && w.last() == c;
    let walk = seq![a] + w;
    assert forall|i: int| 0 <= i < walk.len() - 1 implies edges.contains(
        (#[trigger] walk[i], walk[i + 1]),
    ) by {
        if i > 0 {
            assert(walk[i] == w[i - 1] && walk[i + 1] == w[i]);
        }
    }
    assert(is_walk(edges, walk));
    assert(walk[0] == a && walk.last() == c);
}

/// Two walks that meet make one walk.
pub proof fn lemma_reaches_transitive(edges: Set<Edge>, a: usize, b: usize, c: usize)
    requires
        reaches(edges, a, b),
        reaches(edges, b, c),
    ensures
        reaches(edges, a, c),
{
    let w = choose|w: Seq<usize>| #[trigger] is_walk(edges, w) && w[0] == b && w.last() == c;
    lemma_walk_after(edges, a, w, w.len() - 1);
}

/// Whoever reaches the start of a walk reaches each of its nodes.
proof fn lemma_walk_after(edges: Set<Edge>, a: usize, walk: Seq<usize>, i: int)
    requires
        is_walk(edges, walk),
        reaches(edges, a, walk[0]),
        0 <= i < walk.len(),
    ensures
        reaches(edges, a, walk[i]),
    decreases i,
{
    if i > 0 {
        lemma_walk_after(edges, a, walk, i - 1);
        assert(edges.contains((walk[i - 1], walk[i - 1 + 1])));
        lemma_reaches_then_edge(edges, a, walk[i - 1], walk[i]);
    }
}

/// More connections never take a walk away.
pub proof fn lemma_reaches_monotone(small: Set<Edge>, large: Set<Edge>, a: usize, b: usize)
    requires
        small.subset_of(large),
        reaches(small, a, b),
    ensures
        reaches(large, a, b),
{
    let w = choose|w: Seq<usize>| #[trigger] is_walk(small, w) && w[0] == a && w.last() == b;
    assert forall|i: int| 0 <= i < w.len() - 1 implies large.contains((#[trigger] w[i], w[i + 1])) by {
        assert(small.contains((w[i], w[i + 1])));
    }
    assert(is_walk(large, w));
}

/// A walk through the connections with `(up, down)` added either avoids the
/// new connection up to its node `i`, or has met `up` on the way there without
/// using it.
proof fn lemma_walk_before_new_edge(
    edges: Set<Edge>,
    up: usize,
    down: usize,
    walk: Seq<usize>,
    i: int,
)
    requires
        is_walk(edges.insert((up, down)), walk),
        0 <= i < walk.len(),
    ensures
        reaches(edges, walk[0], walk[i]) || reaches(edges, walk[0], up),
    decreases i,
{
    if i == 0 {
        lemma_reaches_self(edges, walk[0]);
    } else {
        lemma_walk_before_new_edge(edges, up, down, walk, i - 1);
        if !reaches(edges, walk[0], up) {
            assert(edges.insert((up, down)).contains((walk[i - 1], walk[i - 1 + 1])));
            if edges.contains((walk[i - 1], walk[i])) {
                lemma_reaches_then_edge(edges, walk[0], walk[i - 1], walk[i]);
            } else {
                assert(walk[i - 1] == up);
            }
        }
    }
}

/// With `(up, down)` added, whatever reaches `to` either did so before, or
/// `down` did.
proof fn lemma_walk_after_new_edge(
    edges: Set<Edge>,
    up: usize,
    down: usize,
    walk: Seq<usize>,
    i: int,
)
    requires
        is_walk(edges.insert((up, down)), walk),
        0 <= i < walk.len(),
    ensures
        reaches(edges, walk[i], walk.last()) || reaches(edges, down, walk.last()),
    decreases walk.len() - i,
{
    if i == walk.len() - 1 {
        lemma_reaches_self(edges, walk[i]);
    } else {
        lemma_walk_after_new_edge(edges, up, down, walk, i + 1);
        if !reaches(edges, down, walk.last()) {
            assert(edges.insert((up, down)).contains((walk[i], walk[i + 1])));
            if edges.contains((walk[i], walk[i + 1])) {
                lemma_edge_then_reaches(edges, walk[i], walk[i + 1], walk.last());
            } else {
                assert(walk[i + 1] == down);
            }
        }
    }
}

/// Adding a connection to connections without a loop makes a loop exactly when
/// the new connection's end already reaches its start.
pub proof fn lemma_new_edge_closes_loop(edges: Set<Edge>, up: usize, down: usize)
    requires
        acyclic(edges),
    ensures
        acyclic(edges.insert((up, down))) <==> !reaches(edges, down, up),
{
    let more = edges.insert((up, down));
    if reaches(edges, down, up) {
        lemma_reaches_monotone(edges, more, down, up);
        assert(more.contains((up, down)));
    } else {
        assert forall|a: usize, b: usize| #[trigger] more.contains((a, b)) implies !reaches(
            more,
            b,
            a,
        ) by {
            if reaches(more, b, a) {
                let w = choose|w: Seq<usize>| #[trigger]
                    is_walk(more, w) && w[0] == b && w.last() == a;
                lemma_walk_before_new_edge(edges, up, down, w, w.len() - 1);
                lemma_walk_after_new_edge(edges, up, down, w, 0);
                if (a, b) == (up, down) {
                    // the walk leads from `down` to `up`
                } else {
                    assert(edges.contains((a, b)));
                    // `b` does not reach `a` without the new connection, so it
                    // reaches `up`, and `down` reaches `a`
                    lemma_reaches_then_edge(edges, down, a, b);
                    lemma_reaches_transitive(edges, down, b, up);
                }
            }
        }
    }
}

/// A walk between two different nodes ends with a connection into the second.
pub proof fn lemma_reaches_enters(edges: Set<Edge>, from: usize, to: usize)
    requires
        reaches(edges, from, to),
        from != to,
    ensures
        exists|via: usize| #[trigger] edges.contains((via, to)) && reaches(edges, from, via),
{
    let w = choose|w: Seq<usize>| #[trigger] is_walk(edges, w) && w[0] == from && w.last() == to;
    let head = w.drop_last();
    let via = head.last();
    assert forall|i: int| 0 <= i < head.len() - 1 implies edges.contains(
        (#[trigger] head[i], head[i + 1]),
    ) by {
        assert(head[i] == w[i] && head[i + 1] == w[i + 1]);
    }
    assert(is_walk(edges, head));
    assert(head[0] == from);
    assert(edges.contains((w[w.len() - 2], w[w.len() - 2 + 1])));
    assert(edges.contains((via, to)));
}

} // verus!
