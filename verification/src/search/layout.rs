//! How the graph mirrors the stack of a search, and why each move of the
//! search keeps it so.

use super::graph::{with_edge, without, without_last};
use vstd::prelude::*;

verus! {

/// The indices `hi`, `hi - 1`, down to `lo + 1`.
pub open spec fn descending(lo: int, hi: int) -> Seq<usize> {
    Seq::new(
        if hi > lo {
            (hi - lo) as nat
        } else {
            0nat
        },
        |k: int| (hi - k) as usize,
    )
}

/// Whether node `j` has exactly one incoming edge, from node `i`.
pub open spec fn sole_parent(nodes: Seq<(usize, Seq<usize>, Seq<usize>)>, i: int, j: int) -> bool {
    nodes[j].2 == seq![i as usize]
}

/// The spine starts at the root, rises, and ends below `n`.
pub open spec fn spine_fits(spine: Seq<int>, n: int) -> bool {
    &&& spine.len() >= 1
    &&& spine[0] == 0
    &&& forall|t: int, u: int|
        0 <= t < u < spine.len() ==> #[trigger] spine[t] < #[trigger] spine[u]
    &&& spine.last() < n
}

/// Every node but the root hangs by one edge from the spine entry below it.
pub open spec fn parents_fit(nodes: Seq<(usize, Seq<usize>, Seq<usize>)>, n: int, spine: Seq<int>) -> bool {
    &&& nodes[0].2 == Seq::<usize>::empty()
    &&& forall|t: int, j: int|
        0 <= t < spine.len() - 1 && spine[t] < j <= spine[t + 1] ==> #[trigger] sole_parent(
            nodes,
            spine[t],
            j,
        )
    &&& forall|j: int| spine.last() < j < n ==> #[trigger] sole_parent(nodes, spine.last(), j)
}

/// A spine entry lists the nodes between it and the next spine entry from
/// the highest down; the last one lists all nodes above it; no other node
/// has a child.
pub open spec fn children_fit(nodes: Seq<(usize, Seq<usize>, Seq<usize>)>, n: int, spine: Seq<int>) -> bool {
    &&& forall|t: int|
        0 <= t < spine.len() - 1 ==> nodes[#[trigger] spine[t]].1 == descending(
            spine[t],
            spine[t + 1],
        )
    &&& nodes[spine.last()].1 == descending(spine.last(), n - 1)
    &&& forall|i: int|
        0 <= i < n && !spine.contains(i) ==> (#[trigger] nodes[i]).1 == Seq::<usize>::empty()
}

/// The graph with these `nodes` mirrors a stack of `n` states with this
/// `spine`: node `i` stands for the state at position `i` and the edges are
/// those from each spine entry to its children.
pub open spec fn mirrors(nodes: Seq<(usize, Seq<usize>, Seq<usize>)>, n: int, spine: Seq<int>) -> bool {
    &&& spine_fits(spine, n)
    &&& n <= usize::MAX
    &&& nodes.len() == n
    &&& forall|i: int| 0 <= i < n ==> (#[trigger] nodes[i]).0 == i
    &&& parents_fit(nodes, n, spine)
    &&& children_fit(nodes, n, spine)
}

/// Removing a value that does not occur changes nothing.
pub proof fn lemma_without_absent(list: Seq<usize>, a: usize)
    requires
        forall|i: int| 0 <= i < list.len() ==> list[i] != a,
    ensures
        without(list, a) == list,
    decreases list.len(),
{
    if list.len() > 0 {
        lemma_without_absent(list.drop_first(), a);
    }
}

/// Removing the top of a descending range leaves the range below it.
pub proof fn lemma_without_top(lo: int, hi: int)
    requires
        0 <= lo < hi <= usize::MAX,
    ensures
        without(descending(lo, hi), hi as usize) == descending(lo, hi - 1),
{
    let list = descending(lo, hi);
    assert(list.drop_first() =~= descending(lo, hi - 1));
    lemma_without_absent(descending(lo, hi - 1), hi as usize);
}

/// The cursor's parent is the spine entry before it; the root has none.
pub proof fn lemma_parent(nodes: Seq<(usize, Seq<usize>, Seq<usize>)>, n: int, spine: Seq<int>)
    requires
        mirrors(nodes, n, spine),
    ensures
        spine.len() > 1 ==> nodes[spine.last()].2.len() > 0 && nodes[spine.last()].2[0]
            == spine[spine.len() - 2],
        spine.len() == 1 ==> nodes[spine.last()].2.len() == 0 && spine.last() == 0,
{
    let k = spine.len() - 1;
    if k > 0 {
        assert(sole_parent(nodes, spine[k - 1], spine[k]));
    }
}

/// Linking a new node under the cursor keeps the mirror.
pub proof fn lemma_link(nodes: Seq<(usize, Seq<usize>, Seq<usize>)>, n: int, spine: Seq<int>)
    requires
        mirrors(nodes, n, spine),
        n < usize::MAX,
    ensures
        mirrors(
            with_edge(
                nodes.push((n as usize, Seq::empty(), Seq::empty())),
                spine.last() as usize,
                n as usize,
            ),
            n + 1,
            spine,
        ),
{
    let c = spine.last();
    let grown = nodes.push((n as usize, Seq::empty(), Seq::empty()));
    let linked = with_edge(grown, c as usize, n as usize);
    assert(linked[c].1 =~= descending(c, n));
    assert(parents_fit(linked, n + 1, spine)) by {
        assert forall|t: int, j: int|
            0 <= t < spine.len() - 1 && spine[t] < j <= spine[t + 1] implies #[trigger] sole_parent(
            linked,
            spine[t],
            j,
        ) by {
            assert(sole_parent(nodes, spine[t], j));
        }
        assert forall|j: int| c < j < n + 1 implies #[trigger] sole_parent(linked, c, j) by {
            if j < n {
                assert(sole_parent(nodes, c, j));
            }
        }
    }
}

/// Moving the cursor to its newest child keeps the mirror.
pub proof fn lemma_descend(nodes: Seq<(usize, Seq<usize>, Seq<usize>)>, n: int, spine: Seq<int>)
    requires
        mirrors(nodes, n, spine),
        spine.last() + 1 < n,
    ensures
        mirrors(nodes, n, spine.push(n - 1)),
{
    let longer = spine.push(n - 1);
    assert(children_fit(nodes, n, longer)) by {
        assert(descending(n - 1, n - 1) =~= Seq::<usize>::empty());
        assert forall|i: int| 0 <= i < n && !longer.contains(i) implies (#[trigger] nodes[i]).1
            == Seq::<usize>::empty() by {
            if spine.contains(i) {
                let t = choose|t: int| 0 <= t < spine.len() && spine[t] == i;
                assert(longer[t] == i);
            }
        }
    }
}

/// Dropping the cursor, when it is the top of the stack, and going back to
/// its parent keeps the mirror.
pub proof fn lemma_retreat(nodes: Seq<(usize, Seq<usize>, Seq<usize>)>, n: int, spine: Seq<int>)
    requires
        mirrors(nodes, n, spine),
        spine.last() == n - 1,
        spine.len() > 1,
    ensures
        mirrors(without_last(nodes), n - 1, spine.drop_last()),
{
    let k = spine.len() - 1;
    let shorter = spine.drop_last();
    let rest = without_last(nodes);
    let last = (n - 1) as usize;
    let p = spine[k - 1];
    // the incoming lists never name the last node
    assert forall|j: int| 0 <= j < n - 1 implies (#[trigger] rest[j]).2 == nodes[j].2 by {
        if j > 0 {
            lemma_sole_parent_exists(nodes, n, spine, j);
            lemma_without_absent(nodes[j].2, last);
        }
    }
    assert forall|i: int| 0 <= i < n - 1 && i != p implies (#[trigger] rest[i]).1 == nodes[i].1 by {
        if spine.contains(i) {
            lemma_without_absent(nodes[i].1, last);
        }
    }
    assert(rest[p].1 == descending(p, n - 2)) by {
        lemma_without_top(p, n - 1);
    }
    assert(parents_fit(rest, n - 1, shorter)) by {
        assert forall|t: int, j: int|
            0 <= t < shorter.len() - 1 && shorter[t] < j <= shorter[t + 1] implies #[trigger] sole_parent(
            rest,
            shorter[t],
            j,
        ) by {
            assert(sole_parent(nodes, spine[t], j));
        }
        assert forall|j: int| shorter.last() < j < n - 1 implies #[trigger] sole_parent(
            rest,
            shorter.last(),
            j,
        ) by {
            assert(sole_parent(nodes, spine[k - 1], j));
        }
    }
    assert(children_fit(rest, n - 1, shorter)) by {
        assert forall|i: int| 0 <= i < n - 1 && !shorter.contains(i) implies (#[trigger] rest[i]).1
            == Seq::<usize>::empty() by {
            if spine.contains(i) {
                let t = choose|t: int| 0 <= t < spine.len() && spine[t] == i;
                assert(shorter[t] == i);
            }
        }
    }
}

/// Every node but the root has a sole parent below it.
proof fn lemma_sole_parent_exists(
    nodes: Seq<(usize, Seq<usize>, Seq<usize>)>,
    n: int,
    spine: Seq<int>,
    j: int,
)
    requires
        mirrors(nodes, n, spine),
        0 < j < n,
    ensures
        exists|i: int| 0 <= i < j && sole_parent(nodes, i, j),
{
    let t = nearest_below(spine, j, spine.len() - 1);
    lemma_nearest_below(spine, j, spine.len() - 1);
    if t == spine.len() - 1 {
        assert(sole_parent(nodes, spine.last(), j));
    } else {
        assert(sole_parent(nodes, spine[t], j));
    }
}

/// The last place at or before `from` at which the spine is below `j`.
spec fn nearest_below(spine: Seq<int>, j: int, from: int) -> int
    decreases from,
{
    if from <= 0 || spine[from] < j {
        from
    } else {
        nearest_below(spine, j, from - 1)
    }
}

proof fn lemma_nearest_below(spine: Seq<int>, j: int, from: int)
    requires
        spine.len() >= 1,
        spine[0] == 0,
        0 < j,
        0 <= from < spine.len(),
    ensures
        0 <= nearest_below(spine, j, from) <= from,
        spine[nearest_below(spine, j, from)] < j,
        nearest_below(spine, j, from) < from ==> j <= spine[nearest_below(spine, j, from) + 1],
    decreases from,
{
    if from > 0 && spine[from] >= j {
        lemma_nearest_below(spine, j, from - 1);
    }
}

} // verus!
