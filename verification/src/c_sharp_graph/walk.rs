//! What lies below a node: the nodes that a walk along ordinary edges can
//! end in, and what can be collected from them.

use crate::c_sharp_graph::graph::GraphModel;
use vstd::prelude::*;

verus! {

/// What is collected from the nodes that can be reached from `from` through
/// one of its first `upto` edges, along at most `fuel` ordinary edges, where
/// node `c` contributes `item(c)`.
pub open spec fn collect_via<T>(
    g: GraphModel,
    item: spec_fn(usize) -> Set<T>,
    from: usize,
    upto: int,
    fuel: nat,
) -> Set<T> {
    Set::new(
        |x: T|
            exists|i: int, c: usize|
                0 <= i < upto && #[trigger] g.reaches_via(from, i, c, fuel) && item(c).contains(x),
    )
}

/// What is collected from the nodes that can be reached from `from` along
/// at least one and at most `fuel` ordinary edges.
pub open spec fn collect_below<T>(
    g: GraphModel,
    item: spec_fn(usize) -> Set<T>,
    from: usize,
    fuel: nat,
) -> Set<T> {
    Set::new(|x: T| exists|c: usize| #[trigger] g.reaches(from, c, fuel) && item(c).contains(x))
}

/// What is collected below the first `upto` of the given roots, along walks
/// of any length that the graph's size allows.
pub open spec fn collect_below_roots<T>(
    g: GraphModel,
    item: spec_fn(usize) -> Set<T>,
    roots: Seq<usize>,
    upto: int,
) -> Set<T> {
    Set::new(
        |x: T|
            exists|r: int|
                0 <= r < upto && #[trigger] collect_below(
                    g,
                    item,
                    roots[r],
                    g.nodes.len(),
                ).contains(x),
    )
}

/// Whether `holds` is true of every node that can be reached from `from`
/// through one of its first `upto` edges.
pub open spec fn all_via(
    g: GraphModel,
    holds: spec_fn(usize) -> bool,
    from: usize,
    upto: int,
    fuel: nat,
) -> bool {
    forall|i: int, c: usize| 0 <= i < upto && #[trigger] g.reaches_via(from, i, c, fuel) ==> holds(c)
}

/// Whether `holds` is true of every node that can be reached from `from`
/// along at least one and at most `fuel` ordinary edges.
pub open spec fn all_below(
    g: GraphModel,
    holds: spec_fn(usize) -> bool,
    from: usize,
    fuel: nat,
) -> bool {
    forall|c: usize| #[trigger] g.reaches(from, c, fuel) ==> holds(c)
}

/// Whether every root is a node of the graph from which every walk along
/// ordinary edges ends. A walk without a cycle has fewer edges than the
/// graph has nodes.
pub open spec fn roots_bounded(g: GraphModel, roots: Seq<usize>) -> bool {
    forall|r: int|
        0 <= r < roots.len() ==> g.valid_node(#[trigger] roots[r]) && g.bounded(
            roots[r],
            g.nodes.len(),
        )
}

/// Whether `holds` is true of every node below every root.
pub open spec fn all_below_roots(
    g: GraphModel,
    holds: spec_fn(usize) -> bool,
    roots: Seq<usize>,
) -> bool {
    forall|r: int|
        0 <= r < roots.len() ==> #[trigger] all_below(g, holds, roots[r], g.nodes.len())
}

/// What the `i`-th edge of a node adds to what is collected through the
/// edges before it: where it is an ordinary edge, the item of its sink and
/// what is collected below its sink.
pub proof fn lemma_collect_via_step<T>(
    g: GraphModel,
    item: spec_fn(usize) -> Set<T>,
    from: usize,
    i: int,
    fuel: nat,
)
    requires
        0 <= i,
    ensures
        collect_via(g, item, from, i + 1, fuel) == if g.ordinary_edge(from, i) && fuel > 0 {
            collect_via(g, item, from, i, fuel).union(item(g.node(from).edges[i].sink)).union(
                collect_below(g, item, g.node(from).edges[i].sink, (fuel - 1) as nat),
            )
        } else {
            collect_via(g, item, from, i, fuel)
        },
{
    let before = collect_via(g, item, from, i, fuel);
    let after = collect_via(g, item, from, i + 1, fuel);
    if g.ordinary_edge(from, i) && fuel > 0 {
        let sink = g.node(from).edges[i].sink;
        let at = item(sink);
        let below = collect_below(g, item, sink, (fuel - 1) as nat);
        assert forall|x: T| after.contains(x) == before.union(at).union(below).contains(x) by {
            if after.contains(x) {
                let (j, c) = choose|j: int, c: usize|
                    0 <= j < i + 1 && #[trigger] g.reaches_via(from, j, c, fuel) && item(
                        c,
                    ).contains(x);
                if j < i {
                    assert(before.contains(x));
                } else if c == sink {
                    assert(at.contains(x));
                } else {
                    assert(g.reaches(sink, c, (fuel - 1) as nat));
                    assert(below.contains(x));
                }
            }
            if before.contains(x) {
                let (j, c) = choose|j: int, c: usize|
                    0 <= j < i && #[trigger] g.reaches_via(from, j, c, fuel) && item(c).contains(
                        x,
                    );
                assert(g.reaches_via(from, j, c, fuel));
            }
            if at.contains(x) {
                assert(g.reaches_via(from, i, sink, fuel));
            }
            if below.contains(x) {
                let c = choose|c: usize| #[trigger]
                    g.reaches(sink, c, (fuel - 1) as nat) && item(c).contains(x);
                assert(g.reaches_via(from, i, c, fuel));
            }
        }
        assert(after =~= before.union(at).union(below));
    } else {
        assert forall|x: T| after.contains(x) == before.contains(x) by {
            if after.contains(x) {
                let (j, c) = choose|j: int, c: usize|
                    0 <= j < i + 1 && #[trigger] g.reaches_via(from, j, c, fuel) && item(
                        c,
                    ).contains(x);
                assert(j < i);
            }
            if before.contains(x) {
                let (j, c) = choose|j: int, c: usize|
                    0 <= j < i && #[trigger] g.reaches_via(from, j, c, fuel) && item(c).contains(
                        x,
                    );
                assert(g.reaches_via(from, j, c, fuel));
            }
        }
        assert(after =~= before);
    }
}

/// What is collected through all edges of a node is what is collected
/// below it, and through none of them nothing.
pub proof fn lemma_collect_via_all<T>(
    g: GraphModel,
    item: spec_fn(usize) -> Set<T>,
    from: usize,
    fuel: nat,
)
    ensures
        collect_via(g, item, from, g.node(from).edges.len() as int, fuel) == collect_below(
            g,
            item,
            from,
            fuel,
        ),
        collect_via(g, item, from, 0, fuel) == Set::<T>::empty(),
{
    let upto = g.node(from).edges.len() as int;
    let via = collect_via(g, item, from, upto, fuel);
    let below = collect_below(g, item, from, fuel);
    assert forall|x: T| via.contains(x) == below.contains(x) by {
        if via.contains(x) {
            let (j, c) = choose|j: int, c: usize|
                0 <= j < upto && #[trigger] g.reaches_via(from, j, c, fuel) && item(c).contains(x);
            g.lemma_reaches(from, c, fuel);
            assert(g.reaches(from, c, fuel));
        }
        if below.contains(x) {
            let c = choose|c: usize| #[trigger] g.reaches(from, c, fuel) && item(c).contains(x);
            g.lemma_reaches(from, c, fuel);
            let j = choose|j: int| #[trigger] g.reaches_via(from, j, c, fuel);
            assert(g.reaches_via(from, j, c, fuel));
        }
    }
    assert(via =~= below);
    assert(collect_via(g, item, from, 0, fuel) =~= Set::<T>::empty());
}

/// What one more root adds to what is collected below the roots before it.
pub proof fn lemma_collect_below_roots_step<T>(
    g: GraphModel,
    item: spec_fn(usize) -> Set<T>,
    roots: Seq<usize>,
    upto: int,
)
    requires
        0 <= upto < roots.len(),
    ensures
        collect_below_roots(g, item, roots, upto + 1) == collect_below_roots(
            g,
            item,
            roots,
            upto,
        ).union(collect_below(g, item, roots[upto], g.nodes.len())),
{
    let before = collect_below_roots(g, item, roots, upto);
    let after = collect_below_roots(g, item, roots, upto + 1);
    let added = collect_below(g, item, roots[upto], g.nodes.len());
    assert forall|x: T| after.contains(x) == before.union(added).contains(x) by {
        if after.contains(x) {
            let r = choose|r: int|
                0 <= r < upto + 1 && #[trigger] collect_below(
                    g,
                    item,
                    roots[r],
                    g.nodes.len(),
                ).contains(x);
            if r < upto {
                assert(before.contains(x));
            }
        }
        if before.contains(x) {
            let r = choose|r: int|
                0 <= r < upto && #[trigger] collect_below(
                    g,
                    item,
                    roots[r],
                    g.nodes.len(),
                ).contains(x);
            assert(collect_below(g, item, roots[r], g.nodes.len()).contains(x));
        }
        if added.contains(x) {
            assert(collect_below(g, item, roots[upto], g.nodes.len()).contains(x));
        }
    }
    assert(after =~= before.union(added));
}

/// Below no roots nothing is collected.
pub proof fn lemma_collect_below_roots_empty<T>(
    g: GraphModel,
    item: spec_fn(usize) -> Set<T>,
    roots: Seq<usize>,
)
    ensures
        collect_below_roots(g, item, roots, 0) == Set::<T>::empty(),
{
    assert(collect_below_roots(g, item, roots, 0) =~= Set::<T>::empty());
}

/// What the `i`-th edge of a node adds to a claim about the nodes reached
/// through the edges before it.
pub proof fn lemma_all_via_step(
    g: GraphModel,
    holds: spec_fn(usize) -> bool,
    from: usize,
    i: int,
    fuel: nat,
)
    requires
        0 <= i,
    ensures
        all_via(g, holds, from, i + 1, fuel) == if g.ordinary_edge(from, i) && fuel > 0 {
            all_via(g, holds, from, i, fuel) && holds(g.node(from).edges[i].sink) && all_below(
                g,
                holds,
                g.node(from).edges[i].sink,
                (fuel - 1) as nat,
            )
        } else {
            all_via(g, holds, from, i, fuel)
        },
{
    let before = all_via(g, holds, from, i, fuel);
    let after = all_via(g, holds, from, i + 1, fuel);
    if g.ordinary_edge(from, i) && fuel > 0 {
        let sink = g.node(from).edges[i].sink;
        let below = all_below(g, holds, sink, (fuel - 1) as nat);
        if after {
            assert forall|j: int, c: usize|
                0 <= j < i && #[trigger] g.reaches_via(from, j, c, fuel) implies holds(c) by {}
            assert(g.reaches_via(from, i, sink, fuel));
            assert forall|c: usize| #[trigger] g.reaches(sink, c, (fuel - 1) as nat) implies holds(
                c,
            ) by {
                assert(g.reaches_via(from, i, c, fuel));
            }
        }
        if before && holds(sink) && below {
            assert forall|j: int, c: usize|
                0 <= j < i + 1 && #[trigger] g.reaches_via(from, j, c, fuel) implies holds(c) by {
                if j == i && c != sink {
                    assert(g.reaches(sink, c, (fuel - 1) as nat));
                }
            }
        }
    } else {
        if before {
            assert forall|j: int, c: usize|
                0 <= j < i + 1 && #[trigger] g.reaches_via(from, j, c, fuel) implies holds(c) by {
                assert(j < i);
            }
        }
    }
}

/// A claim about the nodes reached through all edges of a node is a claim
/// about the nodes below it.
pub proof fn lemma_all_via_all(
    g: GraphModel,
    holds: spec_fn(usize) -> bool,
    from: usize,
    fuel: nat,
)
    ensures
        all_via(g, holds, from, g.node(from).edges.len() as int, fuel) == all_below(
            g,
            holds,
            from,
            fuel,
        ),
        all_via(g, holds, from, 0, fuel),
{
    let upto = g.node(from).edges.len() as int;
    if all_via(g, holds, from, upto, fuel) {
        assert forall|c: usize| #[trigger] g.reaches(from, c, fuel) implies holds(c) by {
            g.lemma_reaches(from, c, fuel);
            let j = choose|j: int| #[trigger] g.reaches_via(from, j, c, fuel);
            assert(g.reaches_via(from, j, c, fuel));
        }
    }
    if all_below(g, holds, from, fuel) {
        assert forall|j: int, c: usize|
            0 <= j < upto && #[trigger] g.reaches_via(from, j, c, fuel) implies holds(c) by {
            g.lemma_reaches(from, c, fuel);
            assert(g.reaches(from, c, fuel));
        }
    }
}

} // verus!
