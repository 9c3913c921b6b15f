use crate::commands::id::Id;
use crate::realtime::graph::Graph;
use vstd::prelude::*;

verus! {

/// Whether the node `id` can be rendered once the nodes of `emitted` have been:
/// every edge that arrives at it leaves one of them.
pub open spec fn is_ready<E>(edges: Seq<(Id, Id, E)>, emitted: Seq<Id>, id: Id) -> bool {
    forall|k: int|
        0 <= k < edges.len() && (#[trigger] edges[k]).1 == id ==> emitted.contains(edges[k].0)
}

/// Whether `order` is an order in which the graph can be rendered: it names
/// nodes of the graph, each once, each only after every source of its incoming
/// edges, and it leaves out no node that could still follow.
///
/// A node is left out only if one of its sources is left out too, that is, if a
/// cycle lies on it or before it.
pub open spec fn is_topological_order<E>(
    node_ids: Seq<Id>,
    edges: Seq<(Id, Id, E)>,
    order: Seq<Id>,
) -> bool {
    &&& order.no_duplicates()
    &&& forall|i: int| 0 <= i < order.len() ==> node_ids.contains(#[trigger] order[i])
    &&& forall|i: int|
        0 <= i < order.len() ==> is_ready(edges, order.subrange(0, i), #[trigger] order[i])
    &&& forall|v: int|
        0 <= v < node_ids.len() && !order.contains(#[trigger] node_ids[v]) ==> !is_ready(
            edges,
            order,
            node_ids[v],
        )
}

/// Whether `linear` is a way to line up the nodes so that every edge points
/// forward.
pub open spec fn is_linear_extension<E>(
    node_ids: Seq<Id>,
    edges: Seq<(Id, Id, E)>,
    linear: Seq<Id>,
) -> bool {
    &&& forall|v: int| 0 <= v < node_ids.len() ==> linear.contains(#[trigger] node_ids[v])
    &&& forall|k: int, a: int, b: int|
        #![trigger edges[k], linear[a], linear[b]]
        0 <= k < edges.len() && 0 <= a < linear.len() && 0 <= b < linear.len() && linear[a]
            == edges[k].0 && linear[b] == edges[k].1 ==> a < b
}

/// A graph without cycles: its nodes can be lined up so that every edge points
/// forward.
pub open spec fn is_acyclic<E>(node_ids: Seq<Id>, edges: Seq<(Id, Id, E)>) -> bool {
    exists|linear: Seq<Id>| is_linear_extension(node_ids, edges, linear)
}

/// In an order in which the graph can be rendered, an edge between two nodes
/// of the order leaves the earlier one and arrives at the later one.
pub proof fn lemma_edges_point_forward<E>(
    node_ids: Seq<Id>,
    edges: Seq<(Id, Id, E)>,
    order: Seq<Id>,
    k: int,
    j: int,
)
    requires
        is_topological_order(node_ids, edges, order),
        0 <= k < edges.len(),
        0 <= j < order.len(),
        order[j] == edges[k].1,
    ensures
        exists|i: int| 0 <= i < j && order[i] == edges[k].0,
{
    let before = order.subrange(0, j);
    assert(is_ready(edges, before, order[j]));
    assert(before.contains(edges[k].0));
    let i = choose|i: int| 0 <= i < before.len() && before[i] == edges[k].0;
    assert(order[i] == edges[k].0);
}

/// The order in which a graph without cycles can be rendered leaves out none
/// of its nodes.
pub proof fn lemma_acyclic_order_is_complete<E>(
    node_ids: Seq<Id>,
    edges: Seq<(Id, Id, E)>,
    order: Seq<Id>,
)
    requires
        is_topological_order(node_ids, edges, order),
        is_acyclic(node_ids, edges),
        forall|k: int|
            0 <= k < edges.len() ==> node_ids.contains((#[trigger] edges[k]).0)
                && node_ids.contains(edges[k].1),
    ensures
        forall|v: int| 0 <= v < node_ids.len() ==> order.contains(#[trigger] node_ids[v]),
{
    let linear = choose|linear: Seq<Id>| is_linear_extension(node_ids, edges, linear);
    lemma_lined_up_nodes_are_sorted(node_ids, edges, order, linear, linear.len() as int);
    assert forall|v: int| 0 <= v < node_ids.len() implies order.contains(
        #[trigger] node_ids[v],
    ) by {
        assert(linear.contains(node_ids[v]));
        let a = choose|a: int| 0 <= a < linear.len() && linear[a] == node_ids[v];
        assert(order.contains(linear[a]));
    }
}

proof fn lemma_lined_up_nodes_are_sorted<E>(
    node_ids: Seq<Id>,
    edges: Seq<(Id, Id, E)>,
    order: Seq<Id>,
    linear: Seq<Id>,
    upto: int,
)
    requires
        is_topological_order(node_ids, edges, order),
        is_linear_extension(node_ids, edges, linear),
        forall|k: int|
            0 <= k < edges.len() ==> node_ids.contains((#[trigger] edges[k]).0)
                && node_ids.contains(edges[k].1),
        0 <= upto <= linear.len(),
    ensures
        forall|a: int|
            0 <= a < upto && node_ids.contains(#[trigger] linear[a]) ==> order.contains(linear[a]),
    decreases upto,
{
    if upto > 0 {
        lemma_lined_up_nodes_are_sorted(node_ids, edges, order, linear, upto - 1);
        let b = upto - 1;
        let v = linear[b];
        if node_ids.contains(v) && !order.contains(v) {
            let vi = choose|vi: int| 0 <= vi < node_ids.len() && node_ids[vi] == v;
            assert(!is_ready(edges, order, node_ids[vi]));
            let k = choose|k: int|
                0 <= k < edges.len() && (#[trigger] edges[k]).1 == v && !order.contains(
                    edges[k].0,
                );
            let u = edges[k].0;
            assert(node_ids.contains(u));
            let ui = choose|ui: int| 0 <= ui < node_ids.len() && node_ids[ui] == u;
            assert(linear.contains(node_ids[ui]));
            let a = choose|a: int| 0 <= a < linear.len() && linear[a] == u;
            assert(linear[a] == edges[k].0 && linear[b] == edges[k].1);
            assert(a < b);
            assert(order.contains(linear[a]));
        }
    }
}

/// In a graph without cycles every edge leaves a node that is rendered before
/// the node at which it arrives.
pub proof fn lemma_acyclic_edges_are_ordered<E>(
    node_ids: Seq<Id>,
    edges: Seq<(Id, Id, E)>,
    order: Seq<Id>,
    k: int,
)
    requires
        is_topological_order(node_ids, edges, order),
        is_acyclic(node_ids, edges),
        forall|k: int|
            0 <= k < edges.len() ==> node_ids.contains((#[trigger] edges[k]).0)
                && node_ids.contains(edges[k].1),
        0 <= k < edges.len(),
    ensures
        exists|i: int, j: int|
            0 <= i < j < order.len() && #[trigger] order[i] == edges[k].0 && #[trigger] order[j]
                == edges[k].1,
{
    lemma_acyclic_order_is_complete(node_ids, edges, order);
    let v = edges[k].1;
    assert(node_ids.contains(v));
    let vi = choose|vi: int| 0 <= vi < node_ids.len() && node_ids[vi] == v;
    assert(order.contains(node_ids[vi]));
    let j = choose|j: int| 0 <= j < order.len() && order[j] == v;
    lemma_edges_point_forward(node_ids, edges, order, k, j);
    let i = choose|i: int| 0 <= i < j && order[i] == edges[k].0;
    assert(order[i] == edges[k].0 && order[j] == edges[k].1);
}

proof fn lemma_distinct_nodes_fit(node_ids: Seq<Id>, order: Seq<Id>)
    requires
        order.no_duplicates(),
        forall|i: int| 0 <= i < order.len() ==> node_ids.contains(#[trigger] order[i]),
    ensures
        order.len() <= node_ids.len(),
{
    broadcast use vstd::seq_lib::seq_to_set_is_finite;

    order.unique_seq_to_set();
    node_ids.lemma_cardinality_of_set();
    assert(order.to_set().subset_of(node_ids.to_set())) by {
        assert forall|id: Id| order.to_set().contains(id) implies node_ids.to_set().contains(
            id,
        ) by {
            let i = choose|i: int| 0 <= i < order.len() && order[i] == id;
            assert(node_ids.contains(order[i]));
        }
    }
    vstd::set_lib::lemma_len_subset(order.to_set(), node_ids.to_set());
}

/// How many of the first `upto` edges arrive at the node `id` from a node that
/// is not among `done`.
spec fn open_edges(edges_ends: Seq<(Id, Id)>, id: Id, done: Seq<Id>, upto: int) -> nat
    decreases upto,
{
    if upto <= 0 {
        0
    } else {
        let edge = edges_ends[upto - 1];
        open_edges(edges_ends, id, done, upto - 1) + if edge.1 == id && !done.contains(edge.0) {
            1nat
        } else {
            0nat
        }
    }
}

/// How many of the first `upto` edges lead from `from` to `to`.
spec fn edges_between(edges_ends: Seq<(Id, Id)>, from: Id, to: Id, upto: int) -> nat
    decreases upto,
{
    if upto <= 0 {
        0
    } else {
        let edge = edges_ends[upto - 1];
        edges_between(edges_ends, from, to, upto - 1) + if edge.0 == from && edge.1 == to {
            1nat
        } else {
            0nat
        }
    }
}

/// The two ends of every edge.
spec fn ends_of<E>(edges: Seq<(Id, Id, E)>) -> Seq<(Id, Id)> {
    Seq::new(edges.len(), |k: int| (edges[k].0, edges[k].1))
}

proof fn lemma_open_edges_bound(edges_ends: Seq<(Id, Id)>, id: Id, done: Seq<Id>, upto: int)
    requires
        0 <= upto,
    ensures
        open_edges(edges_ends, id, done, upto) <= upto,
    decreases upto,
{
    if upto > 0 {
        lemma_open_edges_bound(edges_ends, id, done, upto - 1);
    }
}

proof fn lemma_edges_between_grows(
    edges_ends: Seq<(Id, Id)>,
    from: Id,
    to: Id,
    fewer: int,
    more: int,
)
    requires
        0 <= fewer <= more,
    ensures
        edges_between(edges_ends, from, to, fewer) <= edges_between(edges_ends, from, to, more),
    decreases more - fewer,
{
    if fewer < more {
        lemma_edges_between_grows(edges_ends, from, to, fewer, more - 1);
    }
}

/// Once `from` is done, the edges that come from it are open no longer.
proof fn lemma_open_edges_after(
    edges_ends: Seq<(Id, Id)>,
    id: Id,
    done: Seq<Id>,
    from: Id,
    upto: int,
)
    requires
        !done.contains(from),
        0 <= upto,
    ensures
        open_edges(edges_ends, id, done.push(from), upto) + edges_between(
            edges_ends,
            from,
            id,
            upto,
        ) == open_edges(edges_ends, id, done, upto),
    decreases upto,
{
    if upto > 0 {
        lemma_open_edges_after(edges_ends, id, done, from, upto - 1);
        let source = edges_ends[upto - 1].0;
        let more = done.push(from);
        if done.contains(source) {
            let i = choose|i: int| 0 <= i < done.len() && done[i] == source;
            assert(more[i] == source);
        }
        if source == from {
            assert(more[done.len() as int] == from);
        }
        if more.contains(source) && source != from {
            let i = choose|i: int| 0 <= i < more.len() && more[i] == source;
            assert(done[i] == source);
        }
    }
}

/// A node without open edges is ready, and a node with open edges is not.
proof fn lemma_open_edges_ready<E>(edges: Seq<(Id, Id, E)>, id: Id, done: Seq<Id>, upto: int)
    requires
        0 <= upto <= edges.len(),
    ensures
        open_edges(ends_of(edges), id, done, upto) == 0 <==> forall|k: int|
            0 <= k < upto && (#[trigger] edges[k]).1 == id ==> done.contains(edges[k].0),
    decreases upto,
{
    if upto > 0 {
        lemma_open_edges_ready(edges, id, done, upto - 1);
        assert(ends_of(edges)[upto - 1] == (edges[upto - 1].0, edges[upto - 1].1));
    }
}

/// The order in which the nodes of a graph are rendered, kept until the graph
/// changes.
pub struct TopologicalSort {
    sorted: Vec<Id>,
    in_degrees: Vec<usize>,
}

impl TopologicalSort {
    /// The order that was computed last.
    pub closed spec fn order(&self) -> Seq<Id> {
        self.sorted@
    }

    /// An empty order with room for `capacity` nodes.
    pub fn with_capacity(capacity: usize) -> (sort: Self)
        ensures
            sort.order() == Seq::<Id>::empty(),
    {
        Self { sorted: Vec::with_capacity(capacity), in_degrees: Vec::with_capacity(capacity) }
    }

    pub fn get_sorted_graph(&self) -> (sorted: &Vec<Id>)
        ensures
            sorted@ == self.order(),
    {
        &self.sorted
    }

    /// Counts for every node the edges that arrive at it.
    fn count_in_degrees<N, E>(&mut self, graph: &Graph<N, E>)
        requires
            graph.wf(),
        ensures
            final(self).sorted@ == old(self).sorted@,
            final(self).in_degrees@.len() == graph.node_ids().len(),
            forall|j: int|
                0 <= j < graph.node_ids().len() ==> #[trigger] final(self).in_degrees@[j]
                    == open_edges(
                    ends_of(graph.edges()),
                    graph.node_ids()[j],
                    Seq::<Id>::empty(),
                    graph.edges().len() as int,
                ),
    {
        let ghost node_ids = graph.node_ids();
        let ghost ends = ends_of(graph.edges());
        let ghost none = Seq::<Id>::empty();
        self.in_degrees.clear();
        let count = graph.num_nodes();
        while self.in_degrees.len() < count
            invariant
                self.sorted@ == old(self).sorted@,
                self.in_degrees@.len() <= count,
                forall|j: int| 0 <= j < self.in_degrees@.len() ==> self.in_degrees@[j] == 0,
            decreases count - self.in_degrees@.len(),
        {
            self.in_degrees.push(0);
        }
        let mut k: usize = 0;
        while k < graph.num_edges()
            invariant
                graph.wf(),
                node_ids == graph.node_ids(),
                ends == ends_of(graph.edges()),
                none == Seq::<Id>::empty(),
                self.sorted@ == old(self).sorted@,
                self.in_degrees@.len() == node_ids.len(),
                k <= graph.edges().len(),
                forall|j: int|
                    0 <= j < node_ids.len() ==> #[trigger] self.in_degrees@[j] == open_edges(
                        ends,
                        node_ids[j],
                        none,
                        k as int,
                    ),
            decreases graph.edges().len() - k,
        {
            let edge = graph.edge_at(k);
            proof {
                graph.lemma_wf();
                assert(node_ids.contains(graph.edges()[k as int].1));
                assert(ends[k as int] == edge);
            }
            let target = graph.index_of_node(edge.1);
            let ghost before = self.in_degrees@;
            if let Some(j) = target {
                proof {
                    lemma_open_edges_bound(ends, node_ids[j as int], none, k as int);
                }
                self.in_degrees.set(j, self.in_degrees[j] + 1);
            }
            proof {
                assert forall|i: int| 0 <= i < node_ids.len() implies #[trigger] self.in_degrees@[i]
                    == open_edges(ends, node_ids[i], none, k + 1) by {
                    assert(before[i] == open_edges(ends, node_ids[i], none, k as int));
                    if i != target->0 {
                        assert(node_ids[i] != edge.1);
                    }
                }
            }
            k += 1;
        }
    }

    /// Computes the order for `graph` by Kahn's algorithm: the nodes at which no
    /// edge arrives come first, and every other node follows as soon as the
    /// sources of all the edges that arrive at it are in the order. Nodes on a
    /// cycle, and nodes that hang on one, never follow and are left out.
    pub fn sort<N, E>(&mut self, graph: &Graph<N, E>)
        requires
            graph.wf(),
        ensures
            is_topological_order(graph.node_ids(), graph.edges(), final(self).order()),
    {
        let ghost node_ids = graph.node_ids();
        let ghost edges = graph.edges();
        let ghost ends = ends_of(graph.edges());
        let ghost none = Seq::<Id>::empty();
        let ghost total = edges.len() as int;
        proof {
            graph.lemma_wf();
        }
        self.sorted.clear();
        self.count_in_degrees(graph);
        let count = graph.num_nodes();

        let mut index: usize = 0;
        while index < count
            invariant
                graph.wf(),
                node_ids == graph.node_ids(),
                edges == graph.edges(),
                ends == ends_of(edges),
                none == Seq::<Id>::empty(),
                total == edges.len(),
                node_ids.no_duplicates(),
                count == node_ids.len(),
                index <= count,
                self.in_degrees@.len() == count,
                forall|j: int|
                    0 <= j < count ==> #[trigger] self.in_degrees@[j] == open_edges(
                        ends,
                        node_ids[j],
                        none,
                        total,
                    ),
                self.sorted@.no_duplicates(),
                forall|i: int|
                    0 <= i < self.sorted@.len() ==> node_ids.contains(#[trigger] self.sorted@[i]),
                forall|j: int|
                    0 <= j < count ==> (self.sorted@.contains(#[trigger] node_ids[j]) <==> j < index
                        && self.in_degrees@[j] == 0),
                forall|i: int|
                    0 <= i < self.sorted@.len()
                        ==> is_ready(edges, none, #[trigger] self.sorted@[i]),
            decreases count - index,
        {
            if self.in_degrees[index] == 0 {
                let id = graph.node_id_at(index);
                let ghost before = self.sorted@;
                proof {
                    lemma_open_edges_ready(edges, id, none, total);
                    assert(self.in_degrees@[index as int] == open_edges(
                        ends,
                        node_ids[index as int],
                        none,
                        total,
                    ));
                    assert(!before.contains(node_ids[index as int]));
                }
                self.sorted.push(id);
                proof {
                    lemma_pushed(before, id);
                    assert forall|j: int| 0 <= j < count implies (self.sorted@.contains(
                        #[trigger] node_ids[j],
                    ) <==> j < index + 1 && self.in_degrees@[j] == 0) by {
                        if j != index {
                            assert(node_ids[j] != id);
                        }
                    }
                }
            } else {
                proof {
                    assert(!self.sorted@.contains(node_ids[index as int]));
                }
            }
            index += 1;
        }

        let mut head: usize = 0;
        proof {
            assert(self.sorted@.subrange(0, 0) == none);
            lemma_distinct_nodes_fit(node_ids, self.sorted@);
            assert forall|i: int| 0 <= i < self.sorted@.len() implies is_ready(
                edges,
                self.sorted@.subrange(0, i),
                #[trigger] self.sorted@[i],
            ) by {
                lemma_ready_with_more(edges, none, self.sorted@.subrange(0, i), self.sorted@[i]);
            }
        }
        while head < self.sorted.len()
            invariant
                graph.wf(),
                node_ids == graph.node_ids(),
                edges == graph.edges(),
                ends == ends_of(edges),
                total == edges.len(),
                node_ids.no_duplicates(),
                count == node_ids.len(),
                self.in_degrees@.len() == count,
                head <= self.sorted@.len() <= count,
                forall|j: int|
                    0 <= j < count ==> #[trigger] self.in_degrees@[j] == open_edges(
                        ends,
                        node_ids[j],
                        self.sorted@.subrange(0, head as int),
                        total,
                    ),
                self.sorted@.no_duplicates(),
                forall|i: int|
                    0 <= i < self.sorted@.len() ==> node_ids.contains(#[trigger] self.sorted@[i]),
                forall|j: int|
                    0 <= j < count ==> (self.sorted@.contains(#[trigger] node_ids[j])
                        <==> self.in_degrees@[j] == 0),
                forall|i: int|
                    0 <= i < self.sorted@.len() ==> is_ready(
                        edges,
                        self.sorted@.subrange(0, i),
                        #[trigger] self.sorted@[i],
                    ),
            decreases count - head,
        {
            let source = self.sorted[head];
            let ghost done = self.sorted@.subrange(0, head as int);
            let ghost done_now = self.sorted@.subrange(0, head + 1);
            proof {
                assert(done_now == done.push(source));
                assert(!done.contains(source)) by {
                    if done.contains(source) {
                        let i = choose|i: int| 0 <= i < done.len() && done[i] == source;
                        assert(self.sorted@[i] == source);
                    }
                }
            }
            let mut k: usize = 0;
            while k < graph.num_edges()
                invariant
                    graph.wf(),
                    node_ids == graph.node_ids(),
                    edges == graph.edges(),
                    ends == ends_of(edges),
                    total == edges.len(),
                    node_ids.no_duplicates(),
                    count == node_ids.len(),
                    self.in_degrees@.len() == count,
                    head < self.sorted@.len() <= count,
                    k <= total,
                    source == self.sorted@[head as int],
                    done == self.sorted@.subrange(0, head as int),
                    done_now == self.sorted@.subrange(0, head + 1),
                    done_now == done.push(source),
                    !done.contains(source),
                    forall|j: int|
                        0 <= j < count ==> (#[trigger] self.in_degrees@[j]) + edges_between(
                            ends,
                            source,
                            node_ids[j],
                            k as int,
                        ) == open_edges(ends, node_ids[j], done, total),
                    self.sorted@.no_duplicates(),
                    forall|i: int|
                        0 <= i < self.sorted@.len() ==> node_ids.contains(
                            #[trigger] self.sorted@[i],
                        ),
                    forall|j: int|
                        0 <= j < count ==> (self.sorted@.contains(#[trigger] node_ids[j])
                            <==> self.in_degrees@[j] == 0),
                    forall|i: int|
                        0 <= i < self.sorted@.len() ==> is_ready(
                            edges,
                            self.sorted@.subrange(0, i),
                            #[trigger] self.sorted@[i],
                        ),
                decreases total - k,
            {
                let edge = graph.edge_at(k);
                proof {
                    graph.lemma_wf();
                    assert(ends[k as int] == edge);
                    assert(node_ids.contains(edges[k as int].1));
                }
                if edge.0 == source {
                    if let Some(j) = graph.index_of_node(edge.1) {
                        let ghost degrees_before = self.in_degrees@;
                        let ghost sorted_before = self.sorted@;
                        proof {
                            lemma_open_edges_after(ends, node_ids[j as int], done, source, total);
                            lemma_edges_between_grows(
                                ends,
                                source,
                                node_ids[j as int],
                                k + 1,
                                total,
                            );
                        }
                        let degree = self.in_degrees[j] - 1;
                        self.in_degrees.set(j, degree);
                        if degree == 0 {
                            proof {
                                assert(!sorted_before.contains(node_ids[j as int]));
                                lemma_open_edges_ready(edges, edge.1, done_now, total);
                            }
                            self.sorted.push(edge.1);
                            proof {
                                lemma_pushed(sorted_before, edge.1);
                                lemma_distinct_nodes_fit(node_ids, self.sorted@);
                                assert(self.sorted@.subrange(0, head as int) == done);
                                assert(self.sorted@.subrange(0, head + 1) == done_now);
                                assert forall|i: int| 0 <= i < self.sorted@.len() implies is_ready(
                                    edges,
                                    self.sorted@.subrange(0, i),
                                    #[trigger] self.sorted@[i],
                                ) by {
                                    if i < sorted_before.len() {
                                        assert(self.sorted@.subrange(0, i)
                                            == sorted_before.subrange(0, i));
                                    } else {
                                        assert(self.sorted@.subrange(0, i) == sorted_before);
                                        assert forall|id: Id| done_now.contains(
                                            id,
                                        ) implies sorted_before.contains(id) by {
                                            let a = choose|a: int|
                                                0 <= a < done_now.len() && done_now[a] == id;
                                            assert(sorted_before[a] == id);
                                        }
                                        lemma_ready_with_more(
                                            edges,
                                            done_now,
                                            sorted_before,
                                            edge.1,
                                        );
                                    }
                                }
                            }
                        }
                        proof {
                            assert forall|i: int| 0 <= i < count implies (
                            #[trigger] self.in_degrees@[i]) + edges_between(
                                ends,
                                source,
                                node_ids[i],
                                k + 1,
                            ) == open_edges(ends, node_ids[i], done, total) by {
                                assert(degrees_before[i] + edges_between(
                                    ends,
                                    source,
                                    node_ids[i],
                                    k as int,
                                ) == open_edges(ends, node_ids[i], done, total));
                                if i != j {
                                    assert(node_ids[i] != edge.1);
                                }
                            }
                            assert forall|i: int| 0 <= i < count implies (self.sorted@.contains(
                                #[trigger] node_ids[i],
                            ) <==> self.in_degrees@[i] == 0) by {
                                assert(sorted_before.contains(node_ids[i]) <==> degrees_before[i]
                                    == 0);
                                if i != j {
                                    assert(node_ids[i] != edge.1);
                                }
                            }
                        }
                    }
                }
                k += 1;
            }
            proof {
                assert forall|j: int| 0 <= j < count implies #[trigger] self.in_degrees@[j]
                    == open_edges(ends, node_ids[j], done_now, total) by {
                    lemma_open_edges_after(ends, node_ids[j], done, source, total);
                }
            }
            head += 1;
        }
        proof {
            assert(self.sorted@.subrange(0, head as int) == self.sorted@);
            assert forall|v: int|
                0 <= v < node_ids.len() && !self.sorted@.contains(
                    #[trigger] node_ids[v],
                ) implies !is_ready(edges, self.sorted@, node_ids[v]) by {
                lemma_open_edges_ready(edges, node_ids[v], self.sorted@, total);
                assert(self.in_degrees@[v] != 0);
            }
        }
    }
}

/// What a sequence holds after one more has been put at its end.
proof fn lemma_pushed(before: Seq<Id>, id: Id)
    ensures
        before.push(id).contains(id),
        forall|other: Id| before.contains(other) ==> before.push(id).contains(other),
        forall|other: Id| before.push(id).contains(other) ==> before.contains(other) || other == id,
        before.no_duplicates() && !before.contains(id) ==> before.push(id).no_duplicates(),
{
    let after = before.push(id);
    assert(after[before.len() as int] == id);
    assert forall|other: Id| before.contains(other) implies after.contains(other) by {
        let i = choose|i: int| 0 <= i < before.len() && before[i] == other;
        assert(after[i] == other);
    }
    assert forall|other: Id| after.contains(other) implies before.contains(other) || other
        == id by {
        let i = choose|i: int| 0 <= i < after.len() && after[i] == other;
        if i < before.len() {
            assert(before[i] == other);
        }
    }
    if before.no_duplicates() && !before.contains(id) {
        assert forall|a: int, b: int|
            0 <= a < after.len() && 0 <= b < after.len() && a != b implies after[a] != after[b] by {
            if a < before.len() {
                assert(before.contains(before[a]));
            }
            if b < before.len() {
                assert(before.contains(before[b]));
            }
        }
    }
}

/// A node that is ready stays ready when more nodes are done.
proof fn lemma_ready_with_more<E>(edges: Seq<(Id, Id, E)>, fewer: Seq<Id>, more: Seq<Id>, id: Id)
    requires
        is_ready(edges, fewer, id),
        forall|done: Id| fewer.contains(done) ==> more.contains(done),
    ensures
        is_ready(edges, more, id),
{
}

} // verus!
