use crate::commands::id::Id;
use vstd::prelude::*;

verus! {

/// Which edges of a node are meant: those that arrive at it or those that leave
/// it.
#[derive(Clone, Copy, Debug, PartialEq, Eq, Structural)]
pub enum Direction {
    Incoming,
    Outgoing,
}

/// Whether one of `edges` leads from `from` to `to`.
pub open spec fn has_edge<E>(edges: Seq<(Id, Id, E)>, from: Id, to: Id) -> bool {
    exists|i: int| 0 <= i < edges.len() && (#[trigger] edges[i]).0 == from && edges[i].1 == to
}

/// The edges of `edges` that do not touch the node `id`, in their order.
pub open spec fn edges_without_node<E>(edges: Seq<(Id, Id, E)>, id: Id) -> Seq<(Id, Id, E)>
    decreases edges.len(),
{
    if edges.len() == 0 {
        edges
    } else if edges[0].0 == id || edges[0].1 == id {
        edges_without_node(edges.drop_first(), id)
    } else {
        seq![edges[0]] + edges_without_node(edges.drop_first(), id)
    }
}

/// The nodes at the other end of the edges of `id` in the given direction, one
/// for each such edge, in the order of the edges.
pub open spec fn neighbor_ids<E>(edges: Seq<(Id, Id, E)>, id: Id, direction: Direction) -> Seq<Id>
    decreases edges.len(),
{
    if edges.len() == 0 {
        Seq::empty()
    } else {
        let before = neighbor_ids(edges.drop_last(), id, direction);
        let edge = edges.last();
        match direction {
            Direction::Incoming => if edge.1 == id {
                before.push(edge.0)
            } else {
                before
            },
            Direction::Outgoing => if edge.0 == id {
                before.push(edge.1)
            } else {
                before
            },
        }
    }
}

/// Every edge that is left after `edges_without_node` was an edge before, and
/// none of them touches the node.
pub proof fn lemma_edges_without_node<E>(edges: Seq<(Id, Id, E)>, id: Id)
    ensures
        edges_without_node(edges, id).len() <= edges.len(),
        forall|i: int|
            0 <= i < edges_without_node(edges, id).len() ==> {
                let edge = #[trigger] edges_without_node(edges, id)[i];
                edge.0 != id && edge.1 != id && edges.contains(edge)
            },
        forall|i: int|
            0 <= i < edges.len() && (#[trigger] edges[i]).0 != id && edges[i].1 != id
                ==> edges_without_node(edges, id).contains(edges[i]),
    decreases edges.len(),
{
    if edges.len() > 0 {
        let rest = edges.drop_first();
        lemma_edges_without_node(rest, id);
        let kept = edges_without_node(edges, id);
        let kept_rest = edges_without_node(rest, id);
        let touches = edges[0].0 == id || edges[0].1 == id;
        assert forall|i: int| 0 <= i < kept.len() implies {
            let edge = #[trigger] kept[i];
            edge.0 != id && edge.1 != id && edges.contains(edge)
        } by {
            if !touches && i == 0 {
                assert(kept[0] == edges[0]);
            } else {
                let k = if touches {
                    i
                } else {
                    i - 1
                };
                assert(kept[i] == kept_rest[k]);
                assert(rest.contains(kept_rest[k]));
                let j = choose|j: int| 0 <= j < rest.len() && rest[j] == kept_rest[k];
                assert(edges[j + 1] == rest[j]);
            }
        }
        assert forall|i: int|
            0 <= i < edges.len() && (#[trigger] edges[i]).0 != id && edges[i].1
                != id implies kept.contains(edges[i]) by {
            if i == 0 {
                assert(kept[0] == edges[0]);
            } else {
                assert(rest[i - 1] == edges[i]);
                assert(kept_rest.contains(edges[i]));
                let k = choose|k: int| 0 <= k < kept_rest.len() && kept_rest[k] == edges[i];
                if touches {
                    assert(kept[k] == edges[i]);
                } else {
                    assert(kept[k + 1] == edges[i]);
                }
            }
        }
    }
}

/// A directed graph whose nodes are named by ids. There is at most one node
/// for an id and at most one edge from one node to another, and every edge
/// joins two nodes of the graph.
pub struct Graph<N, E> {
    node_ids: Vec<Id>,
    nodes: Vec<N>,
    edges: Vec<(Id, Id, E)>,
}

impl<N, E> Graph<N, E> {
    /// The ids of the nodes, in the order in which the nodes were added.
    pub closed spec fn node_ids(&self) -> Seq<Id> {
        self.node_ids@
    }

    /// The nodes, each at the index of its id in `node_ids`.
    pub closed spec fn nodes(&self) -> Seq<N> {
        self.nodes@
    }

    /// The edges, each with the id it leaves, the id it arrives at and what it
    /// carries, in the order in which they were added.
    pub closed spec fn edges(&self) -> Seq<(Id, Id, E)> {
        self.edges@
    }

    pub open spec fn has_node(&self, id: Id) -> bool {
        self.node_ids().contains(id)
    }

    pub closed spec fn wf(&self) -> bool {
        &&& self.node_ids@.len() == self.nodes@.len()
        &&& self.node_ids@.no_duplicates()
        &&& forall|i: int, j: int|
            0 <= i < j < self.edges@.len() ==> !((#[trigger] self.edges@[i]).0 == (
            #[trigger] self.edges@[j]).0 && self.edges@[i].1 == self.edges@[j].1)
        &&& forall|i: int|
            0 <= i < self.edges@.len() ==> self.node_ids@.contains((#[trigger] self.edges@[i]).0)
                && self.node_ids@.contains(self.edges@[i].1)
    }

    /// What a well-formed graph is.
    pub proof fn lemma_wf(&self)
        requires
            self.wf(),
        ensures
            self.node_ids().len() == self.nodes().len(),
            self.node_ids().no_duplicates(),
            forall|i: int, j: int|
                0 <= i < j < self.edges().len() ==> !((#[trigger] self.edges()[i]).0 == (
                #[trigger] self.edges()[j]).0 && self.edges()[i].1 == self.edges()[j].1),
            forall|i: int|
                0 <= i < self.edges().len() ==> self.has_node((#[trigger] self.edges()[i]).0)
                    && self.has_node(self.edges()[i].1),
    {
    }

    /// An empty graph with room for the given numbers of nodes and edges.
    pub fn with_capacity(nodes: usize, edges: usize) -> (graph: Self)
        ensures
            graph.wf(),
            graph.node_ids() == Seq::<Id>::empty(),
            graph.nodes() == Seq::<N>::empty(),
            graph.edges() == Seq::<(Id, Id, E)>::empty(),
    {
        Self {
            node_ids: Vec::with_capacity(nodes),
            nodes: Vec::with_capacity(nodes),
            edges: Vec::with_capacity(edges),
        }
    }

    pub fn num_nodes(&self) -> (count: usize)
        requires
            self.wf(),
        ensures
            count == self.node_ids().len(),
    {
        self.node_ids.len()
    }

    pub fn num_edges(&self) -> (count: usize)
        ensures
            count == self.edges().len(),
    {
        self.edges.len()
    }

    pub fn node_id_at(&self, index: usize) -> (id: Id)
        requires
            index < self.node_ids().len(),
        ensures
            id == self.node_ids()[index as int],
    {
        self.node_ids[index]
    }

    /// The two ends of the edge at `index`: where it leaves and where it arrives.
    pub fn edge_at(&self, index: usize) -> (ends: (Id, Id))
        requires
            index < self.edges().len(),
        ensures
            ends.0 == self.edges()[index as int].0,
            ends.1 == self.edges()[index as int].1,
    {
        (self.edges[index].0, self.edges[index].1)
    }

    /// The index of the node `id`.
    pub fn index_of_node(&self, id: Id) -> (index: Option<usize>)
        requires
            self.wf(),
        ensures
            index is Some <==> self.has_node(id),
            index matches Some(i) ==> i < self.node_ids().len() && self.node_ids()[i as int] == id,
    {
        let mut i: usize = 0;
        while i < self.node_ids.len()
            invariant
                i <= self.node_ids@.len(),
                forall|j: int| 0 <= j < i ==> self.node_ids@[j] != id,
            decreases self.node_ids@.len() - i,
        {
            if self.node_ids[i] == id {
                return Some(i);
            }
            i += 1;
        }
        None
    }

    /// The index of the edge from `from` to `to`.
    fn index_of_edge(&self, from: Id, to: Id) -> (index: Option<usize>)
        ensures
            index is Some <==> has_edge(self.edges(), from, to),
            index matches Some(i) ==> i < self.edges().len() && self.edges()[i as int].0 == from
                && self.edges()[i as int].1 == to,
    {
        let mut i: usize = 0;
        while i < self.edges.len()
            invariant
                i <= self.edges@.len(),
                forall|j: int|
                    0 <= j < i ==> !((#[trigger] self.edges@[j]).0 == from && self.edges@[j].1
                        == to),
            decreases self.edges@.len() - i,
        {
            if self.edges[i].0 == from && self.edges[i].1 == to {
                return Some(i);
            }
            i += 1;
        }
        None
    }

    pub fn node_at(&self, index: usize) -> (node: &N)
        requires
            self.wf(),
            index < self.node_ids().len(),
        ensures
            *node == self.nodes()[index as int],
    {
        &self.nodes[index]
    }

    /// The node at `index`, to be changed in place. The shape of the graph
    /// stays as it is.
    pub fn node_at_mut(&mut self, index: usize) -> (node: &mut N)
        requires
            old(self).wf(),
            index < old(self).node_ids().len(),
        ensures
            *node == old(self).nodes()[index as int],
            final(self).nodes() == old(self).nodes().update(index as int, *final(node)),
            final(self).node_ids() == old(self).node_ids(),
            final(self).edges() == old(self).edges(),
            final(self).wf(),
    {
        &mut self.nodes[index]
    }

    /// Puts `node` into the graph under `id`. If the graph has a node under that
    /// id already, `node` takes its place and its edges, and the old node is
    /// handed back.
    pub fn add_node_with_id(&mut self, id: Id, node: N) -> (replaced: Option<N>)
        requires
            old(self).wf(),
        ensures
            final(self).wf(),
            final(self).edges() == old(self).edges(),
            replaced is Some <==> old(self).has_node(id),
            !old(self).has_node(id) ==> final(self).node_ids() == old(self).node_ids().push(id)
                && final(self).nodes() == old(self).nodes().push(node),
            old(self).has_node(id) ==> final(self).node_ids() == old(self).node_ids()
                && final(self).nodes() == old(self).nodes().update(
                old(self).node_ids().index_of(id),
                node,
            ) && replaced == Some(old(self).nodes()[old(self).node_ids().index_of(id)]),
    {
        match self.index_of_node(id) {
            Some(i) => {
                let mut node = node;
                std::mem::swap(&mut self.nodes[i], &mut node);
                Some(node)
            },
            None => {
                proof {
                    let ids = self.node_ids@;
                    assert forall|a: int, b: int|
                        0 <= a < ids.push(id).len() && 0 <= b < ids.push(id).len() && a
                            != b implies ids.push(id)[a] != ids.push(id)[b] by {
                        if a < ids.len() {
                            assert(ids.contains(ids[a]));
                        }
                        if b < ids.len() {
                            assert(ids.contains(ids[b]));
                        }
                    }
                    assert forall|k: int| 0 <= k < self.edges@.len() implies ids.push(
                        id,
                    ).contains((#[trigger] self.edges@[k]).0) && ids.push(id).contains(
                        self.edges@[k].1,
                    ) by {
                        let a = ids.index_of(self.edges@[k].0);
                        let b = ids.index_of(self.edges@[k].1);
                        assert(ids.push(id)[a] == self.edges@[k].0);
                        assert(ids.push(id)[b] == self.edges@[k].1);
                    }
                }
                self.node_ids.push(id);
                self.nodes.push(node);
                None
            },
        }
    }

    /// Removes from the edges the ones that touch the node `id`.
    fn remove_edges_of(&mut self, id: Id)
        ensures
            final(self).node_ids@ == old(self).node_ids@,
            final(self).nodes@ == old(self).nodes@,
            final(self).edges@ == edges_without_node(old(self).edges@, id),
    {
        let ghost all = self.edges@;
        let mut i: usize = self.edges.len();
        assert(all.subrange(0, i as int) == all);
        assert(all.subrange(i as int, all.len() as int).len() == 0);
        while i > 0
            invariant
                i <= all.len(),
                self.node_ids@ == old(self).node_ids@,
                self.nodes@ == old(self).nodes@,
                self.edges@ == all.subrange(0, i as int) + edges_without_node(
                    all.subrange(i as int, all.len() as int),
                    id,
                ),
            decreases i,
        {
            i -= 1;
            let ghost tail = all.subrange(i as int, all.len() as int);
            let ghost kept = edges_without_node(all.subrange(i + 1, all.len() as int), id);
            assert(tail.drop_first() == all.subrange(i + 1, all.len() as int));
            assert(tail[0] == all[i as int]);
            assert(self.edges@[i as int] == all[i as int]);
            if self.edges[i].0 == id || self.edges[i].1 == id {
                let _ = self.edges.remove(i);
                assert(self.edges@ == all.subrange(0, i as int) + kept);
            } else {
                assert(self.edges@ == all.subrange(0, i as int) + (seq![all[i as int]] + kept));
            }
        }
        assert(all.subrange(0, 0) + edges_without_node(all, id) == edges_without_node(all, id));
        assert(all.subrange(0, all.len() as int) == all);
    }

    /// Takes the node `id` out of the graph, with every edge that touches it.
    pub fn remove_node(&mut self, id: Id) -> (removed: Option<N>)
        requires
            old(self).wf(),
        ensures
            final(self).wf(),
            removed is Some <==> old(self).has_node(id),
            !old(self).has_node(id) ==> final(self).node_ids() == old(self).node_ids()
                && final(self).nodes() == old(self).nodes() && final(self).edges()
                    == old(self).edges(),
            old(self).has_node(id) ==> {
                let i = old(self).node_ids().index_of(id);
                &&& removed == Some(old(self).nodes()[i])
                &&& final(self).node_ids() == old(self).node_ids().remove(i)
                &&& final(self).nodes() == old(self).nodes().remove(i)
                &&& final(self).edges() == edges_without_node(old(self).edges(), id)
                &&& !final(self).has_node(id)
            },
    {
        match self.index_of_node(id) {
            Some(i) => {
                let ghost ids = self.node_ids@;
                let ghost before = self.edges@;
                proof {
                    let k = ids.index_of(id);
                    assert(ids[k] == id);
                    assert(k == i);
                }
                let _ = self.node_ids.remove(i);
                let node = self.nodes.remove(i);
                self.remove_edges_of(id);
                proof {
                    let left = ids.remove(i as int);
                    assert forall|a: int, b: int|
                        0 <= a < left.len() && 0 <= b < left.len() && a != b implies left[a]
                        != left[b] by {
                        let a1 = if a < i {
                            a
                        } else {
                            a + 1
                        };
                        let b1 = if b < i {
                            b
                        } else {
                            b + 1
                        };
                        assert(left[a] == ids[a1]);
                        assert(left[b] == ids[b1]);
                    }
                    assert(!left.contains(id)) by {
                        if left.contains(id) {
                            let a = choose|a: int| 0 <= a < left.len() && left[a] == id;
                            let a1 = if a < i {
                                a
                            } else {
                                a + 1
                            };
                            assert(left[a] == ids[a1]);
                        }
                    }
                    lemma_edges_without_node(before, id);
                    let kept = self.edges@;
                    assert forall|x: int, y: int| 0 <= x < y < kept.len() implies !((
                    #[trigger] kept[x]).0 == (#[trigger] kept[y]).0 && kept[x].1
                        == kept[y].1) by {
                        lemma_edges_without_node_order(before, id, x, y);
                    }
                    assert forall|x: int| 0 <= x < kept.len() implies left.contains(
                        (#[trigger] kept[x]).0,
                    ) && left.contains(kept[x].1) by {
                        assert(before.contains(kept[x]));
                        let j = choose|j: int| 0 <= j < before.len() && before[j] == kept[x];
                        let a = ids.index_of(before[j].0);
                        let b = ids.index_of(before[j].1);
                        assert(ids[a] == before[j].0 && ids[b] == before[j].1);
                        let a2 = if a < i {
                            a
                        } else {
                            a - 1
                        };
                        let b2 = if b < i {
                            b
                        } else {
                            b - 1
                        };
                        assert(left[a2] == ids[a]);
                        assert(left[b2] == ids[b]);
                    }
                }
                Some(node)
            },
            None => None,
        }
    }

    /// Adds an edge from `from` to `to` that carries `edge`, or gives the edge
    /// that already leads from `from` to `to` this `edge` to carry. Nothing
    /// happens, and `false` comes back, if either node is missing.
    pub fn add_edge(&mut self, from: Id, to: Id, edge: E) -> (added: bool)
        requires
            old(self).wf(),
        ensures
            final(self).wf(),
            final(self).node_ids() == old(self).node_ids(),
            final(self).nodes() == old(self).nodes(),
            added == (old(self).has_node(from) && old(self).has_node(to)),
            !added ==> final(self).edges() == old(self).edges(),
            added && !has_edge(old(self).edges(), from, to)
                ==> final(self).edges() == old(self).edges().push((from, to, edge)),
            added && has_edge(old(self).edges(), from, to)
                ==> final(self).edges().len() == old(self).edges().len() && (forall|i: int|
                0 <= i < old(self).edges().len()
                    ==> #[trigger] final(self).edges()[i] == (if old(self).edges()[i].0 == from
                        && old(self).edges()[i].1 == to {
                    (from, to, edge)
                } else {
                    old(self).edges()[i]
                })),
            has_edge(final(self).edges(), from, to) == (added || has_edge(
                old(self).edges(),
                from,
                to,
            )),
    {
        if self.index_of_node(from).is_none() || self.index_of_node(to).is_none() {
            return false;
        }
        match self.index_of_edge(from, to) {
            Some(i) => {
                self.edges.set(i, (from, to, edge));
                assert(final(self).edges@[i as int].0 == from);
            },
            None => {
                self.edges.push((from, to, edge));
                assert(final(self).edges@[final(self).edges@.len() - 1].0 == from);
            },
        }
        true
    }

    /// Takes the edge from `from` to `to` out of the graph and hands back what
    /// it carried.
    pub fn remove_edge(&mut self, from: Id, to: Id) -> (removed: Option<E>)
        requires
            old(self).wf(),
        ensures
            final(self).wf(),
            final(self).node_ids() == old(self).node_ids(),
            final(self).nodes() == old(self).nodes(),
            removed is Some <==> has_edge(old(self).edges(), from, to),
            removed is None ==> final(self).edges() == old(self).edges(),
            removed matches Some(edge) ==> exists|i: int|
                0 <= i < old(self).edges().len() && #[trigger] old(self).edges()[i] == (
                    from,
                    to,
                    edge,
                ) && final(self).edges() == old(self).edges().remove(i),
            !has_edge(final(self).edges(), from, to),
    {
        match self.index_of_edge(from, to) {
            Some(i) => {
                let ghost before = self.edges@;
                let removed = self.edges.remove(i);
                proof {
                    let after = self.edges@;
                    assert(before[i as int] == (from, to, removed.2));
                    assert forall|x: int| 0 <= x < after.len() implies !((#[trigger] after[x]).0
                        == from && after[x].1 == to) by {
                        let x1 = if x < i {
                            x
                        } else {
                            x + 1
                        };
                        assert(after[x] == before[x1]);
                    }
                    assert forall|x: int, y: int| 0 <= x < y < after.len() implies !((
                    #[trigger] after[x]).0 == (#[trigger] after[y]).0 && after[x].1
                        == after[y].1) by {
                        let x1 = if x < i {
                            x
                        } else {
                            x + 1
                        };
                        let y1 = if y < i {
                            y
                        } else {
                            y + 1
                        };
                        assert(after[x] == before[x1]);
                        assert(after[y] == before[y1]);
                    }
                    assert forall|x: int| 0 <= x < after.len() implies self.node_ids@.contains(
                        (#[trigger] after[x]).0,
                    ) && self.node_ids@.contains(after[x].1) by {
                        let x1 = if x < i {
                            x
                        } else {
                            x + 1
                        };
                        assert(after[x] == before[x1]);
                    }
                }
                Some(removed.2)
            },
            None => None,
        }
    }

    /// The nodes at the other end of the edges of `id` in the given direction.
    pub fn neighbors(&self, id: Id, direction: Direction) -> (ids: Vec<Id>)
        ensures
            ids@ == neighbor_ids(self.edges(), id, direction),
    {
        let mut ids: Vec<Id> = Vec::new();
        let mut i: usize = 0;
        assert(self.edges@.subrange(0, 0) == Seq::<(Id, Id, E)>::empty());
        while i < self.edges.len()
            invariant
                i <= self.edges@.len(),
                ids@ == neighbor_ids(self.edges@.subrange(0, i as int), id, direction),
            decreases self.edges@.len() - i,
        {
            let ghost prefix = self.edges@.subrange(0, i + 1);
            assert(prefix.drop_last() == self.edges@.subrange(0, i as int));
            assert(prefix.last() == self.edges@[i as int]);
            match direction {
                Direction::Incoming => {
                    if self.edges[i].1 == id {
                        ids.push(self.edges[i].0);
                    }
                },
                Direction::Outgoing => {
                    if self.edges[i].0 == id {
                        ids.push(self.edges[i].1);
                    }
                },
            }
            i += 1;
        }
        assert(self.edges@.subrange(0, i as int) == self.edges@);
        ids
    }
}

/// Where no edge touches the node, `edges_without_node` leaves every edge.
pub proof fn lemma_edges_without_missing_node<E>(edges: Seq<(Id, Id, E)>, id: Id)
    requires
        forall|i: int| 0 <= i < edges.len() ==> (#[trigger] edges[i]).0 != id && edges[i].1 != id,
    ensures
        edges_without_node(edges, id) == edges,
    decreases edges.len(),
{
    if edges.len() > 0 {
        let rest = edges.drop_first();
        assert forall|i: int| 0 <= i < rest.len() implies (#[trigger] rest[i]).0 != id && rest[i].1
            != id by {
            assert(rest[i] == edges[i + 1]);
        }
        lemma_edges_without_missing_node(rest, id);
        assert(seq![edges[0]] + rest == edges);
    }
}

/// `edges_without_node` keeps the order of the edges: two edges that are left
/// stood in the same order before.
pub proof fn lemma_edges_without_node_order<E>(edges: Seq<(Id, Id, E)>, id: Id, x: int, y: int)
    requires
        0 <= x < y < edges_without_node(edges, id).len(),
    ensures
        exists|a: int, b: int|
            0 <= a < b < edges.len() && #[trigger] edges[a] == edges_without_node(edges, id)[x]
                && #[trigger] edges[b] == edges_without_node(edges, id)[y],
    decreases edges.len(),
{
    let rest = edges.drop_first();
    let kept = edges_without_node(edges, id);
    let kept_rest = edges_without_node(rest, id);
    let touches = edges[0].0 == id || edges[0].1 == id;
    if touches {
        lemma_edges_without_node_order(rest, id, x, y);
        let (a, b) = choose|a: int, b: int|
            0 <= a < b < rest.len() && #[trigger] rest[a] == kept_rest[x] && #[trigger] rest[b]
                == kept_rest[y];
        assert(edges[a + 1] == kept[x] && edges[b + 1] == kept[y]);
    } else if x == 0 {
        lemma_edges_without_node(rest, id);
        assert(kept[y] == kept_rest[y - 1]);
        assert(rest.contains(kept_rest[y - 1]));
        let b = choose|b: int| 0 <= b < rest.len() && rest[b] == kept_rest[y - 1];
        assert(edges[0] == kept[0] && edges[b + 1] == kept[y]);
    } else {
        lemma_edges_without_node_order(rest, id, x - 1, y - 1);
        let (a, b) = choose|a: int, b: int|
            0 <= a < b < rest.len() && #[trigger] rest[a] == kept_rest[x - 1]
                && #[trigger] rest[b] == kept_rest[y - 1];
        assert(kept[x] == kept_rest[x - 1] && kept[y] == kept_rest[y - 1]);
        assert(edges[a + 1] == kept[x] && edges[b + 1] == kept[y]);
    }
}

} // verus!
