//! A growing directed graph whose nodes own their payload.
//!
//! Nodes are numbered in the order of their creation and are never removed.
//! A node keeps the ids of its neighbours without repetition, so adding an
//! edge a second time changes nothing.

use vstd::prelude::*;

verus! {

/// Why a graph operation was refused.
#[derive(Debug, Copy, Clone, PartialEq, Eq, Structural)]
pub enum GraphError {
    /// A node id beyond the last node, or an edge from a node to itself.
    InvalidNode,
}

/// A node: its payload and the ids of the nodes it has an edge to.
pub struct Node<T> {
    neighbors: Vec<usize>,
    pub data: T,
}

impl<T> Node<T> {
    /// The ids this node has an edge to, in the order in which they were added.
    pub closed spec fn spec_neighbors(&self) -> Seq<usize> {
        self.neighbors@
    }

    /// The payload.
    pub closed spec fn spec_data(&self) -> T {
        self.data
    }

    pub fn neighbors(&self) -> (ids: &Vec<usize>)
        ensures
            ids@ == self.spec_neighbors(),
    {
        &self.neighbors
    }

    pub fn data(&self) -> (data: &T)
        ensures
            *data == self.spec_data(),
    {
        &self.data
    }

    /// Lends out the payload; the edges stay as they are.
    pub fn data_mut(&mut self) -> (data: &mut T)
        ensures
            *data == old(self).spec_data(),
            final(self).spec_data() == *final(data),
            final(self).spec_neighbors() == old(self).spec_neighbors(),
    {
        &mut self.data
    }
}

/// The neighbour list of node `id` in a graph of `len` nodes is in order: it
/// names existing nodes only, never `id` itself, and none twice.
pub open spec fn neighbors_in_order(neighbors: Seq<usize>, id: int, len: nat) -> bool {
    &&& forall|k: int| 0 <= k < neighbors.len() ==> #[trigger] neighbors[k] < len
        && neighbors[k] != id
    &&& neighbors.no_duplicates()
}

/// The neighbour list after an edge to `neighbor` was asked for.
pub open spec fn with_neighbor(neighbors: Seq<usize>, neighbor: usize) -> Seq<usize> {
    if neighbors.contains(neighbor) {
        neighbors
    } else {
        neighbors.push(neighbor)
    }
}

pub struct Graph<T> {
    nodes: Vec<Node<T>>,
}

impl<T> View for Graph<T> {
    type V = Seq<Node<T>>;

    /// The nodes in the order of their ids.
    closed spec fn view(&self) -> Seq<Node<T>> {
        self.nodes@
    }
}

fn contains_id(ids: &Vec<usize>, id: usize) -> (found: bool)
    ensures
        found == ids@.contains(id),
{
    let mut k: usize = 0;
    while k < ids.len()
        invariant
            k <= ids.len(),
            forall|j: int| 0 <= j < k ==> ids@[j] != id,
        decreases ids.len() - k,
    {
        if ids[k] == id {
            return true;
        }
        k = k + 1;
    }
    false
}

impl<T> Graph<T> {
    /// Every neighbour list is in order.
    pub open spec fn wf(&self) -> bool {
        forall|i: int|
            0 <= i < self@.len() ==> neighbors_in_order(
                #[trigger] self@[i].spec_neighbors(),
                i,
                self@.len(),
            )
    }

    /// For each node, the nodes it has an edge to.
    pub open spec fn links(&self) -> Seq<Seq<usize>> {
        Seq::new(self@.len(), |id: int| self@[id].spec_neighbors())
    }

    /// Whether the graph has an edge from `from` to `to`.
    pub open spec fn has_edge(&self, from: int, to: int) -> bool {
        &&& 0 <= from < self@.len()
        &&& 0 <= to <= usize::MAX
        &&& self@[from].spec_neighbors().contains(to as usize)
    }

    /// Whether `path` is a walk along the edges of the graph.
    pub open spec fn is_walk(&self, path: Seq<int>) -> bool {
        &&& path.len() >= 1
        &&& forall|i: int| 0 <= i < path.len() ==> 0 <= #[trigger] path[i] < self@.len()
        &&& forall|i: int| 0 <= i < path.len() - 1 ==> self.has_edge(#[trigger] path[i], path[i + 1])
    }

    /// Whether a walk along the edges leads from `from` to `to`.
    pub open spec fn reaches(&self, from: int, to: int) -> bool {
        exists|path: Seq<int>| #[trigger] self.is_walk(path) && path[0] == from && path.last() == to
    }

    /// Whether `node` may get an edge to `neighbor`.
    pub open spec fn can_link(&self, node: usize, neighbor: usize) -> bool {
        node != neighbor && node < self@.len() && neighbor < self@.len()
    }

    pub fn new() -> (graph: Graph<T>)
        ensures
            graph@.len() == 0,
            graph.wf(),
    {
        Graph { nodes: Vec::new() }
    }

    pub fn len(&self) -> (n: usize)
        ensures
            n == self@.len(),
    {
        self.nodes.len()
    }

    /// Appends a node without edges and returns its id.
    pub fn new_node(&mut self, data: T) -> (id: usize)
        ensures
            id == old(self)@.len(),
            final(self)@.len() == old(self)@.len() + 1,
            final(self)@.len() <= usize::MAX,
            final(self)@.take(id as int) == old(self)@,
            final(self)@[id as int].spec_data() == data,
            final(self)@[id as int].spec_neighbors() == Seq::<usize>::empty(),
            forall|a: int, b: int| #[trigger] final(self).has_edge(a, b) == old(self).has_edge(a, b),
            old(self).wf() ==> final(self).wf(),
    {
        let next_index = self.nodes.len();
        self.nodes.push(Node { neighbors: Vec::new(), data });
        let count = self.nodes.len();
        proof {
            assert(count == self@.len());
            assert(self@.take(next_index as int) =~= old(self)@);
            assert forall|a: int, b: int| #[trigger] self.has_edge(a, b) == old(self).has_edge(
                a,
                b,
            ) by {
                if 0 <= a < next_index {
                    assert(self@[a] == old(self)@[a]);
                }
            }
            if old(self).wf() {
                assert forall|i: int| 0 <= i < self@.len() implies neighbors_in_order(
                    #[trigger] self@[i].spec_neighbors(),
                    i,
                    self@.len(),
                ) by {
                    if i < next_index {
                        assert(self@[i] == old(self)@[i]);
                    }
                }
            }
        }
        next_index
    }

    /// Adds an edge from `node` to `neighbor`. An edge that is there already
    /// stays as it is.
    pub fn add_neighbor(&mut self, node: usize, neighbor: usize) -> (res: Result<(), GraphError>)
        ensures
            res.is_ok() == old(self).can_link(node, neighbor),
            res.is_err() ==> res == Err::<(), GraphError>(GraphError::InvalidNode) && final(self)@
                == old(self)@,
            res.is_ok() ==> {
                &&& final(self)@.len() == old(self)@.len()
                &&& forall|j: int|
                    0 <= j < old(self)@.len() && j != node ==> final(self)@[j] == old(self)@[j]
                &&& final(self)@[node as int].spec_data() == old(self)@[node as int].spec_data()
                &&& final(self)@[node as int].spec_neighbors() == with_neighbor(
                    old(self)@[node as int].spec_neighbors(),
                    neighbor,
                )
                &&& final(self).has_edge(node as int, neighbor as int)
            },
            forall|a: int, b: int| old(self).has_edge(a, b)
                ==> #[trigger] final(self).has_edge(a, b),
            forall|a: int, b: int| #[trigger] final(self).has_edge(a, b)
                ==> old(self).has_edge(a, b) || (a == node && b == neighbor),
            old(self).wf() ==> final(self).wf(),
    {
        if node != neighbor && node < self.nodes.len() && neighbor < self.nodes.len() {
            if !contains_id(&self.nodes[node].neighbors, neighbor) {
                self.nodes[node].neighbors.push(neighbor);
                proof {
                    let before = old(self)@[node as int].spec_neighbors();
                    assert(self@[node as int].spec_neighbors()[before.len() as int] == neighbor);
                    assert forall|a: int, b: int| #[trigger] self.has_edge(a, b)
                        implies old(self).has_edge(a, b) || (a == node && b == neighbor) by {
                        if a == node {
                            let after = self@[node as int].spec_neighbors();
                            let k = choose|k: int| 0 <= k < after.len() && after[k] == b as usize;
                            if k < before.len() {
                                assert(before[k] == b as usize);
                            }
                        } else {
                            assert(self@[a] == old(self)@[a]);
                        }
                    }
                    assert forall|a: int, b: int| old(self).has_edge(a, b)
                        implies #[trigger] self.has_edge(
                        a,
                        b,
                    ) by {
                        if a == node {
                            let k = choose|k: int| 0 <= k < before.len() && before[k] == b as usize;
                            assert(self@[node as int].spec_neighbors()[k] == b as usize);
                        } else {
                            assert(self@[a] == old(self)@[a]);
                        }
                    }
                }
            }
            proof {
                if old(self).wf() {
                    assert forall|i: int| 0 <= i < self@.len() implies neighbors_in_order(
                        #[trigger] self@[i].spec_neighbors(),
                        i,
                        self@.len(),
                    ) by {
                        assert(neighbors_in_order(
                            old(self)@[i].spec_neighbors(),
                            i,
                            old(self)@.len(),
                        ));
                        if i != node {
                            assert(self@[i] == old(self)@[i]);
                        }
                    }
                }
            }
            return Ok(());
        }
        Err(GraphError::InvalidNode)
    }

    /// Appends a node and adds an edge from `node` to it.
    pub fn add_new_neighbor(&mut self, node: usize, data: T) -> (res: Result<usize, GraphError>)
        ensures
            res.is_ok() == (node < old(self)@.len()),
            res.is_err() ==> res == Err::<usize, GraphError>(GraphError::InvalidNode)
                && final(self)@ == old(self)@,
            res matches Ok(id) ==> {
                &&& id == old(self)@.len()
                &&& final(self)@.len() == old(self)@.len() + 1
                &&& forall|j: int|
                    0 <= j < old(self)@.len() && j != node ==> final(self)@[j] == old(self)@[j]
                &&& final(self)@[node as int].spec_data() == old(self)@[node as int].spec_data()
                &&& final(self)@[node as int].spec_neighbors() == old(self)@[node as int].spec_neighbors().push(id)
                &&& final(self)@[id as int].spec_data() == data
                &&& final(self)@[id as int].spec_neighbors() == Seq::<usize>::empty()
            },
            old(self).wf() ==> final(self).wf(),
    {
        if node < self.nodes.len() {
            let neighbor = self.new_node(data);
            let ghost mid = self@;
            assert(mid.take(neighbor as int) == old(self)@);
            assert(forall|j: int| 0 <= j < neighbor ==> mid[j] == mid.take(neighbor as int)[j]);
            self.nodes[node].neighbors.push(neighbor);
            proof {
                if old(self).wf() {
                    assert forall|i: int| 0 <= i < self@.len() implies neighbors_in_order(
                        #[trigger] self@[i].spec_neighbors(),
                        i,
                        self@.len(),
                    ) by {
                        if i != node {
                            assert(self@[i] == mid[i]);
                        }
                        if i < neighbor {
                            assert(neighbors_in_order(
                                old(self)@[i].spec_neighbors(),
                                i,
                                old(self)@.len(),
                            ));
                        }
                    }
                }
            }
            return Ok(neighbor);
        }
        Err(GraphError::InvalidNode)
    }

    pub fn get_neighbors(&self, node: usize) -> (res: Option<&Vec<usize>>)
        ensures
            res.is_some() == (node < self@.len()),
            res matches Some(ids) ==> ids@ == self@[node as int].spec_neighbors(),
    {
        if node < self.nodes.len() {
            return Some(&self.nodes[node].neighbors);
        }
        None
    }

    pub fn get(&self, node: usize) -> (res: Option<&Node<T>>)
        ensures
            res.is_some() == (node < self@.len()),
            res matches Some(n) ==> *n == self@[node as int],
    {
        if node < self.nodes.len() {
            Some(&self.nodes[node])
        } else {
            None
        }
    }

    /// Lends out a node so that its payload can be changed in place.
    pub fn get_mut(&mut self, node: usize) -> (res: Option<&mut Node<T>>)
        ensures
            res.is_some() == (node < old(self)@.len()),
            res.is_none() ==> final(self)@ == old(self)@,
            res matches Some(n) ==> *n == old(self)@[node as int]
                && final(self)@ == old(self)@.update(node as int, *final(n)),
    {
        if node < self.nodes.len() {
            Some(&mut self.nodes[node])
        } else {
            None
        }
    }
}

} // verus!
