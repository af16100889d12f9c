//! An in-memory store of labelled nodes and directed edges.

use crate::search::{
    explore, found_path, leads, lemma_found_iff_reachable, lemma_found_path_leads,
    lemma_unvisited_less, lemma_unvisited_no_more, reachable, unvisited, visit, Adjacency, Search,
};
use std::collections::HashMap;
use vstd::prelude::*;
use vstd::std_specs::hash::*;

verus! {

broadcast use vstd::std_specs::hash::group_hash_axioms;

/// A node: its identifier, its labels and its properties.
#[derive(Debug)]
pub struct Node {
    pub id: usize,
    pub labels: Vec<String>,
    pub properties: HashMap<String, String>,
}

/// A directed edge between two nodes.
#[derive(Debug)]
pub struct Edge {
    pub from: usize,
    pub to: usize,
    pub label: String,
}

/// Nodes, the edges that leave each of them in the order in which they were
/// added, and the identifier that the next node gets.
pub struct Graph {
    nodes: HashMap<usize, Node>,
    edges: HashMap<usize, Vec<Edge>>,
    next_id: usize,
}

/// The nodes that the edges `edges` lead to, in their order.
pub open spec fn targets(edges: Seq<Edge>) -> Seq<usize> {
    edges.map_values(|edge: Edge| edge.to)
}

impl Graph {
    /// The nodes by their identifiers.
    pub closed spec fn nodes(&self) -> Map<usize, Node> {
        self.nodes@
    }

    /// For each node that an edge leaves, the edges that leave it, in the
    /// order in which they were added.
    pub closed spec fn edges(&self) -> Map<usize, Seq<Edge>> {
        self.edges@.map_values(|list: Vec<Edge>| list@)
    }

    /// The identifier that the next node gets.
    pub closed spec fn next_id(&self) -> usize {
        self.next_id
    }

    /// Whether the identifiers in use are those below `next_id`, each node is
    /// filed under its own identifier, and each edge is filed under the node it
    /// leaves and leads to a node.
    pub open spec fn wf(&self) -> bool {
        &&& self.nodes().dom().finite()
        &&& self.edges().dom().finite()
        &&& forall|id: usize| self.nodes().contains_key(id) <==> id < self.next_id()
        &&& forall|id: usize|
            self.nodes().contains_key(id) ==> (#[trigger] self.nodes()[id]).id == id
        &&& forall|id: usize| #[trigger]
            self.edges().contains_key(id) ==> self.nodes().contains_key(id)
        &&& forall|id: usize, k: int|
            self.edges().contains_key(id) && 0 <= k < self.edges()[id].len() ==> {
                &&& (#[trigger] self.edges()[id][k]).from == id
                &&& self.nodes().contains_key(self.edges()[id][k].to)
            }
    }

    /// The nodes that the edges from node `id` lead to, in the order in which
    /// the edges were added.
    pub open spec fn neighbors(&self, id: usize) -> Seq<usize> {
        if self.edges().contains_key(id) {
            targets(self.edges()[id])
        } else {
            seq![]
        }
    }

    /// For each node that an edge leaves, the nodes that its edges lead to.
    pub open spec fn adjacency(&self) -> Adjacency {
        self.edges().map_values(|edges: Seq<Edge>| targets(edges))
    }

    /// Edges leave only finitely many nodes.
    pub proof fn lemma_adjacency_finite(&self)
        ensures
            self.adjacency().dom().finite(),
    {
        assert(self.adjacency().dom() =~= self.edges@.dom());
    }

    /// The graph without nodes.
    pub fn new() -> (graph: Self)
        ensures
            graph.wf(),
            graph.nodes() == Map::<usize, Node>::empty(),
            graph.edges() == Map::<usize, Seq<Edge>>::empty(),
            graph.next_id() == 0,
    {
        let graph = Self { nodes: HashMap::new(), edges: HashMap::new(), next_id: 0 };
        assert(graph.edges() =~= Map::<usize, Seq<Edge>>::empty());
        graph
    }

    /// Adds a node and returns its identifier: the number of nodes before.
    pub fn add_node(&mut self, labels: Vec<String>, properties: HashMap<String, String>) -> (id:
        usize)
        requires
            old(self).next_id() < usize::MAX,
        ensures
            old(self).wf() ==> final(self).wf(),
            id == old(self).next_id(),
            final(self).next_id() == id + 1,
            final(self).nodes() == old(self).nodes().insert(id, Node { id, labels, properties }),
            final(self).edges() == old(self).edges(),
    {
        let id = self.next_id;
        self.next_id += 1;
        let node = Node { id, labels, properties };
        self.nodes.insert(id, node);
        id
    }

    /// Adds an edge from node `from` to node `to`, after the edges that leave
    /// `from` already. Where one of the two is no node, nothing changes.
    pub fn add_edge(&mut self, from: usize, to: usize, label: String) -> (added: Result<(), ()>)
        ensures
            old(self).wf() ==> final(self).wf(),
            final(self).nodes() == old(self).nodes(),
            final(self).next_id() == old(self).next_id(),
            added is Ok <==> old(self).nodes().contains_key(from) && old(self).nodes().contains_key(
                to,
            ),
            added is Err ==> final(self).edges() == old(self).edges(),
            added is Ok ==> final(self).edges() == old(self).edges().insert(
                from,
                (if old(self).edges().contains_key(from) {
                    old(self).edges()[from]
                } else {
                    seq![]
                }).push(Edge { from, to, label }),
            ),
    {
        let (from_exists, to_exists) = (
            self.nodes.get(&from).is_some(),
            self.nodes.get(&to).is_some(),
        );
        if !(from_exists && to_exists) {
            return Err(());
        }
        let edge = Edge { from, to, label };
        let ghost before = self.edges@;
        let edges = self.edges.entry(from).or_insert(Vec::new());
        edges.push(edge);
        proof {
            let list = (if before.contains_key(from) {
                before[from]@
            } else {
                seq![]
            }).push(edge);
            assert(self.edges() =~= old(self).edges().insert(from, list));
            assert forall|id: usize, k: int|
                old(self).wf() && self.edges().contains_key(id) && 0 <= k < self.edges()[id].len()
                implies {
                &&& (#[trigger] self.edges()[id][k]).from == id
                &&& self.nodes().contains_key(self.edges()[id][k].to)
            } by {
                if id == from {
                    if k < list.len() - 1 {
                        assert(old(self).edges().contains_key(from));
                        assert(list[k] == old(self).edges()[from][k]);
                    }
                } else {
                    assert(old(self).edges().contains_key(id));
                    assert(self.edges()[id][k] == old(self).edges()[id][k]);
                }
            }
        }
        Ok(())
    }

    /// The node with the identifier `id`, if there is one.
    pub fn get_node(&self, id: usize) -> (node: Option<&Node>)
        ensures
            node == if self.nodes().contains_key(id) {
                Some(&self.nodes()[id])
            } else {
                None
            },
    {
        self.nodes.get(&id)
    }

    /// The nodes that the edges from node `id` lead to, in the order in which
    /// the edges were added; `None` where no edge leaves the node.
    pub fn get_neighbors(&self, id: usize) -> (neighbors: Option<Vec<usize>>)
        ensures
            match neighbors {
                Some(found) => self.edges().contains_key(id) && found@ == self.neighbors(id),
                None => !self.edges().contains_key(id),
            },
    {
        let edges = self.edges.get(&id)?;
        let mut neighbors: Vec<usize> = Vec::new();
        let mut k: usize = 0;
        while k < edges.len()
            invariant
                k <= edges@.len(),
                neighbors@ == targets(edges@.take(k as int)),
            decreases edges@.len() - k,
        {
            neighbors.push(edges[k].to);
            k = k + 1;
            assert(edges@.take(k as int) == edges@.take(k - 1).push(edges@[k - 1]));
        }
        assert(edges@.take(k as int) == edges@);
        Some(neighbors)
    }

    /// Searches depth first for a path from `from` to `to`, along the edges
    /// of each node in the order in which they were added, and returns the
    /// first path found: the nodes from `from` to `to`. It need not be the
    /// shortest. A path is found exactly where `to` can be reached from
    /// `from`; a node reaches itself, whether it is in the graph or not.
    pub fn dfs(&self, from: usize, to: usize) -> (path: Option<Vec<usize>>)
        ensures
            match found_path(self.adjacency(), from, to) {
                Some(found) => path matches Some(nodes) && nodes@ == found,
                None => path is None,
            },
            path is Some <==> reachable(self.adjacency(), from, to),
            path matches Some(nodes) ==> leads(self.adjacency(), nodes@, from, to)
                && nodes@.no_duplicates(),
    {
        proof {
            self.lemma_adjacency_finite();
            lemma_found_path_leads(self.adjacency(), from, to);
            lemma_found_iff_reachable(self.adjacency(), from, to);
        }
        let mut visited = HashMap::new();
        let mut path = Vec::new();
        assert(visited@.dom() =~= Set::<usize>::empty());
        if !self.m_dfs(from, to, &mut visited, &mut path) {
            return None;
        }
        Some(path)
    }

    #[verifier::loop_isolation(false)]
    fn m_dfs(
        &self,
        current: usize,
        to: usize,
        visited: &mut HashMap<usize, bool>,
        path: &mut Vec<usize>,
    ) -> (found: bool)
        ensures
            visit(self.adjacency(), current, to, old(visited)@.dom(), old(path)@) == (Search {
                found,
                visited: final(visited)@.dom(),
                path: final(path)@,
            }),
            old(visited)@.dom().subset_of(final(visited)@.dom()),
            !found ==> final(path)@ == old(path)@,
        decreases unvisited(self.adjacency(), old(visited)@.dom()),
    {
        let ghost adj = self.adjacency();
        proof {
            self.lemma_adjacency_finite();
        }
        if visited.contains_key(&current) {
            return false;
        }
        visited.insert(current, true);
        path.push(current);
        let ghost seen = visited@.dom();
        let ghost trail = path@;
        assert(seen =~= old(visited)@.dom().insert(current));
        if current == to {
            return true;
        }
        if let Some(edges) = self.edges.get(&current) {
            let ghost nodes = targets(edges@);
            assert(adj.contains_key(current) && adj[current] == nodes);
            proof {
                lemma_unvisited_less(adj, old(visited)@.dom(), current);
            }
            let mut k: usize = 0;
            while k < edges.len()
                invariant
                    k <= edges@.len(),
                    seen.subset_of(visited@.dom()),
                    path@ == trail,
                    explore(adj, nodes, k as int, to, visited@.dom(), path@) == explore(
                        adj,
                        nodes,
                        0,
                        to,
                        seen,
                        trail,
                    ),
                decreases edges@.len() - k,
            {
                let ghost before = visited@.dom();
                proof {
                    lemma_unvisited_no_more(adj, seen, before);
                }
                if self.m_dfs(edges[k].to, to, visited, path) {
                    return true;
                }
                assert(before.union(visited@.dom()) =~= visited@.dom());
                k = k + 1;
            }
            assert(explore(adj, nodes, 0, to, seen, trail) == (Search {
                found: false,
                visited: visited@.dom(),
                path: path@,
            }));
        } else {
            assert(!adj.contains_key(current));
        }
        let ghost full = path@;
        path.pop();
        assert(path@ =~= full.drop_last());
        false
    }
}

} // verus!
