//! Depth-first search for a path in a directed graph, stated over the map
//! from each node to the nodes that its edges lead to.

use vstd::prelude::*;
use vstd::set_lib::lemma_len_subset;

verus! {

/// For each node that edges leave, the nodes that they lead to, in the order
/// in which the search tries them.
pub type Adjacency = Map<usize, Seq<usize>>;

/// The state of a search: whether the goal has been found, the nodes visited
/// so far, and the nodes on the way from the start to the node in hand.
pub struct Search {
    pub found: bool,
    pub visited: Set<usize>,
    pub path: Seq<usize>,
}

/// The number of nodes with edges that have not been visited.
pub open spec fn unvisited(adj: Adjacency, visited: Set<usize>) -> nat {
    adj.dom().difference(visited).len()
}

/// The search from `current` for `to`, after the nodes `visited` have been
/// visited and with `path` leading to `current`.
///
/// A node that has been visited is not visited again. Otherwise the node is
/// marked and put on the path; if it is not the goal, the nodes that its
/// edges lead to are searched from in turn, and if none of them finds the
/// goal, the node is taken off the path again.
pub open spec fn visit(
    adj: Adjacency,
    current: usize,
    to: usize,
    visited: Set<usize>,
    path: Seq<usize>,
) -> Search
    decreases unvisited(adj, visited), 0nat, 0nat,
    when adj.dom().finite()
{
    if visited.contains(current) {
        Search { found: false, visited, path }
    } else {
        let seen = visited.insert(current);
        let trail = path.push(current);
        if current == to {
            Search { found: true, visited: seen, path: trail }
        } else if adj.contains_key(current) {
            proof {
                lemma_unvisited_less(adj, visited, current);
            }
            let below = explore(adj, adj[current], 0, to, seen, trail);
            if below.found {
                below
            } else {
                Search { found: false, visited: below.visited, path: below.path.drop_last() }
            }
        } else {
            Search { found: false, visited: seen, path: trail.drop_last() }
        }
    }
}

/// The search from the nodes `targets[i..]`, one after the other, until one
/// of them finds the goal.
pub open spec fn explore(
    adj: Adjacency,
    targets: Seq<usize>,
    i: int,
    to: usize,
    visited: Set<usize>,
    path: Seq<usize>,
) -> Search
    decreases unvisited(adj, visited), 1nat, targets.len() - i,
    when adj.dom().finite() && 0 <= i
{
    if i >= targets.len() {
        Search { found: false, visited, path }
    } else {
        let first = visit(adj, targets[i], to, visited, path);
        if first.found {
            first
        } else {
            proof {
                lemma_unvisited_no_more(adj, visited, visited.union(first.visited));
            }
            explore(adj, targets, i + 1, to, visited.union(first.visited), first.path)
        }
    }
}

/// The path that the search finds from `from` to `to`, if it finds one.
pub open spec fn found_path(adj: Adjacency, from: usize, to: usize) -> Option<Seq<usize>> {
    let search = visit(adj, from, to, Set::empty(), seq![]);
    if search.found {
        Some(search.path)
    } else {
        None
    }
}

/// Visiting a node that edges leave, for the first time, leaves fewer nodes
/// unvisited.
pub proof fn lemma_unvisited_less(adj: Adjacency, visited: Set<usize>, node: usize)
    requires
        adj.dom().finite(),
        adj.contains_key(node),
        !visited.contains(node),
    ensures
        unvisited(adj, visited.insert(node)) < unvisited(adj, visited),
{
    let before = adj.dom().difference(visited);
    let after = adj.dom().difference(visited.insert(node));
    assert(after == before.remove(node));
    assert(before.contains(node));
}

/// Visiting more nodes leaves no more nodes unvisited.
pub proof fn lemma_unvisited_no_more(adj: Adjacency, visited: Set<usize>, more: Set<usize>)
    requires
        adj.dom().finite(),
        visited.subset_of(more),
    ensures
        unvisited(adj, more) <= unvisited(adj, visited),
{
    lemma_len_subset(adj.dom().difference(more), adj.dom().difference(visited));
}

/// Whether an edge leads from `a` to `b`.
pub open spec fn has_edge(adj: Adjacency, a: usize, b: usize) -> bool {
    adj.contains_key(a) && adj[a].contains(b)
}

/// Whether an edge leads from each node of `walk` to the next.
pub open spec fn is_walk(adj: Adjacency, walk: Seq<usize>) -> bool {
    forall|k: int| 0 <= k < walk.len() - 1 ==> has_edge(adj, #[trigger] walk[k], walk[k + 1])
}

/// Whether `walk` starts at `from`, ends at `to` and goes along edges.
pub open spec fn leads(adj: Adjacency, walk: Seq<usize>, from: usize, to: usize) -> bool {
    &&& walk.len() > 0
    &&& walk[0] == from
    &&& walk.last() == to
    &&& is_walk(adj, walk)
}

/// Whether `to` can be reached from `from` along edges. Every node can be
/// reached from itself.
pub open spec fn reachable(adj: Adjacency, from: usize, to: usize) -> bool {
    exists|walk: Seq<usize>| leads(adj, walk, from, to)
}

/// Whether `after` is `before` with a walk to `to` put behind it, which
/// starts with one of `starts`, goes along edges from node to node, and holds
/// no node twice and none that `visited` holds.
pub open spec fn extends_to(
    adj: Adjacency,
    before: Seq<usize>,
    after: Seq<usize>,
    starts: Set<usize>,
    to: usize,
    visited: Set<usize>,
) -> bool {
    &&& after.len() > before.len()
    &&& after.take(before.len() as int) == before
    &&& starts.contains(after[before.len() as int])
    &&& after.last() == to
    &&& forall|k: int|
        before.len() <= k < after.len() - 1 ==> has_edge(adj, #[trigger] after[k], after[k + 1])
    &&& forall|k: int| before.len() <= k < after.len() ==> !visited.contains(#[trigger] after[k])
    &&& forall|j: int, k: int|
        before.len() <= j < k < after.len() ==> #[trigger] after[j] != #[trigger] after[k]
}

/// What every search does: it only adds to the nodes visited; where it
/// fails, it leaves the path as it was; where it succeeds, it has put a walk
/// from `current` to the goal behind the path, through nodes that had not
/// been visited, each once.
pub proof fn lemma_visit(
    adj: Adjacency,
    current: usize,
    to: usize,
    visited: Set<usize>,
    path: Seq<usize>,
)
    requires
        adj.dom().finite(),
    ensures
        ({
            let search = visit(adj, current, to, visited, path);
            &&& visited.subset_of(search.visited)
            &&& !search.found ==> search.path == path
            &&& search.found ==> extends_to(adj, path, search.path, set![current], to, visited)
        }),
    decreases unvisited(adj, visited), 0nat, 0nat,
{
    if !visited.contains(current) {
        let seen = visited.insert(current);
        let trail = path.push(current);
        assert(trail.drop_last() == path);
        assert(trail.take(path.len() as int) == path);
        if current != to && adj.contains_key(current) {
            lemma_unvisited_less(adj, visited, current);
            lemma_explore(adj, adj[current], 0, to, seen, trail);
            let below = explore(adj, adj[current], 0, to, seen, trail);
            if below.found {
                let next = below.path[trail.len() as int];
                assert(below.path.take(path.len() as int) == path) by {
                    assert(below.path.take(trail.len() as int).take(path.len() as int)
                        == below.path.take(path.len() as int));
                }
                assert(below.path[path.len() as int] == current) by {
                    assert(below.path.take(trail.len() as int)[path.len() as int] == current);
                }
                assert forall|k: int| path.len() <= k < below.path.len() - 1 implies has_edge(
                    adj,
                    #[trigger] below.path[k],
                    below.path[k + 1],
                ) by {
                    if k == path.len() {
                        assert(adj[current].contains(next));
                    }
                }
                assert forall|k: int| path.len() <= k < below.path.len() implies !visited.contains(
                    #[trigger] below.path[k],
                ) by {
                    if k > path.len() {
                        assert(!seen.contains(below.path[k]));
                    }
                }
                assert forall|j: int, k: int|
                    path.len() <= j < k < below.path.len() implies #[trigger] below.path[j]
                    != #[trigger] below.path[k] by {
                    if j == path.len() {
                        assert(!seen.contains(below.path[k]));
                    }
                }
            }
        }
    }
}

/// What every search from a list of nodes does: as [`lemma_visit`], with the
/// walk starting at one of the nodes.
pub proof fn lemma_explore(
    adj: Adjacency,
    targets: Seq<usize>,
    i: int,
    to: usize,
    visited: Set<usize>,
    path: Seq<usize>,
)
    requires
        adj.dom().finite(),
        0 <= i <= targets.len(),
    ensures
        ({
            let search = explore(adj, targets, i, to, visited, path);
            &&& visited.subset_of(search.visited)
            &&& !search.found ==> search.path == path
            &&& search.found ==> extends_to(
                adj,
                path,
                search.path,
                targets.to_set(),
                to,
                visited,
            )
        }),
    decreases unvisited(adj, visited), 1nat, targets.len() - i,
{
    if i < targets.len() {
        lemma_visit(adj, targets[i], to, visited, path);
        let first = visit(adj, targets[i], to, visited, path);
        if first.found {
            assert(targets.to_set().contains(targets[i]));
        } else {
            let more = visited.union(first.visited);
            lemma_unvisited_no_more(adj, visited, more);
            lemma_explore(adj, targets, i + 1, to, more, path);
        }
    }
}

/// Whether every edge that leaves a node of `visited` that is not on `path`
/// leads to a node of `visited`.
pub open spec fn closed_off(adj: Adjacency, visited: Set<usize>, path: Seq<usize>) -> bool {
    forall|a: usize, b: usize|
        visited.contains(a) && !path.contains(a) && #[trigger] has_edge(adj, a, b)
            ==> visited.contains(b)
}

/// A search that fails has visited `current`, has not visited the goal, and
/// has left no edge that leads out of the visited nodes, but from the nodes
/// on the path.
pub proof fn lemma_visit_fails(
    adj: Adjacency,
    current: usize,
    to: usize,
    visited: Set<usize>,
    path: Seq<usize>,
)
    requires
        adj.dom().finite(),
        closed_off(adj, visited, path),
        forall|k: int| 0 <= k < path.len() ==> visited.contains(#[trigger] path[k]),
        !visited.contains(to),
    ensures
        ({
            let search = visit(adj, current, to, visited, path);
            !search.found ==> {
                &&& closed_off(adj, search.visited, path)
                &&& search.visited.contains(current)
                &&& !search.visited.contains(to)
            }
        }),
    decreases unvisited(adj, visited), 0nat, 0nat,
{
    lemma_visit(adj, current, to, visited, path);
    if !visited.contains(current) && current != to {
        let seen = visited.insert(current);
        let trail = path.push(current);
        assert(trail.drop_last() == path);
        assert(closed_off(adj, seen, trail)) by {
            assert forall|a: usize, b: usize|
                seen.contains(a) && !trail.contains(a) && #[trigger] has_edge(
                    adj,
                    a,
                    b,
                ) implies seen.contains(b) by {
                assert(trail[path.len() as int] == current);
                assert(a != current);
                if path.contains(a) {
                    let k = choose|k: int| 0 <= k < path.len() && path[k] == a;
                    assert(trail[k] == a);
                }
            }
        }
        assert forall|k: int| 0 <= k < trail.len() implies seen.contains(#[trigger] trail[k]) by {
            if k < path.len() {
                assert(trail[k] == path[k]);
            }
        }
        if adj.contains_key(current) {
            lemma_unvisited_less(adj, visited, current);
            lemma_explore(adj, adj[current], 0, to, seen, trail);
            lemma_explore_fails(adj, adj[current], 0, to, seen, trail);
            let below = explore(adj, adj[current], 0, to, seen, trail);
            if !below.found {
                assert forall|a: usize, b: usize|
                    below.visited.contains(a) && !path.contains(a) && #[trigger] has_edge(
                        adj,
                        a,
                        b,
                    ) implies below.visited.contains(b) by {
                    if a == current {
                        let j = choose|j: int| 0 <= j < adj[current].len() && adj[current][j] == b;
                        assert(below.visited.contains(adj[current][j]));
                    } else {
                        assert(!trail.contains(a)) by {
                            if trail.contains(a) {
                                let k = choose|k: int| 0 <= k < trail.len() && trail[k] == a;
                                assert(path[k] == a);
                            }
                        }
                    }
                }
            }
        } else {
            assert forall|a: usize, b: usize|
                seen.contains(a) && !path.contains(a) && #[trigger] has_edge(
                    adj,
                    a,
                    b,
                ) implies seen.contains(b) by {
                if a != current {
                    assert(!trail.contains(a)) by {
                        if trail.contains(a) {
                            let k = choose|k: int| 0 <= k < trail.len() && trail[k] == a;
                            assert(path[k] == a);
                        }
                    }
                }
            }
        }
    }
}

/// A search from a list of nodes that fails has visited them all, has not
/// visited the goal, and has left no edge that leads out of the visited
/// nodes, but from the nodes on the path.
pub proof fn lemma_explore_fails(
    adj: Adjacency,
    targets: Seq<usize>,
    i: int,
    to: usize,
    visited: Set<usize>,
    path: Seq<usize>,
)
    requires
        adj.dom().finite(),
        0 <= i <= targets.len(),
        closed_off(adj, visited, path),
        forall|k: int| 0 <= k < path.len() ==> visited.contains(#[trigger] path[k]),
        !visited.contains(to),
        forall|j: int| 0 <= j < i ==> visited.contains(#[trigger] targets[j]),
    ensures
        ({
            let search = explore(adj, targets, i, to, visited, path);
            !search.found ==> {
                &&& closed_off(adj, search.visited, path)
                &&& forall|j: int|
                    0 <= j < targets.len() ==> search.visited.contains(#[trigger] targets[j])
                &&& !search.visited.contains(to)
            }
        }),
    decreases unvisited(adj, visited), 1nat, targets.len() - i,
{
    if i < targets.len() {
        lemma_visit(adj, targets[i], to, visited, path);
        lemma_visit_fails(adj, targets[i], to, visited, path);
        let first = visit(adj, targets[i], to, visited, path);
        if !first.found {
            let more = visited.union(first.visited);
            assert(more =~= first.visited);
            lemma_unvisited_no_more(adj, visited, more);
            lemma_explore_fails(adj, targets, i + 1, to, more, path);
        }
    }
}

/// A set of nodes that no edge leads out of holds every node of a walk that
/// starts in it.
pub proof fn lemma_walk_stays(adj: Adjacency, visited: Set<usize>, walk: Seq<usize>, k: int)
    requires
        closed_off(adj, visited, seq![]),
        is_walk(adj, walk),
        0 <= k < walk.len(),
        visited.contains(walk[0]),
    ensures
        visited.contains(walk[k]),
    decreases k,
{
    if k > 0 {
        lemma_walk_stays(adj, visited, walk, k - 1);
        assert(has_edge(adj, walk[k - 1], walk[k]));
        assert(!Seq::<usize>::empty().contains(walk[k - 1]));
    }
}

/// The path that the search finds starts at `from`, ends at `to`, goes along
/// edges and holds no node twice.
pub proof fn lemma_found_path_leads(adj: Adjacency, from: usize, to: usize)
    requires
        adj.dom().finite(),
    ensures
        found_path(adj, from, to) matches Some(path) ==> leads(adj, path, from, to)
            && path.no_duplicates(),
{
    lemma_visit(adj, from, to, Set::empty(), seq![]);
}

/// The search finds a path exactly where the goal can be reached.
pub proof fn lemma_found_iff_reachable(adj: Adjacency, from: usize, to: usize)
    requires
        adj.dom().finite(),
    ensures
        found_path(adj, from, to) is Some <==> reachable(adj, from, to),
{
    let search = visit(adj, from, to, Set::empty(), seq![]);
    lemma_found_path_leads(adj, from, to);
    if search.found {
        assert(leads(adj, search.path, from, to));
    } else {
        lemma_visit_fails(adj, from, to, Set::empty(), seq![]);
        if reachable(adj, from, to) {
            let walk = choose|walk: Seq<usize>| leads(adj, walk, from, to);
            lemma_walk_stays(adj, search.visited, walk, walk.len() - 1);
        }
    }
}

} // verus!
