//! Pipelines that feed back into themselves.
//!
//! Events flow from sources through transforms to sinks. A component that is
//! fed, through others, by its own output would never come to rest.
use vstd::prelude::*;

use crate::config::graph::{edge_models, Edge, EdgeModel, Graph};
use crate::text::{join, joined, push_text, texts};

verus! {

/// Whether components can be ranked so that each ranks above all that feed it.
pub open spec fn acyclic(edges: Seq<EdgeModel>) -> bool {
    exists|rank: spec_fn(Seq<char>) -> nat| ranks(edges, rank)
}

/// Whether every component ranks above all that feed it.
pub open spec fn ranks(edges: Seq<EdgeModel>, rank: spec_fn(Seq<char>) -> nat) -> bool {
    forall|i: int|
        0 <= i < edges.len() ==> rank((#[trigger] edges[i]).from.0) < rank(edges[i].to)
}

/// Whether following the given edges leads back to where they start.
pub open spec fn is_cycle(edges: Seq<EdgeModel>, path: Seq<int>) -> bool {
    &&& path.len() > 0
    &&& forall|k: int| 0 <= k < path.len() ==> 0 <= #[trigger] path[k] < edges.len()
    &&& forall|k: int|
        0 <= k < path.len() - 1 ==> edges[#[trigger] path[k]].to == edges[path[k + 1]].from.0
    &&& edges[path.last()].to == edges[path[0]].from.0
}

/// The components on a cycle, the first once more at the end.
pub open spec fn cycle_names(edges: Seq<EdgeModel>, path: Seq<int>) -> Seq<Seq<char>> {
    Seq::new(path.len(), |k: int| edges[path[k]].from.0).push(edges[path[0]].from.0)
}

/// The message on a cycle.
pub open spec fn cycle_message(edges: Seq<EdgeModel>, path: Seq<int>) -> Seq<char> {
    "Cyclic dependency detected in the chain [ "@ + joined(cycle_names(edges, path), " -> "@)
        + " ]"@
}

/// Along a path, ranks grow.
proof fn rank_grows(
    edges: Seq<EdgeModel>,
    rank: spec_fn(Seq<char>) -> nat,
    path: Seq<int>,
    k: int,
)
    requires
        ranks(edges, rank),
        is_cycle(edges, path),
        0 <= k < path.len(),
    ensures
        rank(edges[path[0]].from.0) < rank(edges[path[k]].to),
    decreases k,
{
    assert(rank(edges[path[k]].from.0) < rank(edges[path[k]].to));
    if k > 0 {
        rank_grows(edges, rank, path, k - 1);
        assert(edges[path[k - 1]].to == edges[path[k - 1 + 1]].from.0);
    }
}

/// No component can be ranked above itself: where there is a cycle, the
/// components cannot be ranked.
pub proof fn cycle_rules_out_ranks(edges: Seq<EdgeModel>, path: Seq<int>)
    requires
        is_cycle(edges, path),
    ensures
        !acyclic(edges),
{
    if acyclic(edges) {
        let rank = choose|rank: spec_fn(Seq<char>) -> nat| ranks(edges, rank);
        rank_grows(edges, rank, path, path.len() - 1);
    }
}

/// Whether edges can be gone through in this order with none leading to where
/// an earlier one, or the edge itself, starts.
pub open spec fn in_flow_order(edges: Seq<EdgeModel>, order: Seq<int>) -> bool {
    &&& forall|k: int| 0 <= k < order.len() ==> 0 <= #[trigger] order[k] < edges.len()
    &&& forall|a: int, b: int|
        0 <= a <= b < order.len() ==> edges[#[trigger] order[b]].to != edges[#[trigger] order[a]].from.0
}

/// How far into an order the last edge to a component stands.
pub open spec fn height(edges: Seq<EdgeModel>, order: Seq<int>, key: Seq<char>) -> nat
    decreases order.len(),
{
    if order.len() == 0 {
        0
    } else if edges[order.last()].to == key {
        order.len()
    } else {
        height(edges, order.drop_last(), key)
    }
}

/// A component stands at least as high as any edge to it.
proof fn height_at_least(edges: Seq<EdgeModel>, order: Seq<int>, k: int)
    requires
        0 <= k < order.len(),
    ensures
        height(edges, order, edges[order[k]].to) >= k + 1,
    decreases order.len(),
{
    let key = edges[order[k]].to;
    if edges[order.last()].to != key {
        assert(order.drop_last()[k] == order[k]);
        height_at_least(edges, order.drop_last(), k);
    }
}

/// A component stands no higher than a place from which on no edge leads to it.
proof fn height_at_most(edges: Seq<EdgeModel>, order: Seq<int>, key: Seq<char>, k: int)
    requires
        0 <= k <= order.len(),
        forall|b: int| k <= b < order.len() ==> edges[#[trigger] order[b]].to != key,
    ensures
        height(edges, order, key) <= k,
    decreases order.len(),
{
    if order.len() > 0 {
        if k == order.len() {
            if edges[order.last()].to != key {
                assert forall|b: int| k - 1 <= b < order.drop_last().len() implies edges[
                    #[trigger] order.drop_last()[b]
                ].to != key by {}
                height_at_most(edges, order.drop_last(), key, k - 1);
            }
        } else {
            assert(edges[order[order.len() - 1]].to != key);
            assert forall|b: int| k <= b < order.drop_last().len() implies edges[
                #[trigger] order.drop_last()[b]
            ].to != key by {
                assert(order.drop_last()[b] == order[b]);
            }
            height_at_most(edges, order.drop_last(), key, k);
        }
    }
}

/// Edges that can all be gone through in the order of flow have ranks.
proof fn flow_order_gives_ranks(edges: Seq<EdgeModel>, order: Seq<int>)
    requires
        in_flow_order(edges, order),
        forall|i: int| 0 <= i < edges.len() ==> order.contains(i),
    ensures
        acyclic(edges),
{
    let rank = |key: Seq<char>| height(edges, order, key);
    assert forall|i: int| 0 <= i < edges.len() implies rank((#[trigger] edges[i]).from.0) < rank(
        edges[i].to,
    ) by {
        assert(order.contains(i));
        let k = choose|k: int| 0 <= k < order.len() && order[k] == i;
        height_at_least(edges, order, k);
        let key = edges[i].from.0;
        assert forall|b: int| k <= b < order.len() implies edges[#[trigger] order[b]].to != key by {
            assert(edges[order[b]].to != edges[order[k]].from.0);
        }
        height_at_most(edges, order, key, k);
    }
    assert(ranks(edges, rank));
}

/// Whether one of the edges that are left leads to where the given edge starts.
pub open spec fn has_before(edges: Seq<EdgeModel>, left: Seq<usize>, edge: int) -> bool {
    exists|m: int|
        0 <= m < left.len() && edges[#[trigger] left[m] as int].to == edges[edge].from.0
}

/// Whether each of the edges that are left has one before it that is left.
pub open spec fn none_to_start_with(edges: Seq<EdgeModel>, left: Seq<usize>) -> bool {
    forall|k: int| 0 <= k < left.len() ==> has_before(edges, left, #[trigger] left[k] as int)
}

/// Finds an edge that is left and leads to where the given edge starts.
fn find_before(edges: &Vec<Edge>, left: &Vec<usize>, edge: usize) -> (found: Option<usize>)
    requires
        edge < edges@.len(),
        forall|k: int| 0 <= k < left@.len() ==> (#[trigger] left@[k]) < edges@.len(),
    ensures
        match found {
            Some(m) => m < left@.len() && edge_models(edges@)[left@[m as int] as int].to
                == edge_models(edges@)[edge as int].from.0,
            None => !has_before(edge_models(edges@), left@, edge as int),
        },
{
    let mut m: usize = 0;
    while m < left.len()
        invariant
            m <= left.len(),
            edge < edges@.len(),
            forall|k: int| 0 <= k < left@.len() ==> (#[trigger] left@[k]) < edges@.len(),
            forall|k: int|
                0 <= k < m ==> edge_models(edges@)[#[trigger] left@[k] as int].to != edge_models(
                    edges@,
                )[edge as int].from.0,
        decreases left.len() - m,
    {
        if edges[left[m]].to.same(&edges[edge].from.component) {
            return Some(m);
        }
        m = m + 1;
    }
    None
}

/// Finds an edge that is left and that none of those left leads up to.
fn find_start(edges: &Vec<Edge>, left: &Vec<usize>) -> (found: Option<usize>)
    requires
        forall|k: int| 0 <= k < left@.len() ==> (#[trigger] left@[k]) < edges@.len(),
    ensures
        match found {
            Some(k) => k < left@.len() && !has_before(
                edge_models(edges@),
                left@,
                left@[k as int] as int,
            ),
            None => none_to_start_with(edge_models(edges@), left@),
        },
{
    let mut k: usize = 0;
    while k < left.len()
        invariant
            k <= left.len(),
            forall|k: int| 0 <= k < left@.len() ==> (#[trigger] left@[k]) < edges@.len(),
            forall|j: int|
                0 <= j < k ==> has_before(edge_models(edges@), left@, #[trigger] left@[j] as int),
        decreases left.len() - k,
    {
        match find_before(edges, left, left[k]) {
            None => {
                return Some(k);
            },
            Some(m) => {
                assert(edge_models(edges@)[left@[m as int] as int].to == edge_models(
                    edges@,
                )[left@[k as int] as int].from.0);
            },
        }
        k = k + 1;
    }
    None
}

/// Takes away edges in the order of flow for as long as that can be done.
fn take_away(edges: &Vec<Edge>) -> (left: Vec<usize>)
    ensures
        forall|k: int| 0 <= k < left@.len() ==> (#[trigger] left@[k]) < edges@.len(),
        none_to_start_with(edge_models(edges@), left@),
        left@.len() == 0 ==> acyclic(edge_models(edges@)),
{
    let ghost all = edge_models(edges@);
    let mut left: Vec<usize> = Vec::new();
    let mut i: usize = 0;
    while i < edges.len()
        invariant
            i <= edges.len(),
            left@.len() == i,
            forall|k: int| 0 <= k < i ==> #[trigger] left@[k] == k,
        decreases edges.len() - i,
    {
        left.push(i);
        i = i + 1;
    }
    let ghost mut order: Seq<int> = Seq::empty();
    assert forall|e: int| 0 <= e < all.len() implies #[trigger] order.contains(e) || exists|k: int|
        0 <= k < left@.len() && left@[k] == e by {
        assert(left@[e] == e);
    }
    loop
        invariant
            all == edge_models(edges@),
            forall|k: int| 0 <= k < left@.len() ==> (#[trigger] left@[k]) < edges@.len(),
            in_flow_order(all, order),
            forall|a: int, k: int|
                0 <= a < order.len() && 0 <= k < left@.len() ==> all[#[trigger] left@[k] as int].to
                    != all[#[trigger] order[a]].from.0,
            forall|e: int|
                0 <= e < all.len() ==> #[trigger] order.contains(e) || exists|k: int|
                    0 <= k < left@.len() && left@[k] == e,
        ensures
            forall|k: int| 0 <= k < left@.len() ==> (#[trigger] left@[k]) < edges@.len(),
            none_to_start_with(all, left@),
            left@.len() == 0 ==> acyclic(all),
        decreases left@.len(),
    {
        match find_start(edges, &left) {
            None => {
                proof {
                    if left@.len() == 0 {
                        assert forall|e: int| 0 <= e < all.len() implies order.contains(e) by {}
                        flow_order_gives_ranks(all, order);
                    }
                }
                break;
            },
            Some(k) => {
                let ghost before = left@;
                let ghost held = order;
                let edge: usize = left.remove(k);
                proof {
                    order = order.push(edge as int);
                    assert forall|j: int| 0 <= j < left@.len() implies exists|m: int|
                        0 <= m < before.len() && #[trigger] left@[j] == before[m] by {
                        if j < k {
                            assert(left@[j] == before[j]);
                        } else {
                            assert(left@[j] == before[j + 1]);
                        }
                    }
                    assert(before[k as int] == edge);
                    assert forall|a: int, b: int| 0 <= a <= b < order.len() implies all[
                        #[trigger] order[b]
                    ].to != all[#[trigger] order[a]].from.0 by {
                        if b < held.len() {
                            assert(order[b] == held[b] && order[a] == held[a]);
                        } else if a < held.len() {
                            assert(order[a] == held[a]);
                            assert(all[before[k as int] as int].to != all[held[a]].from.0);
                        } else {
                            assert(all[before[k as int] as int].to != all[before[k as int] as int].from.0);
                        }
                    }
                    assert forall|e: int| 0 <= e < all.len() implies #[trigger] order.contains(e)
                        || exists|j: int| 0 <= j < left@.len() && left@[j] == e by {
                        if held.contains(e) {
                            let a = choose|a: int| 0 <= a < held.len() && held[a] == e;
                            assert(order[a] == e);
                        } else {
                            let j = choose|j: int| 0 <= j < before.len() && before[j] == e;
                            if j == k {
                                assert(order[held.len() as int] == e);
                            } else if j < k {
                                assert(left@[j] == e);
                            } else {
                                assert(left@[j - 1] == e);
                            }
                        }
                    }
                }
            },
        }
    }
    left
}

/// Whether edges have been followed backwards, none of them twice.
pub open spec fn walks_back(edges: Seq<EdgeModel>, walk: Seq<usize>) -> bool {
    &&& forall|k: int| 0 <= k < walk.len() ==> (#[trigger] walk[k]) < edges.len()
    &&& forall|k: int|
        0 <= k < walk.len() - 1 ==> edges[walk[k + 1] as int].to == edges[#[trigger] walk[k] as int].from.0
    &&& walk.no_duplicates()
}

/// A walk that follows no edge twice is no longer than there are edges.
proof fn walk_is_bounded(edges: Seq<EdgeModel>, walk: Seq<usize>)
    requires
        walks_back(edges, walk),
    ensures
        walk.len() <= edges.len(),
{
    let places = walk.map_values(|edge: usize| edge as int);
    assert(places.no_duplicates());
    places.unique_seq_to_set();
    vstd::set_lib::lemma_int_range(0, edges.len() as int);
    let range = vstd::set_lib::set_int_range(0, edges.len() as int);
    assert forall|place: int| places.to_set().contains(place) implies range.contains(place) by {
        let k = choose|k: int| 0 <= k < places.len() && places[k] == place;
        assert(walk[k] < edges.len());
    }
    vstd::set_lib::lemma_len_subset(places.to_set(), range);
}

/// Where an edge stands in a walk.
fn find_edge(walk: &Vec<usize>, edge: usize) -> (found: Option<usize>)
    ensures
        match found {
            Some(k) => k < walk@.len() && walk@[k as int] == edge,
            None => !walk@.contains(edge),
        },
{
    let mut k: usize = 0;
    while k < walk.len()
        invariant
            k <= walk.len(),
            forall|j: int| 0 <= j < k ==> walk@[j] != edge,
        decreases walk.len() - k,
    {
        if walk[k] == edge {
            return Some(k);
        }
        k = k + 1;
    }
    None
}

/// The part of a walk from a place on, the other way round.
spec fn turned(walk: Seq<usize>, from: int) -> Seq<int> {
    Seq::new((walk.len() - from) as nat, |k: int| walk[walk.len() - 1 - k] as int)
}

/// A walk that comes upon an edge again is a cycle the other way round.
proof fn turned_walk_is_cycle(edges: Seq<EdgeModel>, walk: Seq<usize>, from: int)
    requires
        walks_back(edges, walk),
        0 <= from < walk.len(),
        edges[walk[from] as int].to == edges[walk.last() as int].from.0,
    ensures
        is_cycle(edges, turned(walk, from)),
{
    let path = turned(walk, from);
    assert forall|k: int| 0 <= k < path.len() - 1 implies edges[#[trigger] path[k]].to
        == edges[path[k + 1]].from.0 by {
        let at = walk.len() - 2 - k;
        assert(edges[walk[at + 1] as int].to == edges[walk[at] as int].from.0);
    }
    assert(path.last() == walk[from]);
    assert(path[0] == walk.last());
}

/// Follows edges that are left backwards until it comes upon one of them again.
fn find_cycle(edges: &Vec<Edge>, left: &Vec<usize>) -> (path: Vec<usize>)
    requires
        left@.len() > 0,
        forall|k: int| 0 <= k < left@.len() ==> (#[trigger] left@[k]) < edges@.len(),
        none_to_start_with(edge_models(edges@), left@),
    ensures
        is_cycle(edge_models(edges@), path@.map_values(|edge: usize| edge as int)),
{
    let ghost all = edge_models(edges@);
    let mut walk: Vec<usize> = Vec::new();
    let mut edge: usize = left[0];
    let mut start: usize = 0;
    assert(left@[0] == edge);
    loop
        invariant
            all == edge_models(edges@),
            forall|k: int| 0 <= k < left@.len() ==> (#[trigger] left@[k]) < edges@.len(),
            none_to_start_with(all, left@),
            left@.contains(edge),
            walks_back(all, walk@),
            walk@.len() > 0 ==> all[edge as int].to == all[walk@.last() as int].from.0,
        ensures
            walks_back(all, walk@),
            start < walk@.len(),
            all[walk@[start as int] as int].to == all[walk@.last() as int].from.0,
        decreases all.len() - walk@.len(),
    {
        match find_edge(&walk, edge) {
            Some(k) => {
                start = k;
                break;
            },
            None => {
                let ghost before = walk@;
                proof {
                    let j = choose|j: int| 0 <= j < left@.len() && left@[j] == edge;
                    assert(left@[j] < edges@.len());
                }
                walk.push(edge);
                proof {
                    assert forall|k: int| 0 <= k < walk@.len() - 1 implies all[walk@[k + 1] as int].to
                        == all[#[trigger] walk@[k] as int].from.0 by {
                        if k < before.len() - 1 {
                            assert(all[before[k + 1] as int].to == all[before[k] as int].from.0);
                        }
                    }
                    assert forall|a: int, b: int|
                        0 <= a < walk@.len() && 0 <= b < walk@.len() && a != b implies walk@[a]
                        != walk@[b] by {
                        if a < before.len() {
                            assert(before.contains(before[a]));
                        }
                        if b < before.len() {
                            assert(before.contains(before[b]));
                        }
                    }
                    walk_is_bounded(all, walk@);
                }
                match find_before(edges, left, edge) {
                    Some(m) => {
                        edge = left[m];
                        assert(left@.contains(left@[m as int]));
                    },
                    None => {
                        proof {
                            let j = choose|j: int| 0 <= j < left@.len() && left@[j] == edge;
                            assert(has_before(all, left@, left@[j] as int));
                            assert(false);
                        }
                        return walk;
                    },
                }
            },
        }
    }
    let ghost whole = turned(walk@, start as int);
    let mut path: Vec<usize> = Vec::new();
    let mut k: usize = walk.len();
    while k > start
        invariant
            start <= k <= walk.len(),
            whole == turned(walk@, start as int),
            path@.len() == walk@.len() - k,
            forall|j: int| 0 <= j < path@.len() ==> path@[j] == #[trigger] whole[j],
        decreases k,
    {
        k = k - 1;
        path.push(walk[k]);
    }
    proof {
        turned_walk_is_cycle(all, walk@, start as int);
        assert(path@.map_values(|edge: usize| edge as int) =~= whole);
    }
    path
}

impl Graph {
    /// Checks that no component is fed, through others, by its own output. The
    /// message shows the components that feed one another in a circle.
    pub fn check_for_cycles(&self) -> (result: Result<(), String>)
        ensures
            match result {
                Ok(_) => acyclic(edge_models(self.edges@)),
                Err(message) => exists|path: Seq<int>| #[trigger]
                    is_cycle(edge_models(self.edges@), path) && message@ == cycle_message(
                        edge_models(self.edges@),
                        path,
                    ),
            },
    {
        let ghost all = edge_models(self.edges@);
        let left = take_away(&self.edges);
        if left.len() == 0 {
            return Ok(());
        }
        let path = find_cycle(&self.edges, &left);
        let ghost places = path@.map_values(|edge: usize| edge as int);
        let ghost names = cycle_names(all, places);
        let mut parts: Vec<String> = Vec::new();
        let mut k: usize = 0;
        assert(texts(parts@) =~= names.take(0));
        while k < path.len()
            invariant
                k <= path.len(),
                all == edge_models(self.edges@),
                places == path@.map_values(|edge: usize| edge as int),
                is_cycle(all, places),
                names == cycle_names(all, places),
                texts(parts@) == names.take(k as int),
            decreases path.len() - k,
        {
            assert(0 <= places[k as int] < all.len());
            push_text(&mut parts, self.edges[path[k]].from.component.id().to_owned());
            assert(texts(parts@) =~= names.take(k + 1));
            k = k + 1;
        }
        assert(0 <= places[0] < all.len());
        push_text(&mut parts, self.edges[path[0]].from.component.id().to_owned());
        assert(texts(parts@) =~= names);
        let mut message = "Cyclic dependency detected in the chain [ ".to_owned();
        message.append(join(&parts, " -> ").as_str());
        message.append(" ]");
        Err(message)
    }
}

/// A pipeline passes the check on cycles just where there is no way to follow
/// edges from a component, each from where the one before leads to, and come back
/// to it.
pub proof fn cycles_are_refused(graph: &Graph, result: Result<(), String>)
    requires
        call_ensures(Graph::check_for_cycles, (graph,), result),
    ensures
        result is Err <==> exists|path: Seq<int>|
            path.len() > 0 && edges_follow(graph.edges@, path) && graph.edges@[#[trigger] path.last()].to@
                == graph.edges@[path[0]].from.component@,
{
    let edges = edge_models(graph.edges@);
    if result is Err {
        let path = choose|path: Seq<int>| #[trigger] is_cycle(edges, path);
        assert forall|k: int| 0 <= k < path.len() implies 0 <= #[trigger] path[k] < graph.edges@.len() by {
            assert(0 <= path[k] < edges.len());
        }
        assert forall|k: int| 0 < k < path.len() implies graph.edges@[path[k - 1]].to@
            == graph.edges@[#[trigger] path[k]].from.component@ by {
            assert(edges[path[k - 1]].to == edges[path[k - 1 + 1]].from.0);
            assert(edges[path[k - 1]] == graph.edges@[path[k - 1]]@);
            assert(edges[path[k]] == graph.edges@[path[k]]@);
        }
        assert(edges[path.last()] == graph.edges@[path.last()]@);
        assert(edges[path[0]] == graph.edges@[path[0]]@);
        assert(edges_follow(graph.edges@, path));
    }
    if exists|path: Seq<int>|
        path.len() > 0 && edges_follow(graph.edges@, path) && graph.edges@[#[trigger] path.last()].to@
            == graph.edges@[path[0]].from.component@ {
        let path = choose|path: Seq<int>|
            path.len() > 0 && edges_follow(graph.edges@, path) && graph.edges@[#[trigger] path.last()].to@
                == graph.edges@[path[0]].from.component@;
        assert forall|k: int| 0 <= k < path.len() - 1 implies edges[#[trigger] path[k]].to
            == edges[path[k + 1]].from.0 by {
            assert(0 <= path[k] < graph.edges@.len());
            assert(0 <= path[k + 1] < graph.edges@.len());
            assert(graph.edges@[path[k + 1 - 1]].to@ == graph.edges@[path[k + 1]].from.component@);
        }
        assert(is_cycle(edges, path));
        cycle_rules_out_ranks(edges, path);
    }
}

/// Whether each of the edges at these places starts where the one before leads
/// to.
pub open spec fn edges_follow(edges: Seq<Edge>, path: Seq<int>) -> bool {
    &&& forall|k: int| 0 <= k < path.len() ==> 0 <= #[trigger] path[k] < edges.len()
    &&& forall|k: int|
        0 < k < path.len() ==> edges[path[k - 1]].to@ == edges[#[trigger] path[k]].from.component@
}

/// The message on a circle names the components on it in order, and the first
/// once more at the end.
pub proof fn circles_are_told_of_in_order(graph: &Graph, result: Result<(), String>)
    requires
        call_ensures(Graph::check_for_cycles, (graph,), result),
        result is Err,
    ensures
        exists|path: Seq<int>, names: Seq<Seq<char>>|
            #![trigger edges_follow(graph.edges@, path), joined(names, " -> "@)]
            {
                &&& path.len() > 0
                &&& edges_follow(graph.edges@, path)
                &&& graph.edges@[path.last()].to@ == graph.edges@[path[0]].from.component@
                &&& names.len() == path.len() + 1
                &&& forall|k: int|
                    0 <= k < path.len() ==> #[trigger] names[k]
                        == graph.edges@[path[k]].from.component@
                &&& names.last() == names[0]
                &&& result->Err_0@ == "Cyclic dependency detected in the chain [ "@ + joined(
                    names,
                    " -> "@,
                ) + " ]"@
            },
{
    let edges = edge_models(graph.edges@);
    let path = choose|path: Seq<int>| #[trigger]
        is_cycle(edges, path) && result->Err_0@ == cycle_message(edges, path);
    let names = cycle_names(edges, path);
    assert forall|k: int| 0 <= k < path.len() implies 0 <= #[trigger] path[k] < graph.edges@.len() by {
        assert(0 <= path[k] < edges.len());
    }
    assert forall|k: int| 0 < k < path.len() implies graph.edges@[path[k - 1]].to@
        == graph.edges@[#[trigger] path[k]].from.component@ by {
        assert(edges[path[k - 1]].to == edges[path[k - 1 + 1]].from.0);
        assert(edges[path[k - 1]] == graph.edges@[path[k - 1]]@);
        assert(edges[path[k]] == graph.edges@[path[k]]@);
    }
    assert(edges[path.last()] == graph.edges@[path.last()]@);
    assert(edges[path[0]] == graph.edges@[path[0]]@);
    assert(edges_follow(graph.edges@, path));
    assert forall|k: int| 0 <= k < path.len() implies #[trigger] names[k]
        == graph.edges@[path[k]].from.component@ by {
        assert(edges[path[k]] == graph.edges@[path[k]]@);
    }
    assert(names.last() == names[0]);
    assert(joined(names, " -> "@) == joined(cycle_names(edges, path), " -> "@));
}

} // verus!
