//! The stargate route map built from EVE's static data, shortest jump
//! counts on it, and the exact shortest open route through a set of
//! systems.
//!
//! Downloading and unpacking the static data, and reading its JSON lines,
//! happen in the application; this module receives the parsed systems and
//! stargate links.

use vstd::prelude::*;
use std::collections::HashMap;
use crate::text::{chars_eq, chars_of, lower_chars, lower_seq, trim, trim_chars};

verus! {

broadcast use {vstd::std_specs::hash::group_hash_axioms, vstd::string::group_string_axioms};

/// Route maps may optimise at most this many stops at once.
pub const MAX_OPTIMIZED_ROUTE_STOPS: usize = 18;

#[derive(Clone, Debug)]
pub struct SolarSystem {
    pub id: i64,
    pub name: String,
}

#[derive(Clone, Copy, Debug)]
pub struct RouteEdge {
    pub from: i64,
    pub to: i64,
}

/// What the route cache holds: the static data build, its systems and
/// its stargate links.
#[derive(Clone, Debug)]
pub struct CachedRouteGraph {
    pub build_number: u64,
    pub release_date: String,
    pub systems: Vec<SolarSystem>,
    pub edges: Vec<RouteEdge>,
}

#[derive(Clone, Debug)]
pub struct RouteSystem {
    pub id: i64,
    pub name: String,
}

#[derive(Clone, Debug, PartialEq, Eq)]
pub struct RouteDestination {
    pub system_id: i64,
    pub system_name: String,
    pub import_index: usize,
}

#[derive(Clone, Debug)]
pub struct OptimizedRoute {
    pub origin: RouteSystem,
    pub destinations: Vec<RouteDestination>,
    pub total_jumps: usize,
}

// ---------------------------------------------------------------------
// The graph
// ---------------------------------------------------------------------

/// Whether a stargate joins `a` and `b` (in either direction).
pub open spec fn linked(edges: Seq<(i64, i64)>, a: i64, b: i64) -> bool {
    exists|k: int|
        0 <= k < edges.len() && ((#[trigger] edges[k].0 == a && edges[k].1 == b) || (edges[k].1 == a
            && edges[k].0 == b))
}

/// Whether `v` is at most `n` jumps from `o`.
pub open spec fn within(edges: Seq<(i64, i64)>, o: i64, v: i64, n: nat) -> bool
    decreases n,
{
    v == o || (n > 0 && exists|u: i64| #[trigger] linked(edges, u, v) && within(edges, o, u, (n - 1) as nat))
}

/// `d` is the fewest jumps from `o` to `v`.
pub open spec fn is_distance(edges: Seq<(i64, i64)>, o: i64, v: i64, d: nat) -> bool {
    within(edges, o, v, d) && forall|k: nat| k < d ==> !#[trigger] within(edges, o, v, k)
}

pub open spec fn reachable(edges: Seq<(i64, i64)>, o: i64, v: i64) -> bool {
    exists|n: nat| #[trigger] within(edges, o, v, n)
}

pub open spec fn edge_pairs(edges: Seq<RouteEdge>) -> Seq<(i64, i64)> {
    edges.map_values(|e: RouteEdge| (e.from, e.to))
}

/// `str::trim` followed by `str::to_ascii_lowercase`.
pub open spec fn normalize_name(name: Seq<char>) -> Seq<char> {
    lower_seq(trim(name))
}

pub fn normalize_system_name(name: &str) -> (r: Vec<char>)
    ensures
        r@ == normalize_name(name@),
{
    lower_chars(&trim_chars(&chars_of(name)))
}

pub struct RouteGraph {
    build_number: u64,
    release_date: String,
    systems: Vec<SolarSystem>,
    normalized_names: Vec<Vec<char>>,
    vertex_ids: Vec<i64>,
    index: HashMap<i64, usize>,
    adjacency: Vec<Vec<usize>>,
    edges: Ghost<Seq<(i64, i64)>>,
}

impl RouteGraph {
    #[verifier::type_invariant]
    spec fn well_formed(self) -> bool {
        let n = self.vertex_ids.len();
        &&& 2 * self.edges@.len() < usize::MAX
        &&& self.normalized_names.len() == self.systems.len()
        &&& forall|i: int|
            0 <= i < self.systems.len() ==> #[trigger] self.normalized_names[i]@ == normalize_name(
                self.systems[i].name@,
            )
        &&& forall|i: int| 0 <= i < self.systems.len() ==> self.index@.contains_key(#[trigger] self.systems[i].id)
        &&& forall|k: int|
            0 <= k < self.edges@.len() ==> self.index@.contains_key(#[trigger] self.edges@[k].0)
                && self.index@.contains_key(self.edges@[k].1)
        &&& forall|id: i64| #[trigger] self.index@.contains_key(id) ==> self.index@[id] < n
            && self.vertex_ids[self.index@[id] as int] == id
        &&& forall|p: int| 0 <= p < n ==> #[trigger] self.index@.contains_key(self.vertex_ids[p])
            && self.index@[self.vertex_ids[p]] == p
        &&& self.adjacency.len() == n
        &&& forall|p: int, j: int|
            0 <= p < n && 0 <= j < self.adjacency[p].len() ==> #[trigger] self.adjacency[p]@[j] < n
        &&& forall|p: int| 0 <= p < n ==> #[trigger] self.adjacency[p]@.no_duplicates()
        &&& forall|p: int, q: int|
            0 <= p < n && 0 <= q < n ==> (#[trigger] self.adjacency[p]@.contains(q as usize) <==> linked(
                self.edges@,
                #[trigger] self.vertex_ids[p],
                self.vertex_ids[q],
            ))
    }

    /// Each neighbour listed for a place is a place joined to it by a
    /// stargate.
    proof fn lemma_neighbour_linked(self, u: int, k: int)
        requires
            self.well_formed(),
            0 <= u < self.vertex_ids.len(),
            0 <= k < self.adjacency[u].len(),
        ensures
            self.adjacency[u]@[k] < self.vertex_ids.len(),
            linked(self.edges@, self.vertex_ids[u], self.vertex_ids[self.adjacency[u]@[k] as int]),
    {
        let r = self.adjacency[u]@[k];
        assert(r < self.vertex_ids.len());
        assert(self.adjacency[u]@.contains((r as int) as usize));
        assert(self.vertex_ids[u] == self.vertex_ids[u]);
    }

    /// Two places with the same ID are the same place.
    proof fn lemma_vertex_ids_distinct(self, a: int, b: int)
        requires
            self.well_formed(),
            0 <= a < self.vertex_ids.len(),
            0 <= b < self.vertex_ids.len(),
            self.vertex_ids[a] == self.vertex_ids[b],
        ensures
            a == b,
    {
        assert(self.index@.contains_key(self.vertex_ids[a]));
        assert(self.index@.contains_key(self.vertex_ids[b]));
    }

    /// The stargate links the map was built from.
    pub closed spec fn links(self) -> Seq<(i64, i64)> {
        self.edges@
    }

    /// The systems the map was built from, in their order.
    pub closed spec fn system_list(self) -> Seq<SolarSystem> {
        self.systems@
    }

    pub closed spec fn build_number_spec(self) -> u64 {
        self.build_number
    }

    pub closed spec fn release_date_spec(self) -> Seq<char> {
        self.release_date@
    }
}

/// The last system in `systems` with this ID.
pub open spec fn last_system_with_id(systems: Seq<SolarSystem>, id: i64) -> Option<SolarSystem>
    decreases systems.len(),
{
    if systems.len() == 0 {
        None
    } else if systems.last().id == id {
        Some(systems.last())
    } else {
        last_system_with_id(systems.drop_last(), id)
    }
}

pub open spec fn has_system(systems: Seq<SolarSystem>, id: i64) -> bool {
    exists|i: int| 0 <= i < systems.len() && #[trigger] systems[i].id == id
}

proof fn lemma_last_system_with_id(systems: Seq<SolarSystem>, id: i64)
    ensures
        last_system_with_id(systems, id) is Some <==> has_system(systems, id),
        last_system_with_id(systems, id) matches Some(s) ==> s.id == id,
    decreases systems.len(),
{
    if systems.len() > 0 {
        lemma_last_system_with_id(systems.drop_last(), id);
        if has_system(systems, id) && systems.last().id != id {
            let i = choose|i: int| 0 <= i < systems.len() && #[trigger] systems[i].id == id;
            assert(systems.drop_last()[i].id == id);
        }
        if has_system(systems.drop_last(), id) {
            let i = choose|i: int| 0 <= i < systems.len() - 1 && #[trigger] systems.drop_last()[i].id == id;
            assert(systems[i].id == id);
        }
    }
}

/// `index` maps each of `ids` to its position and nothing else.
pub open spec fn index_ok(ids: Seq<i64>, index: Map<i64, usize>) -> bool {
    &&& forall|x: i64| #[trigger] index.contains_key(x) ==> index[x] < ids.len() && ids[index[x] as int] == x
    &&& forall|p: int| 0 <= p < ids.len() ==> #[trigger] index.contains_key(ids[p]) && index[ids[p]] == p
}

pub open spec fn all_empty(adjacency: Seq<Vec<usize>>) -> bool {
    forall|p: int| 0 <= p < adjacency.len() ==> #[trigger] adjacency[p]@.len() == 0
}

fn add_vertex(
    vertex_ids: &mut Vec<i64>,
    index: &mut HashMap<i64, usize>,
    adjacency: &mut Vec<Vec<usize>>,
    id: i64,
)
    requires
        old(adjacency).len() == old(vertex_ids).len(),
        index_ok(old(vertex_ids)@, old(index)@),
        all_empty(old(adjacency)@),
        old(vertex_ids).len() < usize::MAX,
    ensures
        final(adjacency).len() == final(vertex_ids).len(),
        final(index)@.contains_key(id),
        forall|x: i64| #[trigger] old(index)@.contains_key(x) ==> final(index)@.contains_key(x),
        index_ok(final(vertex_ids)@, final(index)@),
        all_empty(final(adjacency)@),
        final(vertex_ids).len() <= old(vertex_ids).len() + 1,
{
    if index.get(&id).is_none() {
        let p = vertex_ids.len();
        index.insert(id, p);
        vertex_ids.push(id);
        adjacency.push(Vec::new());
        assert forall|q: int| 0 <= q < vertex_ids.len() implies #[trigger] index@.contains_key(vertex_ids[q])
            && index@[vertex_ids[q]] == q by {
            if q < p {
                assert(vertex_ids[q] == old(vertex_ids)[q]);
                assert(vertex_ids[q] != id);
            }
        }
        assert forall|q: int| 0 <= q < adjacency@.len() implies #[trigger] adjacency@[q]@.len() == 0 by {
            if q < p {
                assert(adjacency@[q] == old(adjacency)@[q]);
            }
        }
    }
}

fn add_neighbor(list: &mut Vec<usize>, q: usize)
    requires
        old(list)@.no_duplicates(),
    ensures
        final(list)@.no_duplicates(),
        forall|x: usize| #[trigger] final(list)@.contains(x) <==> old(list)@.contains(x) || x == q,
{
    let mut i: usize = 0;
    let mut found = false;
    while i < list.len() && !found
        invariant
            i <= list.len(),
            list@ == old(list)@,
            found ==> list@.contains(q),
            !found ==> forall|k: int| 0 <= k < i ==> list@[k] != q,
        decreases list.len() - i,
    {
        if list[i] == q {
            assert(list@[i as int] == q);
            found = true;
        }
        i = i + 1;
    }
    if found {
        return;
    }
    let ghost before = list@;
    list.push(q);
    assert forall|x: usize| #[trigger] list@.contains(x) <==> before.contains(x) || x == q by {
        if list@.contains(x) {
            let k = choose|k: int| 0 <= k < list@.len() && list@[k] == x;
            if k < before.len() {
                assert(before[k] == x);
            }
        }
        if before.contains(x) {
            let k = choose|k: int| 0 <= k < before.len() && before[k] == x;
            assert(list@[k] == x);
        }
        if x == q {
            assert(list@[before.len() as int] == q);
        }
    }
}

proof fn lemma_linked_push(edges: Seq<(i64, i64)>, e: (i64, i64), a: i64, b: i64)
    ensures
        linked(edges.push(e), a, b) <==> linked(edges, a, b) || (e.0 == a && e.1 == b) || (e.1 == a
            && e.0 == b),
{
    let es = edges.push(e);
    if linked(es, a, b) {
        let k = choose|k: int|
            0 <= k < es.len() && ((#[trigger] es[k].0 == a && es[k].1 == b) || (es[k].1 == a && es[k].0
                == b));
        if k < edges.len() {
            assert(edges[k] == es[k]);
        }
    }
    if linked(edges, a, b) {
        let k = choose|k: int|
            0 <= k < edges.len() && ((#[trigger] edges[k].0 == a && edges[k].1 == b) || (edges[k].1 == a
                && edges[k].0 == b));
        assert(es[k] == edges[k]);
    }
    if (e.0 == a && e.1 == b) || (e.1 == a && e.0 == b) {
        assert(es[edges.len() as int] == e);
    }
}

impl RouteGraph {
    /// The route map of a cache: every system and every stargate
    /// endpoint is a place on the map, joined to the places its stargates
    /// lead to.
    #[verifier::spinoff_prover]
    #[verifier::rlimit(40)]
    pub fn from_cache(cache: CachedRouteGraph) -> (r: RouteGraph)
        requires
            cache.systems.len() + 2 * cache.edges.len() < usize::MAX,
        ensures
            r.links() == edge_pairs(cache.edges@),
            r.system_list() == cache.systems@,
            r.build_number_spec() == cache.build_number,
            r.release_date_spec() == cache.release_date@,
    {
        let ghost pairs = edge_pairs(cache.edges@);
        let mut vertex_ids: Vec<i64> = Vec::new();
        let mut index: HashMap<i64, usize> = HashMap::new();
        let mut adjacency: Vec<Vec<usize>> = Vec::new();
        let mut normalized_names: Vec<Vec<char>> = Vec::new();
        let mut i: usize = 0;
        while i < cache.systems.len()
            invariant
                i <= cache.systems.len(),
                cache.systems.len() + 2 * cache.edges.len() < usize::MAX,
                vertex_ids.len() <= i,
                adjacency.len() == vertex_ids.len(),
                normalized_names.len() == i,
                forall|k: int| 0 <= k < i ==> #[trigger] normalized_names[k]@ == normalize_name(cache.systems[k].name@),
                forall|k: int| 0 <= k < i ==> index@.contains_key(#[trigger] cache.systems[k].id),
                index_ok(vertex_ids@, index@),
                all_empty(adjacency@),
            decreases cache.systems.len() - i,
        {
            add_vertex(&mut vertex_ids, &mut index, &mut adjacency, cache.systems[i].id);
            normalized_names.push(normalize_system_name(cache.systems[i].name.as_str()));
            i = i + 1;
        }
        let mut k: usize = 0;
        while k < cache.edges.len()
            invariant
                k <= cache.edges.len(),
                cache.systems.len() + 2 * cache.edges.len() < usize::MAX,
                pairs == edge_pairs(cache.edges@),
                vertex_ids.len() <= cache.systems.len() + 2 * k,
                adjacency.len() == vertex_ids.len(),
                forall|j: int| 0 <= j < cache.systems.len() ==> index@.contains_key(#[trigger] cache.systems[j].id),
                forall|j: int| 0 <= j < k ==> index@.contains_key(#[trigger] pairs[j].0) && index@.contains_key(pairs[j].1),
                index_ok(vertex_ids@, index@),
                all_empty(adjacency@),
            decreases cache.edges.len() - k,
        {
            let e = cache.edges[k];
            assert(pairs[k as int] == (e.from, e.to));
            add_vertex(&mut vertex_ids, &mut index, &mut adjacency, e.from);
            add_vertex(&mut vertex_ids, &mut index, &mut adjacency, e.to);
            k = k + 1;
        }
        let n = vertex_ids.len();
        proof {
            assert(all_empty(adjacency@));
            assert forall|p: int, q: int| 0 <= p < n && 0 <= q < n implies (#[trigger] adjacency[p]@.contains(q as usize) <==> linked(
                pairs.take(0),
                #[trigger] vertex_ids[p],
                vertex_ids[q],
            )) by {
                if adjacency[p]@.contains(q as usize) {
                    let j = choose|j: int| 0 <= j < adjacency[p]@.len() && adjacency[p]@[j] == q as usize;
                }
            }
        }
        let mut k: usize = 0;
        while k < cache.edges.len()
            invariant
                k <= cache.edges.len(),
                pairs == edge_pairs(cache.edges@),
                n == vertex_ids.len(),
                adjacency.len() == n,
                forall|j: int| 0 <= j < cache.edges.len() ==> index@.contains_key(#[trigger] pairs[j].0) && index@.contains_key(pairs[j].1),
                index_ok(vertex_ids@, index@),
                forall|p: int, j: int|
                    0 <= p < n && 0 <= j < adjacency[p].len() ==> #[trigger] adjacency[p]@[j] < n,
                forall|p: int| 0 <= p < n ==> #[trigger] adjacency[p]@.no_duplicates(),
                forall|p: int, q: int|
                    0 <= p < n && 0 <= q < n ==> (#[trigger] adjacency[p]@.contains(q as usize) <==> linked(
                        pairs.take(k as int),
                        #[trigger] vertex_ids[p],
                        vertex_ids[q],
                    )),
            decreases cache.edges.len() - k,
        {
            let e = cache.edges[k];
            assert(pairs[k as int] == (e.from, e.to));
            assert(index@.contains_key(pairs[k as int].0));
            assert(index@.contains_key(pairs[k as int].1));
            let p = *index.get(&e.from).unwrap();
            let q = *index.get(&e.to).unwrap();
            let ghost before = adjacency@;
            let mut list_p: Vec<usize> = Vec::new();
            std::mem::swap(&mut list_p, &mut adjacency[p]);
            add_neighbor(&mut list_p, q);
            std::mem::swap(&mut list_p, &mut adjacency[p]);
            let mut list_q: Vec<usize> = Vec::new();
            std::mem::swap(&mut list_q, &mut adjacency[q]);
            add_neighbor(&mut list_q, p);
            std::mem::swap(&mut list_q, &mut adjacency[q]);
            proof {
                assert(pairs.take(k + 1) =~= pairs.take(k as int).push((e.from, e.to)));
                assert forall|a: int, b: int| 0 <= a < n && 0 <= b < n implies (#[trigger] adjacency[a]@.contains(b as usize) <==> linked(
                    pairs.take(k + 1),
                    #[trigger] vertex_ids[a],
                    vertex_ids[b],
                )) by {
                    lemma_linked_push(pairs.take(k as int), (e.from, e.to), vertex_ids[a], vertex_ids[b]);
                    assert(vertex_ids[a] == e.from <==> a == p);
                    assert(vertex_ids[b] == e.to <==> b == q);
                    assert(vertex_ids[a] == e.to <==> a == q);
                    assert(vertex_ids[b] == e.from <==> b == p);
                    if a != p && a != q {
                        assert(adjacency[a] == before[a]);
                    }
                }
                assert forall|a: int, j: int| 0 <= a < n && 0 <= j < adjacency[a].len() implies #[trigger] adjacency[a]@[j] < n by {
                    if a != p && a != q {
                        assert(adjacency[a] == before[a]);
                    } else {
                        assert(adjacency[a]@.contains(adjacency[a]@[j]));
                    }
                }
                assert forall|a: int| 0 <= a < n implies #[trigger] adjacency[a]@.no_duplicates() by {
                    if a != p && a != q {
                        assert(adjacency[a] == before[a]);
                    }
                }
            }
            k = k + 1;
        }
        assert(pairs.take(cache.edges.len() as int) =~= pairs);
        assert(pairs.len() == cache.edges.len());
        RouteGraph {
            build_number: cache.build_number,
            release_date: cache.release_date,
            systems: cache.systems,
            normalized_names,
            vertex_ids,
            index,
            adjacency,
            edges: Ghost(pairs),
        }
    }
}


// ---------------------------------------------------------------------
// Counting stargate links
// ---------------------------------------------------------------------

/// The ordered pairs of places that a stargate joins.
pub open spec fn linked_pairs(edges: Seq<(i64, i64)>) -> Set<(i64, i64)> {
    Set::new(|ab: (i64, i64)| linked(edges, ab.0, ab.1))
}

/// The pair that the `i`-th of `2 * edges.len()` directed links stands
/// for: each stargate forwards, then each one backwards.
pub open spec fn directed_link(edges: Seq<(i64, i64)>, i: int) -> (i64, i64) {
    if i < edges.len() {
        edges[i]
    } else {
        (edges[i - edges.len()].1, edges[i - edges.len()].0)
    }
}

/// There are at most two linked pairs for each stargate.
pub proof fn lemma_linked_pairs_bound(edges: Seq<(i64, i64)>)
    ensures
        linked_pairs(edges).finite(),
        linked_pairs(edges).len() <= 2 * edges.len(),
{
    let m = edges.len() as int;
    let d = vstd::set_lib::set_int_range(0, 2 * m);
    vstd::set_lib::lemma_int_range(0, 2 * m);
    let f = |i: int| directed_link(edges, i);
    assert forall|ab: (i64, i64)| #[trigger] linked_pairs(edges).contains(ab) implies d.map(f).contains(ab) by {
        let k = choose|k: int|
            0 <= k < edges.len() && ((#[trigger] edges[k].0 == ab.0 && edges[k].1 == ab.1) || (edges[k].1 == ab.0
                && edges[k].0 == ab.1));
        if edges[k].0 == ab.0 && edges[k].1 == ab.1 {
            assert(d.contains(k) && f(k) == ab);
        } else {
            assert(d.contains(k + m) && f(k + m) == ab);
        }
    }
    assert forall|ab: (i64, i64)| #[trigger] d.map(f).contains(ab) implies linked_pairs(edges).contains(ab) by {
        let i = choose|i: int| d.contains(i) && f(i) == ab;
        if i < m {
            assert(edges[i].0 == ab.0 && edges[i].1 == ab.1);
        } else {
            assert(edges[i - m].1 == ab.0 && edges[i - m].0 == ab.1);
        }
    }
    assert(d.map(f) =~= linked_pairs(edges));
    vstd::set_lib::lemma_map_size_bound(d, linked_pairs(edges), f);
}

impl RouteGraph {
    /// The number of ordered pairs of places that a stargate joins: each
    /// link counts once from either end.
    #[verifier::loop_isolation(false)]
    pub fn edge_count(&self) -> (r: usize)
        ensures
            r == linked_pairs(self.links()).len(),
    {
        proof {
            use_type_invariant(self);
            lemma_linked_pairs_bound(self.edges@);
        }
        let ghost all = linked_pairs(self.edges@);
        let ghost vid = self.vertex_ids@;
        let n = self.adjacency.len();
        let ghost mut seen: Set<(i64, i64)> = Set::empty();
        let mut count: usize = 0;
        let mut p: usize = 0;
        while p < n
            invariant
                p <= n,
                n == self.vertex_ids.len(),
                seen.finite(),
                seen.subset_of(all),
                count == seen.len(),
                forall|ab: (i64, i64)| #[trigger] seen.contains(ab) <==> exists|a: int, j: int|
                    0 <= a < p && 0 <= j < self.adjacency[a].len() && ab == (vid[a], vid[
                        self.adjacency[a]@[j] as int
                    ]),
            decreases n - p,
        {
            let row = &self.adjacency[p];
            let mut j: usize = 0;
            while j < row.len()
                invariant
                    p < n,
                    j <= row.len(),
                    row == &self.adjacency@[p as int],
                    seen.finite(),
                    seen.subset_of(all),
                    count == seen.len(),
                    forall|ab: (i64, i64)| #[trigger] seen.contains(ab) <==> (exists|a: int, i: int|
                        0 <= a < p && 0 <= i < self.adjacency[a].len() && ab == (vid[a], vid[
                            self.adjacency[a]@[i] as int
                        ])) || (exists|i: int| 0 <= i < j && ab == (vid[p as int], vid[row@[i] as int])),
                decreases row.len() - j,
            {
                let ghost q = row@[j as int];
                let ghost pair = (vid[p as int], vid[q as int]);
                proof {
                    self.lemma_neighbour_linked(p as int, j as int);
                    assert(all.contains(pair));
                    if seen.contains(pair) {
                        if exists|a: int, i: int|
                            0 <= a < p && 0 <= i < self.adjacency[a].len() && pair == (vid[a], vid[
                                self.adjacency[a]@[i] as int
                            ]) {
                            let (a, i) = choose|a: int, i: int|
                                0 <= a < p && 0 <= i < self.adjacency[a].len() && pair == (vid[a], vid[
                                    self.adjacency[a]@[i] as int
                                ]);
                            self.lemma_vertex_ids_distinct(a, p as int);
                        } else {
                            let i = choose|i: int| 0 <= i < j && pair == (vid[p as int], vid[row@[i] as int]);
                            self.lemma_neighbour_linked(p as int, i);
                            self.lemma_vertex_ids_distinct(row@[i] as int, q as int);
                            assert(self.adjacency[p as int]@.no_duplicates());
                        }
                        assert(false);
                    }
                    vstd::set_lib::lemma_len_subset(seen.insert(pair), all);
                }
                count = count + 1;
                proof {
                    seen = seen.insert(pair);
                }
                j = j + 1;
            }
            p = p + 1;
        }
        proof {
            assert forall|ab: (i64, i64)| #[trigger] all.contains(ab) implies seen.contains(ab) by {
                let k = choose|k: int|
                    0 <= k < self.edges@.len() && ((#[trigger] self.edges@[k].0 == ab.0 && self.edges@[k].1 == ab.1)
                        || (self.edges@[k].1 == ab.0 && self.edges@[k].0 == ab.1));
                assert(self.index@.contains_key(self.edges@[k].0));
                let a = self.index@[ab.0] as int;
                let b = self.index@[ab.1] as int;
                assert(vid[a] == ab.0 && vid[b] == ab.1);
                assert(self.adjacency[a]@.contains(b as usize));
                let i = choose|i: int| 0 <= i < self.adjacency[a]@.len() && self.adjacency[a]@[i] == b as usize;
                assert(ab == (vid[a], vid[self.adjacency[a]@[i] as int]));
            }
            assert(seen =~= all);
        }
        count
    }
}

// ---------------------------------------------------------------------
// Looking up systems
// ---------------------------------------------------------------------

pub open spec fn route_system_of(s: SolarSystem, r: RouteSystem) -> bool {
    r.id == s.id && r.name@ == s.name@
}

impl RouteGraph {
    pub fn build_number(&self) -> (r: u64)
        ensures
            r == self.build_number_spec(),
    {
        self.build_number
    }

    pub fn release_date(&self) -> (r: &str)
        ensures
            r@ == self.release_date_spec(),
    {
        self.release_date.as_str()
    }

    /// The system with this ID; when the static data lists an ID twice,
    /// the later entry counts.
    pub fn system(&self, system_id: i64) -> (r: Option<RouteSystem>)
        ensures
            match last_system_with_id(self.system_list(), system_id) {
                Some(s) => r matches Some(x) && route_system_of(s, x),
                None => r is None,
            },
    {
        let mut k = self.systems.len();
        let ghost all = self.systems@;
        assert(all.take(k as int) =~= all);
        while k > 0
            invariant
                k <= self.systems.len(),
                all == self.systems@,
                last_system_with_id(all, system_id) == last_system_with_id(all.take(k as int), system_id),
            decreases k,
        {
            assert(all.take(k as int).drop_last() =~= all.take(k - 1));
            if self.systems[k - 1].id == system_id {
                let s = &self.systems[k - 1];
                return Some(RouteSystem { id: s.id, name: s.name.clone() });
            }
            k = k - 1;
        }
        None
    }

    /// The number of distinct system IDs.
    pub fn system_count(&self) -> (r: usize)
        ensures
            r == self.system_list().map_values(|s: SolarSystem| s.id).to_set().len(),
    {
        let mut ids: HashMap<i64, usize> = HashMap::new();
        let ghost all = self.systems@;
        let mut i: usize = 0;
        while i < self.systems.len()
            invariant
                i <= self.systems.len(),
                all == self.systems@,
                ids@.dom() == all.take(i as int).map_values(|s: SolarSystem| s.id).to_set(),
            decreases self.systems.len() - i,
        {
            ids.insert(self.systems[i].id, i);
            assert(all.take(i + 1).map_values(|s: SolarSystem| s.id) =~= all.take(i as int).map_values(
                |s: SolarSystem| s.id,
            ).push(all[i as int].id));
            proof {
                all.take(i as int).map_values(|s: SolarSystem| s.id).lemma_push_to_set_commute(all[i as int].id);
            }
            assert(ids@.dom() =~= all.take(i + 1).map_values(|s: SolarSystem| s.id).to_set());
            i = i + 1;
        }
        assert(all.take(all.len() as int) =~= all);
        ids.len()
    }

    /// A system whose name matches after trimming and lowering ASCII
    /// letters.
    #[verifier::loop_isolation(false)]
    pub fn resolve_system(&self, name: &str) -> (r: Option<RouteSystem>)
        ensures
            r is Some <==> exists|i: int|
                0 <= i < self.system_list().len() && normalize_name(
                    #[trigger] self.system_list()[i].name@,
                ) == normalize_name(name@),
            r matches Some(x) ==> exists|i: int|
                0 <= i < self.system_list().len() && normalize_name(
                    #[trigger] self.system_list()[i].name@,
                ) == normalize_name(name@) && (last_system_with_id(
                    self.system_list(),
                    self.system_list()[i].id,
                ) matches Some(s) && route_system_of(s, x)),
    {
        proof {
            use_type_invariant(self);
        }
        let key = normalize_system_name(name);
        let mut k = self.systems.len();
        while k > 0
            invariant
                k <= self.systems.len(),
                self.normalized_names.len() == self.systems.len(),
                forall|i: int|
                    0 <= i < self.systems.len() ==> #[trigger] self.normalized_names[i]@ == normalize_name(
                        self.systems[i].name@,
                    ),
                forall|i: int|
                    k <= i < self.systems.len() ==> normalize_name(#[trigger] self.systems[i].name@)
                        != key@,
            decreases k,
        {
            if chars_eq(&self.normalized_names[k - 1], &key) {
                let id = self.systems[k - 1].id;
                proof {
                    lemma_last_system_with_id(self.systems@, id);
                    assert(self.systems@[k - 1].id == id);
                    assert(has_system(self.systems@, id));
                    assert(normalize_name(self.system_list()[k - 1].name@) == normalize_name(name@));
                }
                let r = self.system(id);
                return r;
            }
            k = k - 1;
        }
        None
    }
}

// ---------------------------------------------------------------------
// Shortest jump counts
// ---------------------------------------------------------------------

proof fn lemma_bounded_distinct(s: Seq<usize>, n: nat)
    requires
        s.no_duplicates(),
        forall|i: int| 0 <= i < s.len() ==> #[trigger] s[i] < n,
    ensures
        s.len() <= n,
{
    let t = s.map_values(|x: usize| x as int);
    assert(t.no_duplicates()) by {
        assert forall|i: int, j: int| 0 <= i < t.len() && 0 <= j < t.len() && i != j implies t[i] != t[j] by {
            assert(s[i] != s[j]);
        }
    }
    t.unique_seq_to_set();
    vstd::set_lib::lemma_int_range(0, n as int);
    assert(t.to_set().subset_of(vstd::set_lib::set_int_range(0, n as int))) by {
        assert forall|x: int| t.to_set().contains(x) implies vstd::set_lib::set_int_range(0, n as int).contains(x) by {
            let i = choose|i: int| 0 <= i < t.len() && t[i] == x;
            assert(s[i] < n);
        }
    }
    vstd::set_lib::lemma_len_subset(t.to_set(), vstd::set_lib::set_int_range(0, n as int));
}

/// When breadth-first search has finished, every place within `m` jumps
/// has a recorded count of at most `m`.
proof fn lemma_bfs_complete(
    edges: Seq<(i64, i64)>,
    vid: Seq<i64>,
    index: Map<i64, usize>,
    adj: Seq<Vec<usize>>,
    dist: Seq<usize>,
    queue: Seq<usize>,
    o: int,
    origin: i64,
    v: i64,
    m: nat,
)
    requires
        index_ok(vid, index),
        0 <= o < vid.len(),
        vid[o] == origin,
        dist.len() == vid.len(),
        adj.len() == vid.len(),
        dist[o] == 0,
        forall|k: int| 0 <= k < edges.len() ==> index.contains_key(#[trigger] edges[k].0) && index.contains_key(edges[k].1),
        forall|p: int, q: int|
            0 <= p < vid.len() && 0 <= q < vid.len() ==> (#[trigger] adj[p]@.contains(q as usize) <==> linked(
                edges,
                #[trigger] vid[p],
                vid[q],
            )),
        forall|p: int| 0 <= p < vid.len() ==> (#[trigger] dist[p] != usize::MAX <==> queue.contains(p as usize)),
        forall|i: int| 0 <= i < queue.len() ==> #[trigger] queue[i] < vid.len(),
        forall|i: int, r: usize|
            0 <= i < queue.len() && #[trigger] adj[queue[i] as int]@.contains(r) ==> dist[r as int]
                != usize::MAX && dist[r as int] <= dist[queue[i] as int] + 1,
        within(edges, origin, v, m),
    ensures
        index.contains_key(v),
        dist[index[v] as int] != usize::MAX,
        dist[index[v] as int] <= m,
    decreases m,
{
    if v == origin {
        assert(index.contains_key(vid[o]));
        assert(index[v] == o);
    } else {
        let u = choose|u: i64| #[trigger] linked(edges, u, v) && within(edges, origin, u, (m - 1) as nat);
        lemma_bfs_complete(edges, vid, index, adj, dist, queue, o, origin, u, (m - 1) as nat);
        let k = choose|k: int|
            0 <= k < edges.len() && ((#[trigger] edges[k].0 == u && edges[k].1 == v) || (edges[k].1 == u
                && edges[k].0 == v));
        assert(index.contains_key(edges[k].0) && index.contains_key(edges[k].1));
        let pu = index[u] as int;
        let pv = index[v] as int;
        assert(adj[pu]@.contains(pv as usize));
        let i = choose|i: int| 0 <= i < queue.len() && queue[i] == pu as usize;
        assert(adj[queue[i] as int]@.contains(pv as usize));
    }
}

impl RouteGraph {
    /// Fewest stargate jumps from `origin` to every place it can reach, or
    /// nothing when `origin` is not a known system.
    #[verifier::loop_isolation(false)]
    #[verifier::spinoff_prover]
    pub fn distances_from(&self, origin: i64) -> (r: HashMap<i64, usize>)
        ensures
            !has_system(self.system_list(), origin) ==> r@ == Map::<i64, usize>::empty(),
            has_system(self.system_list(), origin) ==> forall|v: i64|
                #[trigger] r@.contains_key(v) <==> reachable(self.links(), origin, v),
            forall|v: i64| #[trigger] r@.contains_key(v) ==> is_distance(self.links(), origin, v, r@[v] as nat),
    {
        proof {
            use_type_invariant(self);
        }
        let n = self.vertex_ids.len();
        let is_system = self.system(origin).is_some();
        proof {
            lemma_last_system_with_id(self.systems@, origin);
        }
        if !is_system {
            return HashMap::new();
        }
        let o = *self.index.get(&origin).unwrap();
        assert(self.index@.contains_key(self.systems@[choose|i: int| 0 <= i < self.systems@.len() && #[trigger] self.systems@[i].id == origin].id));
        let ghost edges = self.edges@;
        let ghost vid = self.vertex_ids@;
        let mut dist: Vec<usize> = Vec::new();
        let mut p: usize = 0;
        while p < n
            invariant
                p <= n,
                dist.len() == p,
                forall|k: int| 0 <= k < p ==> #[trigger] dist@[k] == usize::MAX,
            decreases n - p,
        {
            dist.push(usize::MAX);
            p = p + 1;
        }
        dist[o] = 0;
        let mut queue: Vec<usize> = Vec::new();
        queue.push(o);
        assert(queue@[0] == o);
        let mut head: usize = 0;
        while head < queue.len()
            invariant
                n == self.vertex_ids.len(),
                vid == self.vertex_ids@,
                edges == self.edges@,
                o < n,
                vid[o as int] == origin,
                dist.len() == n,
                dist@[o as int] == 0,
                head <= queue.len(),
                queue.len() <= n,
                queue@.no_duplicates(),
                forall|i: int| 0 <= i < queue.len() ==> #[trigger] queue@[i] < n,
                forall|i: int| 0 <= i < queue.len() ==> dist@[#[trigger] queue@[i] as int] <= i,
                forall|q: int| 0 <= q < n ==> (#[trigger] dist@[q] != usize::MAX <==> queue@.contains(q as usize)),
                forall|q: int| 0 <= q < n && #[trigger] dist@[q] != usize::MAX ==> within(edges, origin, vid[q], dist@[q] as nat),
                forall|i: int, j: int| 0 <= i < j < queue.len() ==> dist@[#[trigger] queue@[i] as int] <= dist@[#[trigger] queue@[j] as int],
                head < queue.len() ==> dist@[queue@[queue.len() - 1] as int] <= dist@[queue@[head as int] as int] + 1,
                forall|i: int, r: usize|
                    0 <= i < head && #[trigger] self.adjacency@[queue@[i] as int]@.contains(r) ==> dist@[r as int]
                        != usize::MAX && dist@[r as int] <= dist@[queue@[i] as int] + 1,
            decreases n - head,
        {
            let u = queue[head];
            let du = dist[u];
            let nbrs = &self.adjacency[u];
            let mut j: usize = 0;
            while j < nbrs.len()
                invariant
                    n == self.vertex_ids.len(),
                    vid == self.vertex_ids@,
                    edges == self.edges@,
                    nbrs == &self.adjacency@[u as int],
                    o < n,
                    vid[o as int] == origin,
                    dist.len() == n,
                    dist@[o as int] == 0,
                    head < queue.len(),
                    queue.len() <= n,
                    queue@[head as int] == u,
                    u < n,
                    du == dist@[u as int],
                    du <= head,
                    queue@.no_duplicates(),
                    forall|i: int| 0 <= i < queue.len() ==> #[trigger] queue@[i] < n,
                    forall|i: int| 0 <= i < queue.len() ==> dist@[#[trigger] queue@[i] as int] <= i,
                    forall|q: int| 0 <= q < n ==> (#[trigger] dist@[q] != usize::MAX <==> queue@.contains(q as usize)),
                    forall|q: int| 0 <= q < n && #[trigger] dist@[q] != usize::MAX ==> within(edges, origin, vid[q], dist@[q] as nat),
                    forall|i: int, k: int| 0 <= i < k < queue.len() ==> dist@[#[trigger] queue@[i] as int] <= dist@[#[trigger] queue@[k] as int],
                    dist@[queue@[queue.len() - 1] as int] <= du + 1,
                    forall|i: int, r: usize|
                        0 <= i < head && #[trigger] self.adjacency@[queue@[i] as int]@.contains(r) ==> dist@[r as int]
                            != usize::MAX && dist@[r as int] <= dist@[queue@[i] as int] + 1,
                    forall|k: int| 0 <= k < j ==> dist@[#[trigger] nbrs@[k] as int] != usize::MAX && dist@[nbrs@[k] as int] <= du + 1,
                decreases nbrs.len() - j,
            {
                let r = nbrs[j];
                proof {
                    use_type_invariant(self);
                    self.lemma_neighbour_linked(u as int, j as int);
                }
                assert(nbrs@.contains(r));
                assert(r < n);
                assert(linked(edges, vid[u as int], vid[r as int]));
                if dist[r] == usize::MAX {
                    proof {
                        assert(!queue@.contains(r));
                        lemma_bounded_distinct(queue@.push(r), n as nat);
                        assert(within(edges, origin, vid[u as int], du as nat));
                    }
                    let ghost old_dist = dist@;
                    let ghost old_queue = queue@;
                    dist[r] = du + 1;
                    queue.push(r);
                    proof {
                        assert forall|q: int| 0 <= q < n implies (#[trigger] dist@[q] != usize::MAX <==> queue@.contains(q as usize)) by {
                            if q == r as int {
                                assert(queue@[queue.len() - 1] == r);
                            } else {
                                assert(dist@[q] == old_dist[q]);
                                if old_queue.contains(q as usize) {
                                    let i = choose|i: int| 0 <= i < old_queue.len() && old_queue[i] == q as usize;
                                    assert(queue@[i] == q as usize);
                                }
                                if queue@.contains(q as usize) {
                                    let i = choose|i: int| 0 <= i < queue@.len() && queue@[i] == q as usize;
                                    assert(old_queue[i] == q as usize);
                                }
                            }
                        }
                        assert forall|i: int, r2: usize|
                            0 <= i < head && #[trigger] self.adjacency@[queue@[i] as int]@.contains(r2) implies dist@[r2 as int]
                                != usize::MAX && dist@[r2 as int] <= dist@[queue@[i] as int] + 1 by {
                            assert(queue@[i] == old_queue[i]);
                            assert(old_dist[r2 as int] != usize::MAX);
                        }
                    }
                }
                j = j + 1;
            }
            proof {
                assert forall|i: int, r: usize|
                    0 <= i < head + 1 && #[trigger] self.adjacency@[queue@[i] as int]@.contains(r) implies dist@[r as int]
                        != usize::MAX && dist@[r as int] <= dist@[queue@[i] as int] + 1 by {
                    if i == head {
                        let k = choose|k: int| 0 <= k < nbrs@.len() && nbrs@[k] == r;
                    }
                }
            }
            head = head + 1;
        }
        let mut result: HashMap<i64, usize> = HashMap::new();
        let mut p: usize = 0;
        while p < n
            invariant
                p <= n,
                n == self.vertex_ids.len(),
                vid == self.vertex_ids@,
                dist.len() == n,
                forall|v: i64| #[trigger] result@.contains_key(v) <==> exists|q: int|
                    0 <= q < p && vid[q] == v && dist@[q] != usize::MAX,
                forall|q: int| 0 <= q < p && dist@[q] != usize::MAX ==> #[trigger] result@[vid[q]] == dist@[q],
                index_ok(vid, self.index@),
            decreases n - p,
        {
            if dist[p] != usize::MAX {
                result.insert(self.vertex_ids[p], dist[p]);
            }
            proof {
                assert forall|q: int| 0 <= q < p + 1 && dist@[q] != usize::MAX implies #[trigger] result@[vid[q]] == dist@[q] by {
                    if q < p && dist@[p as int] != usize::MAX {
                        assert(self.index@.contains_key(vid[q]));
                        assert(self.index@.contains_key(vid[p as int]));
                        assert(vid[q] != vid[p as int]);
                    }
                }
            }
            p = p + 1;
        }
        proof {
            assert forall|v: i64| #[trigger] result@.contains_key(v) implies is_distance(edges, origin, v, result@[v] as nat) by {
                let q = choose|q: int| 0 <= q < n && vid[q] == v && dist@[q] != usize::MAX;
                assert forall|k: nat| k < result@[v] implies !#[trigger] within(edges, origin, v, k) by {
                    if within(edges, origin, v, k) {
                        lemma_bfs_complete(edges, vid, self.index@, self.adjacency@, dist@, queue@, o as int, origin, v, k);
                    }
                }
            }
            assert forall|v: i64| #[trigger] result@.contains_key(v) <==> reachable(edges, origin, v) by {
                if reachable(edges, origin, v) {
                    let m = choose|m: nat| #[trigger] within(edges, origin, v, m);
                    lemma_bfs_complete(edges, vid, self.index@, self.adjacency@, dist@, queue@, o as int, origin, v, m);
                    assert(vid[self.index@[v] as int] == v);
                }
                if result@.contains_key(v) {
                    let q = choose|q: int| 0 <= q < n && vid[q] == v && dist@[q] != usize::MAX;
                    assert(within(edges, origin, v, dist@[q] as nat));
                }
            }
        }
        result
    }

    /// Fewest jumps between two places, if `destination` can be reached.
    pub fn distance(&self, origin: i64, destination: i64) -> (r: Option<usize>)
        ensures
            r matches Some(d) ==> has_system(self.system_list(), origin) && is_distance(self.links(), origin, destination, d as nat),
            r is None ==> !has_system(self.system_list(), origin) || !reachable(self.links(), origin, destination),
    {
        let distances = self.distances_from(origin);
        match distances.get(&destination) {
            Some(d) => Some(*d),
            None => None,
        }
    }
}


// ---------------------------------------------------------------------
// Exact open route optimisation
// ---------------------------------------------------------------------

/// A jump count that no route reaches.
pub const OPTIMIZER_UNREACHABLE: u16 = 65535;

/// Marks a sub-route whose best cost has not been worked out yet.
pub const OPTIMIZER_UNKNOWN: u16 = 65534;

/// Jump counts between the stops of a route: from where the character is
/// to each stop, and between every two stops.
pub struct RouteDistances {
    pub origin_to_destination: Vec<usize>,
    pub destination_to_destination: Vec<Vec<usize>>,
    pub best_total_jumps: usize,
}

/// Why a route could not be optimised.
#[derive(Clone, Debug, PartialEq, Eq)]
pub enum OptimizeError {
    NoDestinations,
    TooManyDestinations,
    UnknownOrigin(i64),
    NoRouteFromOrigin(String),
    NoRoute(String, String),
    CapacityExceeded,
    CouldNotOptimize,
    CouldNotReconstruct,
}

/// The jump counts of a route as numbers: `from_origin[i]` from where the
/// character is to stop `i`, `between[i][j]` from stop `i` to stop `j`.
pub struct JumpTable {
    pub from_origin: Seq<int>,
    pub between: Seq<Seq<int>>,
}

pub open spec fn jump_table(d: RouteDistances) -> JumpTable {
    JumpTable {
        from_origin: d.origin_to_destination@.map_values(|x: usize| x as int),
        between: d.destination_to_destination@.map_values(|row: Vec<usize>| row@.map_values(|x: usize| x as int)),
    }
}

pub open spec fn stop_count(t: JumpTable) -> int {
    t.from_origin.len() as int
}

pub open spec fn distances_ok_shape(d: RouteDistances, k: int) -> bool {
    &&& d.origin_to_destination.len() == k
    &&& d.destination_to_destination.len() == k
    &&& forall|i: int| 0 <= i < k ==> #[trigger] d.destination_to_destination[i].len() == k
}

pub open spec fn distances_ok(d: RouteDistances) -> bool {
    &&& d.origin_to_destination.len() <= MAX_OPTIMIZED_ROUTE_STOPS
    &&& d.destination_to_destination.len() == d.origin_to_destination.len()
    &&& forall|i: int|
        0 <= i < d.origin_to_destination.len() ==> #[trigger] d.destination_to_destination[i].len()
            == d.origin_to_destination.len()
}

/// Jumps from `cur` (a stop, or the origin when `cur` is the stop count)
/// to the stop `next`.
pub open spec fn leg(t: JumpTable, cur: int, next: int) -> int {
    if cur == stop_count(t) {
        t.from_origin[next]
    } else {
        t.between[cur][next]
    }
}

pub open spec fn has_bit(mask: usize, i: int) -> bool {
    0 <= i < 32 && mask & (1usize << (i as usize)) != 0
}

pub open spec fn clear_bit(mask: usize, i: int) -> usize {
    mask & !(1usize << (i as usize))
}

pub proof fn lemma_clear_bit(mask: usize, i: usize)
    requires
        i < 32,
        mask & (1usize << i) != 0,
    ensures
        mask & !(1usize << i) < mask,
        forall|j: usize| j < 32 ==> (#[trigger] ((mask & !(1usize << i)) & (1usize << j)) != 0
            <==> (mask & (1usize << j) != 0 && j != i)),
{
    assert(mask & !(1usize << i) < mask) by (bit_vector)
        requires
            i < 32,
            mask & (1usize << i) != 0,
    ;
    assert forall|j: usize| j < 32 implies (#[trigger] ((mask & !(1usize << i)) & (1usize << j)) != 0
        <==> (mask & (1usize << j) != 0 && j != i)) by {
        assert(((mask & !(1usize << i)) & (1usize << j)) != 0 <==> (mask & (1usize << j) != 0 && j
            != i)) by (bit_vector)
            requires
                i < 32,
                j < 32,
        ;
    }
}

/// The fewest jumps that visit every stop in `mask` once, starting at
/// `cur`, worked out the way the optimiser does: `None` when a partial
/// sum reaches the optimiser's capacity.
pub open spec fn suffix(t: JumpTable, cur: int, mask: usize) -> Option<u16>
    decreases mask, stop_count(t) + 1,
{
    if mask == 0 {
        Some(0u16)
    } else {
        scan(t, cur, mask, 0, OPTIMIZER_UNREACHABLE)
    }
}

/// The best cost found after trying the next stops from `next` on,
/// having found `best` so far.
pub open spec fn scan(t: JumpTable, cur: int, mask: usize, next: int, best: u16) -> Option<u16>
    decreases mask, stop_count(t) - next,
{
    if next < 0 || next >= stop_count(t) || next >= 32 {
        Some(best)
    } else if !has_bit(mask, next) {
        scan(t, cur, mask, next + 1, best)
    } else {
        proof {
            lemma_clear_bit(mask, next as usize);
        }
        match suffix(t, next, clear_bit(mask, next)) {
            None => None,
            Some(s) => if s == OPTIMIZER_UNREACHABLE {
                scan(t, cur, mask, next + 1, best)
            } else if leg(t, cur, next) + s >= 65534 {
                None
            } else {
                let c = (leg(t, cur, next) + s) as u16;
                scan(t, cur, mask, next + 1, if c < best { c } else { best })
            },
        }
    }
}


/// Every remembered best cost is the true one for its sub-route; a
/// sub-route `(mask, cur)` is remembered at `mask * current_count + cur`.
pub open spec fn memo_ok(t: JumpTable, memo: Seq<u16>, current_count: int) -> bool {
    forall|i: int|
        0 <= i < memo.len() ==> #[trigger] memo[i] == OPTIMIZER_UNKNOWN || Some(memo[i]) == suffix(
            t,
            i % current_count,
            (i / current_count) as usize,
        )
}

proof fn lemma_state_index(mask: int, cur: int, cc: int, masks: int)
    requires
        0 <= mask < masks,
        0 <= cur < cc,
    ensures
        (mask * cc + cur) % cc == cur,
        (mask * cc + cur) / cc == mask,
        0 <= mask * cc + cur < masks * cc,
{
    vstd::arithmetic::div_mod::lemma_fundamental_div_mod_converse(mask * cc + cur, cc, mask, cur);
    assert(mask * cc + cur < masks * cc) by (nonlinear_arith)
        requires
            0 <= mask < masks,
            0 <= cur < cc,
    ;
}

fn optimizer_edge_distance(current_index: usize, next_index: usize, distances: &RouteDistances) -> (r: usize)
    requires
        distances_ok(*distances),
        current_index <= stop_count(jump_table(*distances)),
        next_index < stop_count(jump_table(*distances)),
    ensures
        r == leg(jump_table(*distances), current_index as int, next_index as int),
{
    if current_index == distances.origin_to_destination.len() {
        distances.origin_to_destination[next_index]
    } else {
        assert(distances.destination_to_destination[current_index as int].len() == stop_count(jump_table(*distances)));
        distances.destination_to_destination[current_index][next_index]
    }
}

/// A cost the optimiser can hold: below the marker for unknown costs.
fn optimizer_cost(cost: usize) -> (r: Result<u16, OptimizeError>)
    ensures
        cost < 65534 ==> r == Ok::<u16, OptimizeError>(cost as u16),
        cost >= 65534 ==> r == Err::<u16, OptimizeError>(OptimizeError::CapacityExceeded),
{
    if cost > 65535 {
        return Err(OptimizeError::CapacityExceeded);
    }
    let cost = cost as u16;
    if cost >= OPTIMIZER_UNKNOWN {
        return Err(OptimizeError::CapacityExceeded);
    }
    Ok(cost)
}

/// The jumps of one leg plus the best cost after it, if the optimiser can
/// hold the sum.
fn optimizer_sum(edge_distance: usize, suffix_cost: u16) -> (r: Result<u16, OptimizeError>)
    ensures
        edge_distance + suffix_cost < 65534 ==> r == Ok::<u16, OptimizeError>((edge_distance + suffix_cost) as u16),
        edge_distance + suffix_cost >= 65534 ==> r == Err::<u16, OptimizeError>(OptimizeError::CapacityExceeded),
{
    if edge_distance >= 65534 {
        return Err(OptimizeError::CapacityExceeded);
    }
    optimizer_cost(edge_distance + suffix_cost as usize)
}

fn optimizer_state_index(mask: usize, current_index: usize, current_count: usize) -> (r: usize)
    requires
        mask * current_count + current_index <= usize::MAX,
    ensures
        r == mask * current_count + current_index,
{
    mask * current_count + current_index
}

/// The fewest jumps that visit every stop in `remaining_mask`, starting at
/// `current_index`, remembering each sub-route's answer in `memo`.
fn best_route_suffix_cost(
    current_index: usize,
    remaining_mask: usize,
    distances: &RouteDistances,
    current_count: usize,
    memo: &mut Vec<u16>,
) -> (r: Result<u16, OptimizeError>)
    requires
        distances_ok(*distances),
        current_count == stop_count(jump_table(*distances)) + 1,
        current_index < current_count,
        remaining_mask < (1usize << (stop_count(jump_table(*distances)) as usize)),
        old(memo).len() == (1usize << (stop_count(jump_table(*distances)) as usize)) * current_count,
        memo_ok(jump_table(*distances), old(memo)@, current_count as int),
    ensures
        final(memo).len() == old(memo).len(),
        memo_ok(jump_table(*distances), final(memo)@, current_count as int),
        match suffix(jump_table(*distances), current_index as int, remaining_mask) {
            Some(v) => r == Ok::<u16, OptimizeError>(v),
            None => r == Err::<u16, OptimizeError>(OptimizeError::CapacityExceeded),
        },
    decreases remaining_mask,
{
    if remaining_mask == 0 {
        return Ok(0);
    }
    let k = distances.origin_to_destination.len();
    let ghost masks = (1usize << (k as usize)) as int;
    proof {
        lemma_state_index(remaining_mask as int, current_index as int, current_count as int, masks);
    }
    let state_index = optimizer_state_index(remaining_mask, current_index, current_count);
    let cached = memo[state_index];
    if cached != OPTIMIZER_UNKNOWN {
        return Ok(cached);
    }
    let mut best_cost: u16 = OPTIMIZER_UNREACHABLE;
    let mut next_index: usize = 0;
    while next_index < k
        invariant
            distances_ok(*distances),
            k == stop_count(jump_table(*distances)),
            current_count == k + 1,
            current_index < current_count,
            remaining_mask != 0,
            remaining_mask < (1usize << (k as usize)),
            masks == (1usize << (k as usize)) as int,
            memo.len() == masks * current_count,
            memo.len() == old(memo).len(),
            memo_ok(jump_table(*distances), memo@, current_count as int),
            next_index <= k,
            suffix(jump_table(*distances), current_index as int, remaining_mask) == scan(
                jump_table(*distances),
                current_index as int,
                remaining_mask,
                next_index as int,
                best_cost,
            ),
        decreases k - next_index,
    {
        let next_bit = 1usize << next_index;
        if remaining_mask & next_bit == 0 {
            next_index = next_index + 1;
            continue;
        }
        let next_remaining_mask = remaining_mask & !next_bit;
        proof {
            lemma_clear_bit(remaining_mask, next_index);
        }
        let suffix_cost = best_route_suffix_cost(
            next_index,
            next_remaining_mask,
            distances,
            current_count,
            memo,
        )?;
        if suffix_cost == OPTIMIZER_UNREACHABLE {
            next_index = next_index + 1;
            continue;
        }
        let edge = optimizer_edge_distance(current_index, next_index, distances);
        let total_cost = optimizer_sum(edge, suffix_cost)?;
        if total_cost < best_cost {
            best_cost = total_cost;
        }
        next_index = next_index + 1;
    }
    proof {
        lemma_state_index(remaining_mask as int, current_index as int, current_count as int, masks);
    }
    let ghost before = memo@;
    memo[state_index] = best_cost;
    proof {
        assert forall|i: int| 0 <= i < memo@.len() implies #[trigger] memo@[i] == OPTIMIZER_UNKNOWN || Some(memo@[i]) == suffix(
            jump_table(*distances),
            i % (current_count as int),
            (i / (current_count as int)) as usize,
        ) by {
            if i != state_index as int {
                assert(memo@[i] == before[i]);
            }
        }
    }
    Ok(best_cost)
}


/// The first stop from `next` on that continues a best route of cost
/// `target` from `cur`, as the optimiser looks for it.
pub open spec fn pick(t: JumpTable, cur: int, mask: usize, next: int, target: u16) -> Result<
    Option<int>,
    OptimizeError,
>
    decreases stop_count(t) - next,
{
    if next < 0 || next >= stop_count(t) || next >= 32 {
        Ok(None)
    } else if !has_bit(mask, next) {
        pick(t, cur, mask, next + 1, target)
    } else {
        match suffix(t, next, clear_bit(mask, next)) {
            None => Err(OptimizeError::CapacityExceeded),
            Some(s) => if s == OPTIMIZER_UNREACHABLE {
                pick(t, cur, mask, next + 1, target)
            } else if leg(t, cur, next) + s >= 65534 {
                Err(OptimizeError::CapacityExceeded)
            } else if leg(t, cur, next) + s == target {
                Ok(Some(next))
            } else {
                pick(t, cur, mask, next + 1, target)
            },
        }
    }
}

pub proof fn lemma_pick_has_bit(t: JumpTable, cur: int, mask: usize, next: int, target: u16)
    ensures
        pick(t, cur, mask, next, target) matches Ok(Some(n)) ==> next <= n < stop_count(t) && n < 32
            && has_bit(mask, n),
    decreases stop_count(t) - next,
{
    if !(next < 0 || next >= stop_count(t) || next >= 32) {
        lemma_pick_has_bit(t, cur, mask, next + 1, target);
    }
}

/// The stops of the best route from `cur` through `mask`, appended to
/// `acc`: at each step the first stop that keeps the route best.
pub open spec fn rebuild(t: JumpTable, cur: int, mask: usize, acc: Seq<int>) -> Result<
    Seq<int>,
    OptimizeError,
>
    decreases mask,
{
    if mask == 0 {
        Ok(acc)
    } else {
        match suffix(t, cur, mask) {
            None => Err(OptimizeError::CapacityExceeded),
            Some(target) => match pick(t, cur, mask, 0, target) {
                Err(e) => Err(e),
                Ok(None) => Err(OptimizeError::CouldNotReconstruct),
                Ok(Some(n)) => {
                    proof {
                        lemma_pick_has_bit(t, cur, mask, 0, target);
                        lemma_clear_bit(mask, n as usize);
                    }
                    rebuild(t, n, clear_bit(mask, n), acc.push(n))
                },
            },
        }
    }
}

pub open spec fn full_mask(k: int) -> usize {
    ((1usize << (k as usize)) - 1) as usize
}

/// What the optimiser ends with: the best total and the order of the
/// stops, or why it stopped.
pub open spec fn optimize_spec(t: JumpTable) -> Result<(u16, Seq<int>), OptimizeError> {
    let k = stop_count(t);
    if k == 0 {
        Err(OptimizeError::NoDestinations)
    } else {
        match suffix(t, k, full_mask(k)) {
            None => Err(OptimizeError::CapacityExceeded),
            Some(best) => if best == OPTIMIZER_UNREACHABLE {
                Err(OptimizeError::CouldNotOptimize)
            } else {
                match rebuild(t, k, full_mask(k), Seq::empty()) {
                    Err(e) => Err(e),
                    Ok(order) => Ok((best, order)),
                }
            },
        }
    }
}

proof fn lemma_mask_bounds(k: usize)
    requires
        k <= 18,
    ensures
        (1usize << k) >= 1,
        (1usize << k) <= 262144,
{
    assert((1usize << k) >= 1 && (1usize << k) <= 262144) by (bit_vector)
        requires
            k <= 18,
    ;
}

/// The order of the stops on the route with the fewest jumps; among
/// equally short routes the one that takes the earliest-listed stop first
/// at every step.  Records the best total in `best_total_jumps`.
fn exact_open_route_order(distances: &mut RouteDistances) -> (r: Result<Vec<usize>, OptimizeError>)
    requires
        distances_ok(*old(distances)),
    ensures
        final(distances).origin_to_destination == old(distances).origin_to_destination,
        final(distances).destination_to_destination == old(distances).destination_to_destination,
        match optimize_spec(jump_table(*old(distances))) {
            Err(e) => r == Err::<Vec<usize>, OptimizeError>(e),
            Ok((best, order)) => r matches Ok(v) && v@.map_values(|i: usize| i as int) == order
                && final(distances).best_total_jumps == best as usize,
        },
{
    let k = distances.origin_to_destination.len();
    if k == 0 {
        return Err(OptimizeError::NoDestinations);
    }
    proof {
        lemma_mask_bounds(k);
    }
    let state_count: usize = 1usize << k;
    let current_count = k + 1;
    let origin_index = k;
    let full = state_count - 1;
    assert(full == full_mask(k as int));
    let mut memo: Vec<u16> = Vec::new();
    assert((state_count as int) * (current_count as int) <= 262144 * 19) by (nonlinear_arith)
        requires
            state_count <= 262144,
            current_count <= 19,
    ;
    let total = state_count * current_count;
    let mut i: usize = 0;
    while i < total
        invariant
            i <= total,
            memo.len() == i,
            forall|j: int| 0 <= j < i ==> #[trigger] memo@[j] == OPTIMIZER_UNKNOWN,
        decreases total - i,
    {
        memo.push(OPTIMIZER_UNKNOWN);
        i = i + 1;
    }
    let ghost d = *distances;
    let ghost t = jump_table(d);
    let best_total = best_route_suffix_cost(origin_index, full, distances, current_count, &mut memo)?;
    if best_total == OPTIMIZER_UNREACHABLE {
        return Err(OptimizeError::CouldNotOptimize);
    }
    let ghost outcome = optimize_spec(t);
    assert(outcome == match rebuild(t, k as int, full, Seq::empty()) {
        Err(e) => Err(e),
        Ok(o) => Ok((best_total, o)),
    });
    let mut order: Vec<usize> = Vec::new();
    assert(order@.map_values(|i: usize| i as int) =~= Seq::<int>::empty());
    let mut current_index = origin_index;
    let mut remaining_mask = full;
    while remaining_mask != 0
        invariant
            distances_ok(*distances),
            *distances == d,
            t == jump_table(d),
            outcome == optimize_spec(t),
            outcome == match rebuild(t, k as int, full, Seq::empty()) {
                Err(e) => Err(e),
                Ok(o) => Ok((best_total, o)),
            },
            k == stop_count(t),
            current_count == k + 1,
            current_index < current_count,
            remaining_mask < (1usize << (k as usize)),
            memo.len() == (1usize << (k as usize)) * current_count,
            memo_ok(t, memo@, current_count as int),
            rebuild(t, k as int, full, Seq::empty()) == rebuild(
                t,
                current_index as int,
                remaining_mask,
                order@.map_values(|i: usize| i as int),
            ),
        decreases remaining_mask,
    {
        let current_best = best_route_suffix_cost(current_index, remaining_mask, distances, current_count, &mut memo)?;
        let mut selected_next: Option<usize> = None;
        let mut next_index: usize = 0;
        while selected_next.is_none() && next_index < k
            invariant
                distances_ok(*distances),
                *distances == d,
                t == jump_table(d),
            t == jump_table(d),
                k == stop_count(t),
                current_count == k + 1,
                current_index < current_count,
                remaining_mask < (1usize << (k as usize)),
                remaining_mask != 0,
                memo.len() == (1usize << (k as usize)) * current_count,
                memo_ok(t, memo@, current_count as int),
                next_index <= k,
                outcome == optimize_spec(t),
                outcome == match rebuild(t, k as int, full, Seq::empty()) {
                    Err(e) => Err(e),
                    Ok(o) => Ok((best_total, o)),
                },
                rebuild(t, k as int, full, Seq::empty()) == rebuild(
                    t,
                    current_index as int,
                    remaining_mask,
                    order@.map_values(|i: usize| i as int),
                ),
                suffix(t, current_index as int, remaining_mask) == Some(current_best),
                selected_next is None ==> pick(t, current_index as int, remaining_mask, 0, current_best)
                    == pick(t, current_index as int, remaining_mask, next_index as int, current_best),
                selected_next matches Some(n) ==> pick(t, current_index as int, remaining_mask, 0, current_best)
                    == Ok::<Option<int>, OptimizeError>(Some(n as int)),
            decreases k - next_index,
        {
            let next_bit = 1usize << next_index;
            if remaining_mask & next_bit != 0 {
                let next_remaining_mask = remaining_mask & !next_bit;
                proof {
                    lemma_clear_bit(remaining_mask, next_index);
                }
                let suffix_result = best_route_suffix_cost(
                    next_index,
                    next_remaining_mask,
                    distances,
                    current_count,
                    &mut memo,
                );
                let suffix_cost = match suffix_result {
                    Ok(c) => c,
                    Err(e) => {
                        proof {
                            assert(pick(t, current_index as int, remaining_mask, next_index as int, current_best)
                                == Err::<Option<int>, OptimizeError>(e));
                            assert(pick(t, current_index as int, remaining_mask, 0, current_best)
                                == Err::<Option<int>, OptimizeError>(e));
                            assert(rebuild(t, current_index as int, remaining_mask, order@.map_values(|i: usize| i as int))
                                == Err::<Seq<int>, OptimizeError>(e));
                        }
                        return Err(e);
                    },
                };
                if suffix_cost != OPTIMIZER_UNREACHABLE {
                    let edge = optimizer_edge_distance(current_index, next_index, distances);
                    let total_cost = match optimizer_sum(edge, suffix_cost) {
                        Ok(c) => c,
                        Err(e) => {
                            proof {
                                assert(pick(t, current_index as int, remaining_mask, next_index as int, current_best)
                                    == Err::<Option<int>, OptimizeError>(e));
                                assert(pick(t, current_index as int, remaining_mask, 0, current_best)
                                    == Err::<Option<int>, OptimizeError>(e));
                                assert(rebuild(t, current_index as int, remaining_mask, order@.map_values(|i: usize| i as int))
                                    == Err::<Seq<int>, OptimizeError>(e));
                            }
                            return Err(e);
                        },
                    };
                    if total_cost == current_best {
                        selected_next = Some(next_index);
                    }
                }
            }
            next_index = next_index + 1;
        }
        let next_index = match selected_next {
            Some(n) => n,
            None => {
                return Err(OptimizeError::CouldNotReconstruct);
            },
        };
        proof {
            lemma_pick_has_bit(t, current_index as int, remaining_mask, 0, current_best);
            lemma_clear_bit(remaining_mask, next_index);
        }
        let ghost old_order = order@;
        order.push(next_index);
        assert(order@.map_values(|i: usize| i as int) =~= old_order.map_values(|i: usize| i as int).push(next_index as int));
        remaining_mask = remaining_mask & !(1usize << next_index);
        current_index = next_index;
    }
    distances.best_total_jumps = best_total as usize;
    Ok(order)
}


/// Every stop that `rebuild` appends is a stop of the table.
pub proof fn lemma_rebuild_in_range(t: JumpTable, cur: int, mask: usize, acc: Seq<int>)
    requires
        forall|i: int| 0 <= i < acc.len() ==> 0 <= #[trigger] acc[i] < stop_count(t),
    ensures
        rebuild(t, cur, mask, acc) matches Ok(o) ==> forall|i: int|
            0 <= i < o.len() ==> 0 <= #[trigger] o[i] < stop_count(t),
    decreases mask,
{
    if mask != 0 {
        if let Some(target) = suffix(t, cur, mask) {
            lemma_pick_has_bit(t, cur, mask, 0, target);
            if let Ok(Some(n)) = pick(t, cur, mask, 0, target) {
                lemma_clear_bit(mask, n as usize);
                let acc2 = acc.push(n);
                assert forall|i: int| 0 <= i < acc2.len() implies 0 <= #[trigger] acc2[i] < stop_count(t) by {
                    if i < acc.len() {
                        assert(acc2[i] == acc[i]);
                    }
                }
                lemma_rebuild_in_range(t, n, clear_bit(mask, n), acc2);
            }
        }
    }
}

// ---------------------------------------------------------------------
// Routes on the map
// ---------------------------------------------------------------------

/// The fewest jumps from `a` to `b`, where `b` can be reached.
pub open spec fn jumps(edges: Seq<(i64, i64)>, a: i64, b: i64) -> int {
    (choose|d: nat| is_distance(edges, a, b, d)) as int
}

pub proof fn lemma_distance_unique(edges: Seq<(i64, i64)>, a: i64, b: i64, d: nat)
    requires
        is_distance(edges, a, b, d),
    ensures
        jumps(edges, a, b) == d,
{
    let c = choose|c: nat| is_distance(edges, a, b, c);
    assert(is_distance(edges, a, b, c));
    if c < d {
        assert(!within(edges, a, b, c));
    }
    if d < c {
        assert(!within(edges, a, b, d));
    }
}

/// A stargate route leads from the known system `a` to `b`.
pub open spec fn reaches(g: RouteGraph, a: i64, b: i64) -> bool {
    has_system(g.system_list(), a) && reachable(g.links(), a, b)
}

/// The jump table of a route from `origin` through `stops`.
pub open spec fn route_table(g: RouteGraph, origin: i64, stops: Seq<RouteDestination>) -> JumpTable {
    JumpTable {
        from_origin: stops.map_values(|x: RouteDestination| jumps(g.links(), origin, x.system_id)),
        between: Seq::new(
            stops.len(),
            |i: int|
                Seq::new(
                    stops.len(),
                    |j: int|
                        if i == j {
                            0
                        } else {
                            jumps(g.links(), stops[i].system_id, stops[j].system_id)
                        },
                ),
        ),
    }
}

/// Routes lead from `origin` to every stop and between every two stops.
pub open spec fn routes_exist(g: RouteGraph, origin: i64, stops: Seq<RouteDestination>) -> bool {
    &&& forall|i: int| 0 <= i < stops.len() ==> reaches(g, origin, #[trigger] stops[i].system_id)
    &&& forall|i: int, j: int|
        0 <= i < stops.len() && 0 <= j < stops.len() && i != j ==> reaches(
            g,
            #[trigger] stops[i].system_id,
            #[trigger] stops[j].system_id,
        )
}

/// Routes lead between the stops `a` and `b` for every pair that comes
/// before `(i, j)`, row by row.
pub open spec fn pairs_linked_before(g: RouteGraph, stops: Seq<RouteDestination>, i: int, j: int) -> bool {
    forall|a: int, b: int|
        0 <= a < stops.len() && 0 <= b < stops.len() && a != b && (a < i || (a == i && b < j))
            ==> reaches(g, #[trigger] stops[a].system_id, #[trigger] stops[b].system_id)
}

/// `e` names the first missing route: from `origin` to the first stop it
/// cannot reach, or else between the first pair of stops, row by row,
/// with no route between them.
pub open spec fn first_missing_route(
    g: RouteGraph,
    origin: i64,
    stops: Seq<RouteDestination>,
    e: OptimizeError,
) -> bool {
    ||| exists|i: int|
        0 <= i < stops.len() && (forall|a: int| 0 <= a < i ==> reaches(g, origin, #[trigger] stops[a].system_id))
            && !reaches(g, origin, #[trigger] stops[i].system_id) && (e matches OptimizeError::NoRouteFromOrigin(n)
            && n@ == stops[i].system_name@)
    ||| (forall|a: int| 0 <= a < stops.len() ==> reaches(g, origin, #[trigger] stops[a].system_id))
        && exists|i: int, j: int|
        0 <= i < stops.len() && 0 <= j < stops.len() && i != j && pairs_linked_before(g, stops, i, j)
            && !reaches(g, #[trigger] stops[i].system_id, #[trigger] stops[j].system_id) && (e matches OptimizeError::NoRoute(
            a,
            b,
        ) && a@ == stops[i].system_name@ && b@ == stops[j].system_name@)
}

pub open spec fn same_destination(a: RouteDestination, b: RouteDestination) -> bool {
    a.system_id == b.system_id && a.system_name@ == b.system_name@ && a.import_index == b.import_index
}

pub fn copy_destination(d: &RouteDestination) -> (r: RouteDestination)
    ensures
        same_destination(r, *d),
{
    RouteDestination { system_id: d.system_id, system_name: d.system_name.clone(), import_index: d.import_index }
}

impl RouteGraph {
    /// Jump counts from `origin` to each stop and between every two stops,
    /// or the first route that does not exist.
    pub fn route_distances(&self, origin: i64, destinations: &[RouteDestination]) -> (r: Result<RouteDistances, OptimizeError>)
        ensures
            r is Ok <==> routes_exist(*self, origin, destinations@),
            r matches Ok(d) ==> jump_table(d) == route_table(*self, origin, destinations@)
                && distances_ok_shape(d, destinations@.len() as int) && d.best_total_jumps == 0,
            r matches Err(e) ==> first_missing_route(*self, origin, destinations@, e),
    {
        let n = destinations.len();
        let ghost g = *self;
        let ghost stops = destinations@;
        let origin_distances = self.distances_from(origin);
        let mut origin_to_destination: Vec<usize> = Vec::new();
        let mut i: usize = 0;
        while i < n
            invariant
                n == stops.len(),
                stops == destinations@,
                g == *self,
                i <= n,
                origin_to_destination.len() == i,
                !has_system(g.system_list(), origin) ==> origin_distances@ == Map::<i64, usize>::empty(),
                has_system(g.system_list(), origin) ==> forall|v: i64|
                    #[trigger] origin_distances@.contains_key(v) <==> reachable(g.links(), origin, v),
                forall|v: i64| #[trigger] origin_distances@.contains_key(v) ==> is_distance(g.links(), origin, v, origin_distances@[v] as nat),
                forall|a: int| 0 <= a < i ==> reaches(g, origin, #[trigger] stops[a].system_id),
                forall|a: int| 0 <= a < i ==> #[trigger] origin_to_destination@[a] == jumps(g.links(), origin, stops[a].system_id),
            decreases n - i,
        {
            let id = destinations[i].system_id;
            match origin_distances.get(&id) {
                Some(d) => {
                    proof {
                        lemma_distance_unique(g.links(), origin, id, *d as nat);
                    }
                    origin_to_destination.push(*d);
                },
                None => {
                    proof {
                        assert(!reaches(g, origin, stops[i as int].system_id));
                    }
                    return Err(OptimizeError::NoRouteFromOrigin(destinations[i].system_name.clone()));
                },
            }
            i = i + 1;
        }
        let mut rows: Vec<Vec<usize>> = Vec::new();
        let mut left: usize = 0;
        while left < n
            invariant
                n == stops.len(),
                stops == destinations@,
                g == *self,
                left <= n,
                rows.len() == left,
                forall|a: int| 0 <= a < n ==> reaches(g, origin, #[trigger] stops[a].system_id),
                pairs_linked_before(g, stops, left as int, 0),
                forall|a: int| 0 <= a < left ==> (#[trigger] rows@[a]).len() == n,
                forall|a: int, b: int|
                    0 <= a < left && 0 <= b < n ==> #[trigger] rows@[a]@[b] == (if a == b {
                        0
                    } else {
                        jumps(g.links(), stops[a].system_id, stops[b].system_id)
                    }),
            decreases n - left,
        {
            let from = destinations[left].system_id;
            let distances = self.distances_from(from);
            let mut row: Vec<usize> = Vec::new();
            let mut right: usize = 0;
            while right < n
                invariant
                    n == stops.len(),
                    stops == destinations@,
                    g == *self,
                    left < n,
                    right <= n,
                    row.len() == right,
                    from == stops[left as int].system_id,
                    !has_system(g.system_list(), from) ==> distances@ == Map::<i64, usize>::empty(),
                    has_system(g.system_list(), from) ==> forall|v: i64|
                        #[trigger] distances@.contains_key(v) <==> reachable(g.links(), from, v),
                    forall|v: i64| #[trigger] distances@.contains_key(v) ==> is_distance(g.links(), from, v, distances@[v] as nat),
                    pairs_linked_before(g, stops, left as int, right as int),
                    forall|a: int| 0 <= a < n ==> reaches(g, origin, #[trigger] stops[a].system_id),
                    forall|b: int| 0 <= b < right ==> #[trigger] row@[b] == (if left == b {
                        0
                    } else {
                        jumps(g.links(), from, stops[b].system_id)
                    }),
                decreases n - right,
            {
                if left == right {
                    row.push(0);
                } else {
                    let to = destinations[right].system_id;
                    match distances.get(&to) {
                        Some(d) => {
                            proof {
                                lemma_distance_unique(g.links(), from, to, *d as nat);
                            }
                            row.push(*d);
                        },
                        None => {
                            let err = OptimizeError::NoRoute(
                                destinations[left].system_name.clone(),
                                destinations[right].system_name.clone(),
                            );
                            proof {
                                let (li, ri) = (left as int, right as int);
                                assert(!reaches(g, stops[li].system_id, stops[ri].system_id));
                                assert(0 <= li < stops.len() && 0 <= ri < stops.len() && li != ri
                                    && pairs_linked_before(g, stops, li, ri)
                                    && !reaches(g, stops[li].system_id, stops[ri].system_id) && (err matches OptimizeError::NoRoute(
                                    a,
                                    b,
                                ) && a@ == stops[li].system_name@ && b@ == stops[ri].system_name@));
                                assert(first_missing_route(g, origin, stops, err));
                            }
                            return Err(err);
                        },
                    }
                }
                right = right + 1;
            }
            let ghost before = rows@;
            rows.push(row);
            proof {
                assert forall|a: int, b: int|
                    0 <= a < left + 1 && 0 <= b < n implies #[trigger] rows@[a]@[b] == (if a == b {
                        0
                    } else {
                        jumps(g.links(), stops[a].system_id, stops[b].system_id)
                    }) by {
                    if a < left {
                        assert(rows@[a] == before[a]);
                    }
                }
            }
            left = left + 1;
        }
        let result = RouteDistances {
            origin_to_destination,
            destination_to_destination: rows,
            best_total_jumps: 0,
        };
        proof {
            let t = jump_table(result);
            let want = route_table(g, origin, stops);
            assert(t.from_origin =~= want.from_origin);
            assert forall|a: int| 0 <= a < n implies #[trigger] t.between[a] =~= want.between[a] by {
                assert(t.between[a] == rows@[a]@.map_values(|x: usize| x as int));
            }
            assert(t.between =~= want.between);
        }
        Ok(result)
    }

    /// The stops in the order that visits them all in the fewest jumps
    /// from `origin`, with that jump count.
    pub fn optimize_open_route(&self, origin: i64, destinations: &[RouteDestination]) -> (r: Result<OptimizedRoute, OptimizeError>)
        ensures
            optimize_result_ok(*self, origin, destinations@, r),
    {
        if destinations.len() == 0 {
            return Err(OptimizeError::NoDestinations);
        }
        if destinations.len() > MAX_OPTIMIZED_ROUTE_STOPS {
            return Err(OptimizeError::TooManyDestinations);
        }
        proof {
            lemma_last_system_with_id(self.system_list(), origin);
        }
        let origin_system = match self.system(origin) {
            Some(s) => s,
            None => {
                return Err(OptimizeError::UnknownOrigin(origin));
            },
        };
        let mut distances = self.route_distances(origin, destinations)?;
        let ghost t = jump_table(distances);
        let order = exact_open_route_order(&mut distances)?;
        proof {
            lemma_rebuild_in_range(t, stop_count(t), full_mask(stop_count(t)), Seq::empty());
        }
        let ghost order_spec = order@.map_values(|i: usize| i as int);
        let mut ordered: Vec<RouteDestination> = Vec::new();
        let mut i: usize = 0;
        while i < order.len()
            invariant
                i <= order.len(),
                ordered.len() == i,
                order_spec == order@.map_values(|i: usize| i as int),
                forall|a: int| 0 <= a < order.len() ==> 0 <= #[trigger] order_spec[a] < destinations@.len(),
                forall|a: int| 0 <= a < i ==> same_destination(#[trigger] ordered@[a], destinations@[order_spec[a]]),
            decreases order.len() - i,
        {
            assert(order_spec[i as int] == order@[i as int] as int);
            let index = order[i];
            ordered.push(copy_destination(&destinations[index]));
            i = i + 1;
        }
        Ok(OptimizedRoute { origin: origin_system, destinations: ordered, total_jumps: distances.best_total_jumps })
    }
}


// ---------------------------------------------------------------------
// What the optimiser's answer is
// ---------------------------------------------------------------------

/// A table the optimiser can work on: at most the stop limit, and no leg
/// with fewer than zero jumps.
pub open spec fn table_ok(t: JumpTable) -> bool {
    &&& stop_count(t) <= MAX_OPTIMIZED_ROUTE_STOPS
    &&& forall|c: int, n: int| 0 <= c <= stop_count(t) && 0 <= n < stop_count(t) ==> #[trigger] leg(t, c, n) >= 0
}

/// `p` visits each stop of `mask` exactly once and nothing else.
pub open spec fn visits(p: Seq<int>, mask: usize, k: int) -> bool {
    &&& p.no_duplicates()
    &&& forall|i: int| 0 <= i < p.len() ==> 0 <= #[trigger] p[i] < k && has_bit(mask, p[i])
    &&& forall|n: int| 0 <= n < k && #[trigger] has_bit(mask, n) ==> p.contains(n)
}

/// `p` lists each of the stops `0..k` exactly once.
pub open spec fn is_stop_order(p: Seq<int>, k: int) -> bool {
    &&& p.len() == k
    &&& p.no_duplicates()
    &&& forall|i: int| 0 <= i < p.len() ==> 0 <= #[trigger] p[i] < k
}

/// The jumps of the route that starts at `cur` and takes the stops of `p`
/// in turn.
pub open spec fn route_cost(t: JumpTable, cur: int, p: Seq<int>) -> int
    decreases p.len(),
{
    if p.len() == 0 {
        0
    } else {
        leg(t, cur, p[0]) + route_cost(t, p[0], p.drop_first())
    }
}

/// `q` comes no later than `p` when both are read stop by stop.
pub open spec fn lex_le(q: Seq<int>, p: Seq<int>) -> bool {
    forall|j: int|
        0 <= j < q.len() && j < p.len() && (forall|i: int| 0 <= i < j ==> q[i] == p[i]) ==> #[trigger] q[j] <= p[j]
}

proof fn lemma_clear_bit_int(mask: usize, n: int)
    requires
        0 <= n < 32,
        has_bit(mask, n),
    ensures
        clear_bit(mask, n) < mask,
        forall|j: int| #[trigger] has_bit(clear_bit(mask, n), j) <==> (has_bit(mask, j) && j != n),
{
    lemma_clear_bit(mask, n as usize);
    assert forall|j: int| #[trigger] has_bit(clear_bit(mask, n), j) <==> (has_bit(mask, j) && j != n) by {
        if 0 <= j < 32 {
            let ju = j as usize;
            assert(((mask & !(1usize << (n as usize))) & (1usize << ju)) != 0 <==> (mask & (1usize << ju) != 0
                && ju != n as usize));
        }
    }
}

proof fn lemma_no_bits_in_zero(n: int)
    ensures
        !has_bit(0usize, n),
{
    if 0 <= n < 32 {
        let nu = n as usize;
        assert(0usize & (1usize << nu) == 0) by (bit_vector);
    }
}

proof fn lemma_some_bit(mask: usize, k: usize)
    requires
        k <= 18,
        mask != 0,
        mask < (1usize << k),
    ensures
        exists|n: int| 0 <= n < k && #[trigger] has_bit(mask, n),
    decreases k,
{
    if k == 0 {
        assert(mask == 0) by (bit_vector)
            requires
                mask < (1usize << 0usize),
        ;
    } else {
        let b = (k - 1) as usize;
        if mask & (1usize << b) != 0 {
            assert(has_bit(mask, b as int));
        } else {
            assert(mask < (1usize << b)) by (bit_vector)
                requires
                    mask < (1usize << k),
                    mask & (1usize << b) == 0,
                    b + 1 == k,
                    k <= 18,
            ;
            lemma_some_bit(mask, b);
        }
    }
}

proof fn lemma_full_mask(k: usize)
    requires
        k <= 18,
    ensures
        full_mask(k as int) < (1usize << k),
        forall|n: int| 0 <= n < k ==> #[trigger] has_bit(full_mask(k as int), n),
{
    assert((((1usize << k) - 1) as usize) < (1usize << k)) by (bit_vector)
        requires
            k <= 18,
    ;
    assert forall|n: int| 0 <= n < k implies #[trigger] has_bit(full_mask(k as int), n) by {
        let nu = n as usize;
        assert((((1usize << k) - 1) as usize) & (1usize << nu) != 0) by (bit_vector)
            requires
                nu < k,
                k <= 18,
        ;
    }
}

/// What one pass of `scan` guarantees: its answer is at most `best`, and
/// at most the cost through every stop it tries.
proof fn lemma_scan_bound(t: JumpTable, cur: int, mask: usize, next: int, best: u16)
    requires
        table_ok(t),
        0 <= cur <= stop_count(t),
        0 <= next,
    ensures
        scan(t, cur, mask, next, best) matches Some(v) ==> {
            &&& v <= best
            &&& forall|n: int|
                next <= n < stop_count(t) && #[trigger] has_bit(mask, n) ==> (suffix(t, n, clear_bit(mask, n)) matches Some(
                    sn,
                ) && (sn != OPTIMIZER_UNREACHABLE ==> leg(t, cur, n) + sn < 65534 && v <= leg(t, cur, n) + sn))
        },
    decreases stop_count(t) - next,
{
    if next < stop_count(t) {
        lemma_scan_bound(t, cur, mask, next + 1, best);
        if has_bit(mask, next) {
            if let Some(s) = suffix(t, next, clear_bit(mask, next)) {
                if s != OPTIMIZER_UNREACHABLE && leg(t, cur, next) + s < 65534 {
                    let c = (leg(t, cur, next) + s) as u16;
                    lemma_scan_bound(t, cur, mask, next + 1, if c < best { c } else { best });
                }
            }
        }
    }
}

/// A best cost through at least one stop is one the optimiser can hold.
proof fn lemma_suffix_below_capacity(t: JumpTable, cur: int, mask: usize)
    requires
        table_ok(t),
        0 <= cur <= stop_count(t),
        mask != 0,
        mask < (1usize << (stop_count(t) as usize)),
    ensures
        suffix(t, cur, mask) matches Some(v) ==> v < 65534,
    decreases mask,
{
    let k = stop_count(t) as usize;
    lemma_some_bit(mask, k);
    let n = choose|n: int| 0 <= n < k && #[trigger] has_bit(mask, n);
    lemma_scan_bound(t, cur, mask, 0, OPTIMIZER_UNREACHABLE);
    lemma_clear_bit_int(mask, n);
    let rest = clear_bit(mask, n);
    if rest != 0 {
        assert(rest < (1usize << k)) by (bit_vector)
            requires
                rest < mask,
                mask < (1usize << k),
        ;
        lemma_suffix_below_capacity(t, n, rest);
    }
}

/// No route through the stops of `mask` from `cur` costs less than the
/// best cost the optimiser works out.
proof fn lemma_suffix_lower_bound(t: JumpTable, cur: int, mask: usize, p: Seq<int>)
    requires
        table_ok(t),
        0 <= cur <= stop_count(t),
        mask < (1usize << (stop_count(t) as usize)),
        visits(p, mask, stop_count(t)),
        suffix(t, cur, mask) is Some,
    ensures
        suffix(t, cur, mask) matches Some(v) && v <= route_cost(t, cur, p),
    decreases p.len(),
{
    let k = stop_count(t) as usize;
    if p.len() == 0 {
        if mask != 0 {
            lemma_some_bit(mask, k);
            let n = choose|n: int| 0 <= n < k && #[trigger] has_bit(mask, n);
            assert(p.contains(n));
        }
    } else {
        let n = p[0];
        assert(has_bit(mask, n));
        lemma_scan_bound(t, cur, mask, 0, OPTIMIZER_UNREACHABLE);
        lemma_clear_bit_int(mask, n);
        let rest_mask = clear_bit(mask, n);
        let rest = p.drop_first();
        assert(rest_mask < (1usize << k)) by (bit_vector)
            requires
                rest_mask < mask,
                mask < (1usize << k),
        ;
        assert forall|i: int| 0 <= i < rest.len() implies 0 <= #[trigger] rest[i] < k && has_bit(rest_mask, rest[i]) by {
            assert(rest[i] == p[i + 1]);
        }
        assert forall|m: int| 0 <= m < k && #[trigger] has_bit(rest_mask, m) implies rest.contains(m) by {
            assert(p.contains(m));
            let i = choose|i: int| 0 <= i < p.len() && p[i] == m;
            assert(i != 0);
            assert(rest[i - 1] == m);
        }
        assert(visits(rest, rest_mask, k as int));
        lemma_suffix_lower_bound(t, n, rest_mask, rest);
        if rest_mask != 0 {
            lemma_suffix_below_capacity(t, n, rest_mask);
        }
    }
}

/// Where `pick` stops: at a stop of `mask` that continues a route of cost
/// `target`, after every earlier stop failed to.
proof fn lemma_pick(t: JumpTable, cur: int, mask: usize, next: int, target: u16)
    requires
        table_ok(t),
        0 <= cur <= stop_count(t),
        0 <= next,
    ensures
        pick(t, cur, mask, next, target) matches Ok(Some(n)) ==> {
            &&& next <= n < stop_count(t)
            &&& has_bit(mask, n)
            &&& suffix(t, n, clear_bit(mask, n)) matches Some(sn) && sn != OPTIMIZER_UNREACHABLE && leg(t, cur, n)
                + sn == target
            &&& forall|m: int|
                next <= m < n && #[trigger] has_bit(mask, m) ==> !(suffix(t, m, clear_bit(mask, m)) matches Some(sm)
                    && sm != OPTIMIZER_UNREACHABLE && leg(t, cur, m) + sm == target)
        },
    decreases stop_count(t) - next,
{
    if next < stop_count(t) {
        lemma_pick(t, cur, mask, next + 1, target);
    }
}

/// `rebuild` appends a route through the stops of `mask` whose cost is
/// the best one.
proof fn lemma_rebuild_route(t: JumpTable, cur: int, mask: usize, acc: Seq<int>)
    requires
        table_ok(t),
        0 <= cur <= stop_count(t),
        mask < (1usize << (stop_count(t) as usize)),
    ensures
        rebuild(t, cur, mask, acc) matches Ok(o) ==> {
            &&& o.len() >= acc.len()
            &&& o.take(acc.len() as int) == acc
            &&& visits(o.skip(acc.len() as int), mask, stop_count(t))
            &&& suffix(t, cur, mask) matches Some(v) && v == route_cost(t, cur, o.skip(acc.len() as int))
        },
    decreases mask,
{
    let k = stop_count(t) as usize;
    if mask == 0 {
        if let Ok(o) = rebuild(t, cur, mask, acc) {
            assert(o.take(acc.len() as int) =~= acc);
            assert(o.skip(acc.len() as int) =~= Seq::<int>::empty());
            assert forall|n: int| 0 <= n < k && #[trigger] has_bit(mask, n) implies o.skip(acc.len() as int).contains(n) by {
                lemma_no_bits_in_zero(n);
            }
        }
    } else if let Some(target) = suffix(t, cur, mask) {
        lemma_pick(t, cur, mask, 0, target);
        if let Ok(Some(n)) = pick(t, cur, mask, 0, target) {
            lemma_clear_bit_int(mask, n);
            let rest_mask = clear_bit(mask, n);
            assert(rest_mask < (1usize << k)) by (bit_vector)
                requires
                    rest_mask < mask,
                    mask < (1usize << k),
            ;
            let acc2 = acc.push(n);
            lemma_rebuild_route(t, n, rest_mask, acc2);
            if let Ok(o) = rebuild(t, n, rest_mask, acc2) {
                let q = o.skip(acc.len() as int);
                let q2 = o.skip(acc2.len() as int);
                assert(o.take(acc.len() as int) =~= acc) by {
                    assert(o.take(acc2.len() as int).take(acc.len() as int) =~= o.take(acc.len() as int));
                }
                assert(o[acc.len() as int] == n) by {
                    assert(o.take(acc2.len() as int)[acc.len() as int] == n);
                }
                assert(q.drop_first() =~= q2);
                assert(q[0] == n);
                assert forall|i: int| 0 <= i < q.len() implies 0 <= #[trigger] q[i] < k && has_bit(mask, q[i]) by {
                    if i > 0 {
                        assert(q[i] == q2[i - 1]);
                    }
                }
                assert forall|m: int| 0 <= m < k && #[trigger] has_bit(mask, m) implies q.contains(m) by {
                    if m == n {
                        assert(q[0] == m);
                    } else {
                        assert(has_bit(rest_mask, m));
                        assert(q2.contains(m));
                        let i = choose|i: int| 0 <= i < q2.len() && q2[i] == m;
                        assert(q[i + 1] == m);
                    }
                }
                assert(q.no_duplicates()) by {
                    assert forall|i: int, j: int| 0 <= i < q.len() && 0 <= j < q.len() && i != j implies q[i] != q[j] by {
                        if i > 0 && j > 0 {
                            assert(q[i] == q2[i - 1] && q[j] == q2[j - 1]);
                        } else if i == 0 {
                            assert(q[j] == q2[j - 1]);
                            assert(has_bit(rest_mask, q2[j - 1]));
                        } else {
                            assert(q[i] == q2[i - 1]);
                            assert(has_bit(rest_mask, q2[i - 1]));
                        }
                    }
                }
            }
        }
    }
}

/// Among the best routes through `mask`, `rebuild` takes the one that
/// reads earliest stop by stop.
proof fn lemma_rebuild_earliest(t: JumpTable, cur: int, mask: usize, acc: Seq<int>, p: Seq<int>)
    requires
        table_ok(t),
        0 <= cur <= stop_count(t),
        mask < (1usize << (stop_count(t) as usize)),
        visits(p, mask, stop_count(t)),
        suffix(t, cur, mask) matches Some(v) && v == route_cost(t, cur, p),
    ensures
        rebuild(t, cur, mask, acc) matches Ok(o) ==> lex_le(o.skip(acc.len() as int), p),
    decreases mask,
{
    let k = stop_count(t) as usize;
    lemma_rebuild_route(t, cur, mask, acc);
    if mask != 0 {
        let target = suffix(t, cur, mask)->0;
        lemma_pick(t, cur, mask, 0, target);
        if let Ok(Some(n)) = pick(t, cur, mask, 0, target) {
            if let Ok(o) = rebuild(t, cur, mask, acc) {
                let q = o.skip(acc.len() as int);
                let acc2 = acc.push(n);
                lemma_clear_bit_int(mask, n);
                let rest_mask = clear_bit(mask, n);
                assert(rest_mask < (1usize << k)) by (bit_vector)
                    requires
                        rest_mask < mask,
                        mask < (1usize << k),
                ;
                lemma_rebuild_route(t, n, rest_mask, acc2);
                let q2 = o.skip(acc2.len() as int);
                assert(q.drop_first() =~= q2);
                assert(o.take(acc2.len() as int)[acc.len() as int] == n);
                assert(q[0] == n);
                // the first stop of p
                if p.len() == 0 {
                    lemma_some_bit(mask, k);
                    let w = choose|w: int| 0 <= w < k && #[trigger] has_bit(mask, w);
                    assert(p.contains(w));
                }
                let m = p[0];
                assert(has_bit(mask, m));
                lemma_scan_bound(t, cur, mask, 0, OPTIMIZER_UNREACHABLE);
                lemma_clear_bit_int(mask, m);
                let pm = clear_bit(mask, m);
                let prest = p.drop_first();
                assert(pm < (1usize << k)) by (bit_vector)
                    requires
                        pm < mask,
                        mask < (1usize << k),
                ;
                assert forall|i: int| 0 <= i < prest.len() implies 0 <= #[trigger] prest[i] < k && has_bit(pm, prest[i]) by {
                    assert(prest[i] == p[i + 1]);
                }
                assert forall|x: int| 0 <= x < k && #[trigger] has_bit(pm, x) implies prest.contains(x) by {
                    assert(p.contains(x));
                    let i = choose|i: int| 0 <= i < p.len() && p[i] == x;
                    assert(i != 0);
                    assert(prest[i - 1] == x);
                }
                assert(visits(prest, pm, k as int));
                lemma_suffix_lower_bound(t, m, pm, prest);
                if pm != 0 {
                    lemma_suffix_below_capacity(t, m, pm);
                }
                let sm = suffix(t, m, pm)->0;
                assert(leg(t, cur, m) + sm == target);
                assert(route_cost(t, m, prest) == sm);
                if m == n {
                    lemma_rebuild_earliest(t, n, rest_mask, acc2, prest);
                    assert forall|j: int|
                        0 <= j < q.len() && j < p.len() && (forall|i: int| 0 <= i < j ==> q[i] == p[i]) implies #[trigger] q[j] <= p[j] by {
                        if j > 0 {
                            assert forall|i: int| 0 <= i < j - 1 implies q2[i] == prest[i] by {
                                assert(q[i + 1] == p[i + 1]);
                            }
                            assert(q2[j - 1] <= prest[j - 1]);
                            assert(q[j] == q2[j - 1]);
                        }
                    }
                } else {
                    assert(n < m);
                }
            }
        }
    }
}

/// The order the optimiser finds visits every stop exactly once, and the
/// best total it reports is the jump count of that order.
pub proof fn law_optimized_order_visits_each_stop_once(t: JumpTable, best: u16, order: Seq<int>)
    requires
        table_ok(t),
        optimize_spec(t) == Ok::<(u16, Seq<int>), OptimizeError>((best, order)),
    ensures
        is_stop_order(order, stop_count(t)),
        route_cost(t, stop_count(t), order) == best,
{
    let k = stop_count(t) as usize;
    lemma_full_mask(k);
    lemma_rebuild_route(t, k as int, full_mask(k as int), Seq::empty());
    let o = rebuild(t, k as int, full_mask(k as int), Seq::empty())->Ok_0;
    assert(o.skip(0) =~= o);
    assert(o =~= order);
    // every stop is visited, so the order has exactly `k` entries
    assert(order.to_set() =~= Set::new(|n: int| 0 <= n < k)) by {
        assert forall|n: int| order.to_set().contains(n) <==> 0 <= n < k by {
            if 0 <= n < k {
                assert(has_bit(full_mask(k as int), n));
            }
            if order.to_set().contains(n) {
                let i = choose|i: int| 0 <= i < order.len() && order[i] == n;
                assert(0 <= order[i] < k);
            }
        }
    }
    order.unique_seq_to_set();
    vstd::set_lib::lemma_int_range(0, k as int);
    assert(Set::new(|n: int| 0 <= n < k) =~= vstd::set_lib::set_int_range(0, k as int));
}

/// No order of the stops has fewer jumps than the one the optimiser
/// finds.
pub proof fn law_optimized_order_is_shortest(t: JumpTable, best: u16, order: Seq<int>, p: Seq<int>)
    requires
        table_ok(t),
        optimize_spec(t) == Ok::<(u16, Seq<int>), OptimizeError>((best, order)),
        is_stop_order(p, stop_count(t)),
    ensures
        best <= route_cost(t, stop_count(t), p),
{
    let k = stop_count(t) as usize;
    lemma_full_mask(k);
    lemma_stop_order_visits(p, k);
    lemma_suffix_lower_bound(t, k as int, full_mask(k as int), p);
}

proof fn lemma_stop_order_visits(p: Seq<int>, k: usize)
    requires
        k <= MAX_OPTIMIZED_ROUTE_STOPS,
        is_stop_order(p, k as int),
    ensures
        visits(p, full_mask(k as int), k as int),
{
    lemma_full_mask(k);
    assert forall|n: int| 0 <= n < k && #[trigger] has_bit(full_mask(k as int), n) implies p.contains(n) by {
        let s = Set::new(|x: int| 0 <= x < k);
        p.unique_seq_to_set();
        vstd::set_lib::lemma_int_range(0, k as int);
        assert(s =~= vstd::set_lib::set_int_range(0, k as int));
        assert(p.to_set().subset_of(s));
        assert(p.to_set().len() == s.len());
        vstd::set_lib::lemma_subset_equality(p.to_set(), s);
        assert(s.contains(n));
    }
}

/// Among the orders with the fewest jumps, the optimiser's reads earliest
/// stop by stop: at each step it takes the earliest-listed stop that
/// keeps the route shortest.
pub proof fn law_optimized_order_prefers_earliest_stops(t: JumpTable, best: u16, order: Seq<int>, p: Seq<int>)
    requires
        table_ok(t),
        optimize_spec(t) == Ok::<(u16, Seq<int>), OptimizeError>((best, order)),
        is_stop_order(p, stop_count(t)),
        route_cost(t, stop_count(t), p) == best,
    ensures
        lex_le(order, p),
{
    let k = stop_count(t) as usize;
    lemma_full_mask(k);
    lemma_stop_order_visits(p, k);
    lemma_rebuild_earliest(t, k as int, full_mask(k as int), Seq::empty(), p);
    let o = rebuild(t, k as int, full_mask(k as int), Seq::empty())->Ok_0;
    assert(o.skip(0) =~= o);
}


/// The jump table of a route on the map is one the optimiser can work on.
pub proof fn lemma_route_table_ok(g: RouteGraph, origin: i64, stops: Seq<RouteDestination>)
    requires
        stops.len() <= MAX_OPTIMIZED_ROUTE_STOPS,
    ensures
        table_ok(route_table(g, origin, stops)),
{
}


/// The jump count of visiting `stops` in the order `p` from `origin` on
/// the map `g`.
pub open spec fn stops_cost(g: RouteGraph, origin: i64, stops: Seq<RouteDestination>, p: Seq<int>) -> int {
    route_cost(route_table(g, origin, stops), stops.len() as int, p)
}

/// A route that `optimize_open_route` returns visits every selected stop
/// exactly once, in an order whose jump count is the total it reports,
/// and no order of the stops takes fewer jumps.
pub proof fn law_optimized_route_is_shortest(
    g: RouteGraph,
    origin: i64,
    stops: Seq<RouteDestination>,
    route: OptimizedRoute,
    p: Seq<int>,
)
    requires
        optimize_result_ok(g, origin, stops, Ok(route)),
        is_stop_order(p, stops.len() as int),
    ensures
        exists|order: Seq<int>|
            #![trigger is_stop_order(order, stops.len() as int)]
            is_stop_order(order, stops.len() as int) && route.destinations@.len() == order.len() && (forall|i: int|
                0 <= i < order.len() ==> same_destination(#[trigger] route.destinations@[i], stops[order[i]]))
                && route.total_jumps == stops_cost(g, origin, stops, order),
        route.total_jumps <= stops_cost(g, origin, stops, p),
{
    let t = route_table(g, origin, stops);
    lemma_route_table_ok(g, origin, stops);
    match optimize_spec(t) {
        Ok((best, order)) => {
            law_optimized_order_visits_each_stop_once(t, best, order);
            law_optimized_order_is_shortest(t, best, order, p);
            assert(is_stop_order(order, stops.len() as int));
        },
        Err(e) => {},
    }
}

/// Among the orders of the stops with the fewest jumps, the route that
/// `optimize_open_route` returns takes, stop by stop, the earliest-listed
/// stop: equal routes keep the order the stops were given in.
pub proof fn law_optimized_route_keeps_listed_order_on_ties(
    g: RouteGraph,
    origin: i64,
    stops: Seq<RouteDestination>,
    route: OptimizedRoute,
    p: Seq<int>,
)
    requires
        optimize_result_ok(g, origin, stops, Ok(route)),
        is_stop_order(p, stops.len() as int),
        stops_cost(g, origin, stops, p) == route.total_jumps,
    ensures
        exists|order: Seq<int>|
            #![trigger lex_le(order, p)]
            lex_le(order, p) && route.destinations@.len() == order.len() && (forall|i: int|
                0 <= i < order.len() ==> same_destination(#[trigger] route.destinations@[i], stops[order[i]])),
{
    let t = route_table(g, origin, stops);
    lemma_route_table_ok(g, origin, stops);
    match optimize_spec(t) {
        Ok((best, order)) => {
            law_optimized_order_prefers_earliest_stops(t, best, order, p);
            assert(lex_le(order, p));
        },
        Err(e) => {},
    }
}

/// Every order of the stops takes fewer jumps than the optimiser can
/// count.
pub open spec fn orders_fit(t: JumpTable) -> bool {
    forall|p: Seq<int>| is_stop_order(p, stop_count(t)) ==> #[trigger] route_cost(t, stop_count(t), p) < 65534
}

/// The stops of `mask` from `i` up to `k`, in increasing order.
spec fn bits_from(mask: usize, i: int, k: int) -> Seq<int>
    decreases k - i,
{
    if i >= k {
        Seq::empty()
    } else if has_bit(mask, i) {
        seq![i] + bits_from(mask, i + 1, k)
    } else {
        bits_from(mask, i + 1, k)
    }
}

proof fn lemma_bits_from(mask: usize, i: int, k: int)
    requires
        0 <= i,
    ensures
        bits_from(mask, i, k).no_duplicates(),
        forall|j: int|
            0 <= j < bits_from(mask, i, k).len() ==> i <= #[trigger] bits_from(mask, i, k)[j] < k && has_bit(
                mask,
                bits_from(mask, i, k)[j],
            ),
        forall|n: int| i <= n < k && #[trigger] has_bit(mask, n) ==> bits_from(mask, i, k).contains(n),
    decreases k - i,
{
    if i < k {
        lemma_bits_from(mask, i + 1, k);
        let rest = bits_from(mask, i + 1, k);
        if has_bit(mask, i) {
            let b = seq![i] + rest;
            assert forall|j: int| 0 <= j < b.len() implies i <= #[trigger] b[j] < k && has_bit(mask, b[j]) by {
                if j > 0 {
                    assert(b[j] == rest[j - 1]);
                }
            }
            assert(b.no_duplicates()) by {
                assert forall|x: int, y: int| 0 <= x < b.len() && 0 <= y < b.len() && x != y implies b[x] != b[y] by {
                    if x > 0 {
                        assert(b[x] == rest[x - 1]);
                    }
                    if y > 0 {
                        assert(b[y] == rest[y - 1]);
                    }
                }
            }
            assert forall|n: int| i <= n < k && #[trigger] has_bit(mask, n) implies b.contains(n) by {
                if n == i {
                    assert(b[0] == n);
                } else {
                    assert(rest.contains(n));
                    let j = choose|j: int| 0 <= j < rest.len() && rest[j] == n;
                    assert(b[j + 1] == n);
                }
            }
        }
    }
}

proof fn lemma_route_cost_concat(t: JumpTable, c: int, a: Seq<int>, b: Seq<int>)
    ensures
        route_cost(t, c, a + b) == route_cost(t, c, a) + route_cost(t, if a.len() == 0 { c } else { a.last() }, b),
    decreases a.len(),
{
    if a.len() == 0 {
        assert(a + b =~= b);
    } else {
        assert((a + b)[0] == a[0]);
        assert((a + b).drop_first() =~= a.drop_first() + b);
        lemma_route_cost_concat(t, a[0], a.drop_first(), b);
        if a.len() > 1 {
            assert(a.drop_first().last() == a.last());
        }
    }
}

proof fn lemma_route_cost_nonneg(t: JumpTable, c: int, a: Seq<int>)
    requires
        table_ok(t),
        0 <= c <= stop_count(t),
        forall|i: int| 0 <= i < a.len() ==> 0 <= #[trigger] a[i] < stop_count(t),
    ensures
        route_cost(t, c, a) >= 0,
    decreases a.len(),
{
    if a.len() > 0 {
        assert forall|i: int| 0 <= i < a.drop_first().len() implies 0 <= #[trigger] a.drop_first()[i] < stop_count(t) by {
            assert(a.drop_first()[i] == a[i + 1]);
        }
        lemma_route_cost_nonneg(t, a[0], a.drop_first());
        assert(leg(t, c, a[0]) >= 0);
    }
}

/// An order that visits every stop lists each stop exactly once.
proof fn lemma_full_visit_is_order(p: Seq<int>, k: usize)
    requires
        k <= MAX_OPTIMIZED_ROUTE_STOPS,
        visits(p, full_mask(k as int), k as int),
    ensures
        is_stop_order(p, k as int),
{
    lemma_full_mask(k);
    assert(p.to_set() =~= Set::new(|n: int| 0 <= n < k)) by {
        assert forall|n: int| p.to_set().contains(n) <==> 0 <= n < k by {
            if 0 <= n < k {
                assert(has_bit(full_mask(k as int), n));
            }
            if p.to_set().contains(n) {
                let i = choose|i: int| 0 <= i < p.len() && p[i] == n;
                assert(0 <= p[i] < k);
            }
        }
    }
    p.unique_seq_to_set();
    vstd::set_lib::lemma_int_range(0, k as int);
    assert(Set::new(|n: int| 0 <= n < k) =~= vstd::set_lib::set_int_range(0, k as int));
}

/// The optimiser stands at `cur` with the stops of `mask` still to visit,
/// having come from the origin through the stops of `pre`, in that order.
spec fn midway(t: JumpTable, cur: int, mask: usize, pre: Seq<int>) -> bool {
    let k = stop_count(t);
    &&& table_ok(t)
    &&& orders_fit(t)
    &&& mask < (1usize << (k as usize))
    &&& pre.no_duplicates()
    &&& forall|i: int| 0 <= i < pre.len() ==> 0 <= #[trigger] pre[i] < k
    &&& forall|n: int| 0 <= n < k ==> (#[trigger] has_bit(mask, n) <==> !pre.contains(n))
    &&& cur == if pre.len() == 0 { k } else { pre.last() }
}

/// Going on to the stop `n` of `mask`.
proof fn lemma_midway_step(t: JumpTable, cur: int, mask: usize, pre: Seq<int>, n: int)
    requires
        midway(t, cur, mask, pre),
        0 <= n < stop_count(t),
        has_bit(mask, n),
    ensures
        clear_bit(mask, n) < mask,
        midway(t, n, clear_bit(mask, n), pre.push(n)),
{
    let k = stop_count(t) as usize;
    lemma_clear_bit_int(mask, n);
    let rest = clear_bit(mask, n);
    assert(rest < (1usize << k)) by (bit_vector)
        requires
            rest < mask,
            mask < (1usize << k),
    ;
    let pre2 = pre.push(n);
    assert(!pre.contains(n));
    assert(pre2.no_duplicates()) by {
        assert forall|x: int, y: int| 0 <= x < pre2.len() && 0 <= y < pre2.len() && x != y implies pre2[x] != pre2[y] by {
            if x < pre.len() && y < pre.len() {
                assert(pre2[x] == pre[x] && pre2[y] == pre[y]);
            } else if x < pre.len() {
                assert(pre2[x] == pre[x]);
                assert(pre.contains(pre[x]));
            } else if y < pre.len() {
                assert(pre2[y] == pre[y]);
                assert(pre.contains(pre[y]));
            }
        }
    }
    assert forall|i: int| 0 <= i < pre2.len() implies 0 <= #[trigger] pre2[i] < k by {
        if i < pre.len() {
            assert(pre2[i] == pre[i]);
        }
    }
    assert forall|m: int| 0 <= m < k implies (#[trigger] has_bit(rest, m) <==> !pre2.contains(m)) by {
        if pre.contains(m) {
            let i = choose|i: int| 0 <= i < pre.len() && pre[i] == m;
            assert(pre2[i] == m);
        }
        if pre2.contains(m) && m != n {
            let i = choose|i: int| 0 <= i < pre2.len() && pre2[i] == m;
            assert(i < pre.len());
            assert(pre[i] == m);
        }
        if m == n {
            assert(pre2[pre.len() as int] == n);
        }
    }
}

/// The cost through stop `n` from where the optimiser stands, when `n`
/// continues a route of cost `v`.
spec fn continues(t: JumpTable, cur: int, mask: usize, n: int, v: int) -> bool {
    &&& has_bit(mask, n)
    &&& suffix(t, n, clear_bit(mask, n)) matches Some(s) && s != OPTIMIZER_UNREACHABLE && leg(t, cur, n) + s == v
}

/// Every stop the optimiser can go on to has a best route after it, and
/// going there stays below the optimiser's capacity.
proof fn lemma_midway_candidate(t: JumpTable, cur: int, mask: usize, pre: Seq<int>, n: int)
    requires
        midway(t, cur, mask, pre),
        0 <= n < stop_count(t),
        has_bit(mask, n),
    ensures
        suffix(t, n, clear_bit(mask, n)) matches Some(s) && s != OPTIMIZER_UNREACHABLE && leg(t, cur, n) + s < 65534,
    decreases mask, 0int,
{
    let k = stop_count(t) as usize;
    lemma_midway_step(t, cur, mask, pre, n);
    let rest = clear_bit(mask, n);
    let pre2 = pre.push(n);
    lemma_midway_suffix(t, n, rest, pre2);
    let q = bits_from(rest, 0, k as int);
    lemma_bits_from(rest, 0, k as int);
    assert(visits(q, rest, k as int));
    lemma_suffix_lower_bound(t, n, rest, q);
    let p = pre2 + q;
    lemma_full_mask(k);
    assert(visits(p, full_mask(k as int), k as int)) by {
        assert forall|i: int| 0 <= i < p.len() implies 0 <= #[trigger] p[i] < k && has_bit(full_mask(k as int), p[i]) by {
            if i < pre2.len() {
                assert(p[i] == pre2[i]);
            } else {
                assert(p[i] == q[i - pre2.len()]);
            }
        }
        assert forall|m: int| 0 <= m < k && #[trigger] has_bit(full_mask(k as int), m) implies p.contains(m) by {
            if has_bit(rest, m) {
                let j = choose|j: int| 0 <= j < q.len() && q[j] == m;
                assert(p[pre2.len() + j] == m);
            } else {
                assert(pre2.contains(m));
                let j = choose|j: int| 0 <= j < pre2.len() && pre2[j] == m;
                assert(p[j] == m);
            }
        }
        assert(p.no_duplicates()) by {
            assert forall|x: int, y: int| 0 <= x < p.len() && 0 <= y < p.len() && x != y implies p[x] != p[y] by {
                if x < pre2.len() && y < pre2.len() {
                    assert(p[x] == pre2[x] && p[y] == pre2[y]);
                } else if x >= pre2.len() && y >= pre2.len() {
                    assert(p[x] == q[x - pre2.len()] && p[y] == q[y - pre2.len()]);
                } else if x < pre2.len() {
                    assert(p[x] == pre2[x] && p[y] == q[y - pre2.len()]);
                    assert(has_bit(rest, q[y - pre2.len()]));
                    assert(pre2.contains(pre2[x]));
                } else {
                    assert(p[y] == pre2[y] && p[x] == q[x - pre2.len()]);
                    assert(has_bit(rest, q[x - pre2.len()]));
                    assert(pre2.contains(pre2[y]));
                }
            }
        }
    }
    lemma_full_visit_is_order(p, k);
    lemma_route_cost_concat(t, k as int, pre2, q);
    lemma_route_cost_concat(t, k as int, pre, seq![n]);
    assert(pre + seq![n] =~= pre2);
    assert(seq![n].drop_first() =~= Seq::<int>::empty());
    lemma_route_cost_nonneg(t, k as int, pre);
    assert(route_cost(t, n, seq![n].drop_first()) == 0);
    assert(route_cost(t, cur, seq![n]) == leg(t, cur, n));
    assert(pre2.last() == n);
    assert(route_cost(t, k as int, pre2) == route_cost(t, k as int, pre) + leg(t, cur, n));
    assert(route_cost(t, k as int, p) == route_cost(t, k as int, pre2) + route_cost(t, n, q));
    assert(route_cost(t, k as int, p) < 65534);
}

/// What `scan` finds from where the optimiser stands: a cost no worse
/// than `best`, below capacity once a stop was tried, and either `best`
/// itself or the cost through one of the stops it tried.
proof fn lemma_midway_scan(t: JumpTable, cur: int, mask: usize, next: int, best: u16, pre: Seq<int>)
    requires
        midway(t, cur, mask, pre),
        0 <= next,
    ensures
        scan(t, cur, mask, next, best) matches Some(v) && v <= best && (v == best || exists|n: int|
            next <= n < stop_count(t) && #[trigger] continues(t, cur, mask, n, v as int)) && ((exists|n: int|
            next <= n < stop_count(t) && #[trigger] has_bit(mask, n)) ==> v < 65534),
    decreases mask, stop_count(t) - next,
{
    if next < stop_count(t) {
        if !has_bit(mask, next) {
            lemma_midway_scan(t, cur, mask, next + 1, best, pre);
            let v = scan(t, cur, mask, next, best)->0;
            if v != best {
                let n = choose|n: int| next + 1 <= n < stop_count(t) && #[trigger] continues(t, cur, mask, n, v as int);
                assert(continues(t, cur, mask, n, v as int));
            }
            if exists|n: int| next <= n < stop_count(t) && #[trigger] has_bit(mask, n) {
                let n = choose|n: int| next <= n < stop_count(t) && #[trigger] has_bit(mask, n);
                assert(has_bit(mask, n) && n != next);
            }
        } else {
            lemma_midway_candidate(t, cur, mask, pre, next);
            let s = suffix(t, next, clear_bit(mask, next))->0;
            let c = (leg(t, cur, next) + s) as u16;
            let nb = if c < best { c } else { best };
            lemma_midway_scan(t, cur, mask, next + 1, nb, pre);
            let v = scan(t, cur, mask, next, best)->0;
            assert(v == scan(t, cur, mask, next + 1, nb)->0);
            if v != best {
                if v == nb {
                    assert(continues(t, cur, mask, next, v as int));
                } else {
                    let n = choose|n: int| next + 1 <= n < stop_count(t) && #[trigger] continues(t, cur, mask, n, v as int);
                    assert(continues(t, cur, mask, n, v as int));
                }
            }
        }
    }
}

/// From where the optimiser stands, the best route is found, below
/// capacity, and some stop continues it.
proof fn lemma_midway_suffix(t: JumpTable, cur: int, mask: usize, pre: Seq<int>)
    requires
        midway(t, cur, mask, pre),
    ensures
        suffix(t, cur, mask) matches Some(v) && v < 65534 && (mask != 0 ==> exists|n: int|
            0 <= n < stop_count(t) && #[trigger] continues(t, cur, mask, n, v as int)),
    decreases mask, stop_count(t) + 1,
{
    if mask != 0 {
        lemma_some_bit(mask, stop_count(t) as usize);
        lemma_midway_scan(t, cur, mask, 0, OPTIMIZER_UNREACHABLE, pre);
    }
}

/// `pick` finds a stop when one continues the route of cost `target`.
proof fn lemma_midway_pick(t: JumpTable, cur: int, mask: usize, next: int, target: u16, pre: Seq<int>)
    requires
        midway(t, cur, mask, pre),
        0 <= next,
        exists|n: int| next <= n < stop_count(t) && #[trigger] continues(t, cur, mask, n, target as int),
    ensures
        pick(t, cur, mask, next, target) matches Ok(Some(_)),
    decreases stop_count(t) - next,
{
    let n = choose|n: int| next <= n < stop_count(t) && #[trigger] continues(t, cur, mask, n, target as int);
    if !has_bit(mask, next) {
        assert(n != next);
        lemma_midway_pick(t, cur, mask, next + 1, target, pre);
    } else {
        lemma_midway_candidate(t, cur, mask, pre, next);
        let s = suffix(t, next, clear_bit(mask, next))->0;
        if leg(t, cur, next) + s != target {
            assert(n != next);
            assert(continues(t, cur, mask, n, target as int));
            lemma_midway_pick(t, cur, mask, next + 1, target, pre);
        }
    }
}

/// From where the optimiser stands, rebuilding the route succeeds.
proof fn lemma_midway_rebuild(t: JumpTable, cur: int, mask: usize, acc: Seq<int>, pre: Seq<int>)
    requires
        midway(t, cur, mask, pre),
    ensures
        rebuild(t, cur, mask, acc) is Ok,
    decreases mask,
{
    if mask != 0 {
        lemma_midway_suffix(t, cur, mask, pre);
        let target = suffix(t, cur, mask)->0;
        lemma_midway_pick(t, cur, mask, 0, target, pre);
        lemma_pick_has_bit(t, cur, mask, 0, target);
        let n = pick(t, cur, mask, 0, target)->Ok_0->0;
        lemma_midway_step(t, cur, mask, pre, n);
        lemma_midway_rebuild(t, n, clear_bit(mask, n), acc.push(n), pre.push(n));
    }
}

/// The optimiser finds a route whenever there is a stop and every order
/// of the stops takes fewer jumps than it can count.
pub proof fn law_optimizer_succeeds(t: JumpTable)
    requires
        table_ok(t),
        stop_count(t) > 0,
        orders_fit(t),
    ensures
        optimize_spec(t) is Ok,
{
    let k = stop_count(t) as usize;
    lemma_full_mask(k);
    let pre = Seq::<int>::empty();
    assert(midway(t, k as int, full_mask(k as int), pre));
    lemma_midway_suffix(t, k as int, full_mask(k as int), pre);
    lemma_midway_rebuild(t, k as int, full_mask(k as int), Seq::empty(), pre);
}

/// `optimize_open_route` finds a route for a selection of stops that the
/// origin and one another can all reach, when every order of the stops
/// takes fewer jumps than the optimiser can count.
pub proof fn law_optimized_route_found(
    g: RouteGraph,
    origin: i64,
    stops: Seq<RouteDestination>,
    r: Result<OptimizedRoute, OptimizeError>,
)
    requires
        0 < stops.len() <= MAX_OPTIMIZED_ROUTE_STOPS,
        has_system(g.system_list(), origin),
        routes_exist(g, origin, stops),
        forall|p: Seq<int>| is_stop_order(p, stops.len() as int) ==> #[trigger] stops_cost(g, origin, stops, p) < 65534,
        optimize_result_ok(g, origin, stops, r),
    ensures
        r is Ok,
{
    let t = route_table(g, origin, stops);
    lemma_route_table_ok(g, origin, stops);
    assert(stop_count(t) == stops.len());
    assert forall|p: Seq<int>| is_stop_order(p, stop_count(t)) implies #[trigger] route_cost(t, stop_count(t), p) < 65534 by {
        assert(stops_cost(g, origin, stops, p) < 65534);
    }
    law_optimizer_succeeds(t);
}

pub open spec fn optimize_error_text(e: OptimizeError) -> Seq<char> {
    match e {
        OptimizeError::NoDestinations => "Select at least one imported system"@,
        OptimizeError::TooManyDestinations => "Select "@ + crate::text::decimal(MAX_OPTIMIZED_ROUTE_STOPS as nat)
            + " or fewer systems for exact optimized routing"@,
        OptimizeError::UnknownOrigin(id) => "Current solar system "@ + crate::text::signed_decimal(id as int)
            + " was not found in SDE cache"@,
        OptimizeError::NoRouteFromOrigin(n) => "No stargate route from current system to "@ + n@,
        OptimizeError::NoRoute(a, b) => "No stargate route from "@ + a@ + " to "@ + b@,
        OptimizeError::CapacityExceeded => "Route distance exceeded optimizer capacity"@,
        OptimizeError::CouldNotOptimize => "Could not optimize route"@,
        OptimizeError::CouldNotReconstruct => "Could not reconstruct optimized route"@,
    }
}

impl OptimizeError {
    /// The message the error shows.
    pub fn message(&self) -> (r: String)
        ensures
            r@ == optimize_error_text(*self),
    {
        let mut out: Vec<char> = Vec::new();
        match self {
            OptimizeError::NoDestinations => {
                crate::text::push_str(&mut out, "Select at least one imported system");
            },
            OptimizeError::TooManyDestinations => {
                crate::text::push_str(&mut out, "Select ");
                crate::text::push_decimal(&mut out, MAX_OPTIMIZED_ROUTE_STOPS as u64);
                crate::text::push_str(&mut out, " or fewer systems for exact optimized routing");
            },
            OptimizeError::UnknownOrigin(id) => {
                crate::text::push_str(&mut out, "Current solar system ");
                crate::text::push_signed_decimal(&mut out, *id);
                crate::text::push_str(&mut out, " was not found in SDE cache");
            },
            OptimizeError::NoRouteFromOrigin(n) => {
                crate::text::push_str(&mut out, "No stargate route from current system to ");
                crate::text::push_str(&mut out, n.as_str());
            },
            OptimizeError::NoRoute(a, b) => {
                crate::text::push_str(&mut out, "No stargate route from ");
                crate::text::push_str(&mut out, a.as_str());
                crate::text::push_str(&mut out, " to ");
                crate::text::push_str(&mut out, b.as_str());
            },
            OptimizeError::CapacityExceeded => {
                crate::text::push_str(&mut out, "Route distance exceeded optimizer capacity");
            },
            OptimizeError::CouldNotOptimize => {
                crate::text::push_str(&mut out, "Could not optimize route");
            },
            OptimizeError::CouldNotReconstruct => {
                crate::text::push_str(&mut out, "Could not reconstruct optimized route");
            },
        }
        crate::text::string_of(&out)
    }
}

/// What `optimize_open_route` gives for `stops` from `origin`: the errors
/// for an empty or too long selection, an unknown origin or a stop that
/// cannot be reached, otherwise the order of the stops that `optimize_spec`
/// picks, with its jump count.
pub open spec fn optimize_result_ok(
    g: RouteGraph,
    origin: i64,
    stops: Seq<RouteDestination>,
    r: Result<OptimizedRoute, OptimizeError>,
) -> bool {
    &&& stops.len() == 0 ==> r == Err::<OptimizedRoute, OptimizeError>(OptimizeError::NoDestinations)
    &&& stops.len() > MAX_OPTIMIZED_ROUTE_STOPS ==> r == Err::<OptimizedRoute, OptimizeError>(
        OptimizeError::TooManyDestinations,
    )
    &&& 0 < stops.len() <= MAX_OPTIMIZED_ROUTE_STOPS && !has_system(g.system_list(), origin) ==> r == Err::<
        OptimizedRoute,
        OptimizeError,
    >(OptimizeError::UnknownOrigin(origin))
    &&& 0 < stops.len() <= MAX_OPTIMIZED_ROUTE_STOPS && has_system(g.system_list(), origin) && !routes_exist(
        g,
        origin,
        stops,
    ) ==> (r matches Err(e) && first_missing_route(g, origin, stops, e))
    &&& 0 < stops.len() <= MAX_OPTIMIZED_ROUTE_STOPS && has_system(g.system_list(), origin) && routes_exist(
        g,
        origin,
        stops,
    ) ==> match optimize_spec(route_table(g, origin, stops)) {
        Err(e) => r == Err::<OptimizedRoute, OptimizeError>(e),
        Ok((best, order)) => r matches Ok(route) && route.total_jumps == best && route.destinations@.len()
            == order.len() && (forall|i: int|
            0 <= i < order.len() ==> same_destination(#[trigger] route.destinations@[i], stops[order[i]]))
            && (last_system_with_id(g.system_list(), origin) matches Some(s) && route_system_of(s, route.origin)),
    }
}

// ---------------------------------------------------------------------
// Reading the static data
// ---------------------------------------------------------------------

/// The route map cache is current when it was built from the latest
/// static data build.
pub fn cache_is_current(cached_build_number: Option<u64>, latest_build_number: u64) -> (r: bool)
    ensures
        r == (cached_build_number == Some(latest_build_number)),
{
    match cached_build_number {
        Some(b) => b == latest_build_number,
        None => false,
    }
}

/// The records of a JSON-lines file: each line that is not blank, with its
/// line number counted from one.
pub open spec fn jsonl_records_spec(text: Seq<char>) -> Seq<(int, Seq<char>)> {
    let ls = crate::text::lines(text);
    Seq::new(ls.len(), |i: int| (i + 1, ls[i])).filter(|r: (int, Seq<char>)| crate::text::trim(r.1).len() > 0)
}

pub fn jsonl_records(text: &str) -> (r: Vec<(usize, String)>)
    ensures
        r@.map_values(|x: (usize, String)| (x.0 as int, x.1@)) == jsonl_records_spec(text@),
{
    let ls = crate::text::lines_of(&crate::text::chars_of(text));
    let ghost lv = crate::text::views(ls@);
    let ghost all = Seq::new(lv.len(), |i: int| (i + 1, lv[i]));
    let mut out: Vec<(usize, String)> = Vec::new();
    let mut i: usize = 0;
    while i < ls.len()
        invariant
            i <= ls.len(),
            lv == crate::text::views(ls@),
            lv == crate::text::lines(text@),
            all == Seq::new(lv.len(), |i: int| (i + 1, lv[i])),
            out@.map_values(|x: (usize, String)| (x.0 as int, x.1@)) == all.take(i as int).filter(
                |r: (int, Seq<char>)| crate::text::trim(r.1).len() > 0,
            ),
        decreases ls.len() - i,
    {
        assert(all.take(i + 1) =~= all.take(i as int).push(all[i as int]));
        proof {
            all.take(i as int).lemma_filter_push(all[i as int], |r: (int, Seq<char>)| crate::text::trim(r.1).len() > 0);
        }
        let trimmed = crate::text::trim_chars(&ls[i]);
        if trimmed.len() > 0 {
            let ghost before = out@;
            out.push((i + 1, crate::text::string_of(&ls[i])));
            assert(out@.map_values(|x: (usize, String)| (x.0 as int, x.1@)) =~= before.map_values(
                |x: (usize, String)| (x.0 as int, x.1@),
            ).push(all[i as int]));
        }
        i = i + 1;
    }
    assert(all.take(ls.len() as int) =~= all);
    out
}

/// A stargate as the static data lists it: its system and, when it has
/// one, the system it leads to.
#[derive(Clone, Copy, Debug)]
pub struct RawStargate {
    pub stargate_id: i64,
    pub solar_system_id: i64,
    pub destination_system_id: Option<i64>,
}

/// The links of the stargates that lead somewhere, in order.
pub open spec fn stargate_links(raw: Seq<RawStargate>) -> Seq<(i64, i64)> {
    raw.filter(|g: RawStargate| g.destination_system_id is Some).map_values(
        |g: RawStargate| (g.solar_system_id, g.destination_system_id->Some_0),
    )
}

/// The stargate links of the static data; a stargate without a destination
/// is left out.
pub fn stargate_edges(raw: &Vec<RawStargate>) -> (r: Vec<RouteEdge>)
    ensures
        edge_pairs(r@) == stargate_links(raw@),
{
    let mut out: Vec<RouteEdge> = Vec::new();
    let mut i: usize = 0;
    while i < raw.len()
        invariant
            i <= raw.len(),
            edge_pairs(out@) == stargate_links(raw@.take(i as int)),
        decreases raw.len() - i,
    {
        let g = raw[i];
        assert(raw@.take(i + 1) =~= raw@.take(i as int).push(g));
        proof {
            raw@.take(i as int).lemma_filter_push(g, |g: RawStargate| g.destination_system_id is Some);
        }
        match g.destination_system_id {
            Some(to) => {
                let ghost before = out@;
                out.push(RouteEdge { from: g.solar_system_id, to });
                assert(edge_pairs(out@) =~= edge_pairs(before).push((g.solar_system_id, to)));
                assert(stargate_links(raw@.take(i + 1)) =~= stargate_links(raw@.take(i as int)).push(
                    (g.solar_system_id, to),
                ));
            },
            None => {
                assert(stargate_links(raw@.take(i + 1)) =~= stargate_links(raw@.take(i as int)));
            },
        }
        i = i + 1;
    }
    assert(raw@.take(raw.len() as int) =~= raw@);
    out
}

} // verus!
