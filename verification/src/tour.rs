//! Closed tours over `n` cities: orderings of the city indices `0..n`.

use rand::seq::SliceRandom;
use rand::Rng;
use vstd::prelude::*;
use vstd::seq_lib::group_to_multiset_ensures;

verus! {

/// The cities in index order: `0, 1, .., n - 1`.
pub open spec fn all_cities(n: usize) -> Seq<usize> {
    Seq::new(n as nat, |i: int| i as usize)
}

/// A tour of `n` cities is a rearrangement of the city indices `0..n`.
pub open spec fn is_tour(s: Seq<usize>, n: usize) -> bool {
    s.to_multiset() == all_cities(n).to_multiset()
}

/// `s` with the entries at positions `i` and `j` exchanged.
pub open spec fn swapped(s: Seq<usize>, i: int, j: int) -> Seq<usize> {
    s.update(i, s[j]).update(j, s[i])
}

/// `b` comes from `a` by exchanging two positions, which may coincide.
pub open spec fn is_neighbor(a: Seq<usize>, b: Seq<usize>) -> bool {
    exists|i: int, j: int| 0 <= i < a.len() && 0 <= j < a.len() && b == swapped(a, i, j)
}

/// `s` turned left by `k` places: it starts with `s[k]` and wraps around.
pub open spec fn rotated(s: Seq<usize>, k: int) -> Seq<usize> {
    s.subrange(k, s.len() as int) + s.subrange(0, k)
}

/// `k` is the first position of `s` that holds `city`.
pub open spec fn is_first_position(s: Seq<usize>, city: usize, k: int) -> bool {
    &&& 0 <= k < s.len()
    &&& s[k] == city
    &&& forall|j: int| 0 <= j < k ==> s[j] != city
}

/// The leg of the closed tour `s` that leaves position `i`: the stop there
/// and the stop after it, the last stop being followed by the first.
pub open spec fn edge_at(s: Seq<usize>, i: int) -> (usize, usize) {
    (s[i], s[(i + 1) % (s.len() as int)])
}

/// Exchanging two positions rearranges a sequence without adding or
/// dropping a value.
pub proof fn lemma_swap_keeps_values(s: Seq<usize>, i: int, j: int)
    requires
        0 <= i < s.len(),
        0 <= j < s.len(),
    ensures
        swapped(s, i, j).len() == s.len(),
        swapped(s, i, j).to_multiset() == s.to_multiset(),
{
    broadcast use group_to_multiset_ensures;
    let mid = s.update(i, s[j]);
    assert(mid.to_multiset() =~= s.to_multiset().insert(s[j]).remove(s[i]));
    assert(swapped(s, i, j).to_multiset() =~= mid.to_multiset().insert(s[i]).remove(mid[j]));
    assert(s.to_multiset().count(s[i]) > 0);
    assert(s.to_multiset().count(s[j]) > 0);
    assert(swapped(s, i, j).to_multiset() =~= s.to_multiset());
}

/// Turning a sequence rearranges it without adding or dropping a value.
pub proof fn lemma_rotation_keeps_values(s: Seq<usize>, k: int)
    requires
        0 <= k <= s.len(),
    ensures
        rotated(s, k).len() == s.len(),
        rotated(s, k).to_multiset() == s.to_multiset(),
{
    let head = s.subrange(0, k);
    let tail = s.subrange(k, s.len() as int);
    vstd::seq_lib::lemma_multiset_commutative(head, tail);
    vstd::seq_lib::lemma_multiset_commutative(tail, head);
    assert(head + tail =~= s);
    assert(rotated(s, k).to_multiset() =~= s.to_multiset());
}

/// A tour of `n` cities has `n` stops, all of them cities, visits no city
/// twice and misses none.
pub proof fn lemma_tour_visits_each_city_once(s: Seq<usize>, n: usize)
    requires
        is_tour(s, n),
    ensures
        s.len() == n,
        forall|i: int| 0 <= i < s.len() ==> s[i] < n,
        s.no_duplicates(),
        forall|city: usize| city < n ==> s.contains(city),
{
    broadcast use group_to_multiset_ensures;
    let all = all_cities(n);
    assert(s.len() == s.to_multiset().len());
    assert(all.len() == all.to_multiset().len());
    assert forall|i: int| 0 <= i < s.len() implies s[i] < n by {
        assert(s.contains(s[i]));
        assert(all.to_multiset().count(s[i]) > 0);
        assert(all.contains(s[i]));
        let k = choose|k: int| 0 <= k < all.len() && all[k] == s[i];
        assert(all[k] == k);
    }
    assert(all.no_duplicates());
    all.lemma_multiset_has_no_duplicates();
    s.lemma_multiset_has_no_duplicates_conv();
    assert forall|city: usize| city < n implies s.contains(city) by {
        assert(all[city as int] == city);
        assert(all.contains(city));
        assert(s.to_multiset().count(city) > 0);
    }
}

/// The converse: `n` stops that are all cities, none of them visited
/// twice, make a tour of `n` cities.
pub proof fn lemma_distinct_cities_make_a_tour(s: Seq<usize>, n: usize)
    requires
        s.len() == n,
        forall|i: int| 0 <= i < s.len() ==> s[i] < n,
        s.no_duplicates(),
    ensures
        is_tour(s, n),
{
    broadcast use group_to_multiset_ensures;
    broadcast use vstd::seq_lib::seq_to_set_is_finite;
    let all = all_cities(n);
    assert(all.no_duplicates());
    s.unique_seq_to_set();
    all.unique_seq_to_set();
    assert(s.to_set().subset_of(all.to_set())) by {
        assert forall|v: usize| s.to_set().contains(v) implies all.to_set().contains(v) by {
            assert(s.contains(v));
            assert(all[v as int] == v);
            assert(all.contains(v));
        }
    }
    vstd::set_lib::lemma_subset_equality(s.to_set(), all.to_set());
    s.lemma_multiset_has_no_duplicates();
    all.lemma_multiset_has_no_duplicates();
    assert forall|v: usize| s.to_multiset().count(v) == all.to_multiset().count(v) by {
        assert(s.to_set().contains(v) == all.to_set().contains(v));
        assert(s.contains(v) == all.contains(v));
    }
    assert(s.to_multiset() =~= all.to_multiset());
}

/// However many times two positions are exchanged, the stops stay the
/// same: along a walk in which each state is a neighbor of the one before,
/// the last state has the length and the values of the first, and is a
/// tour if the first is one.
pub proof fn lemma_walk_keeps_values(walk: Seq<Seq<usize>>, n: usize)
    requires
        walk.len() > 0,
        forall|k: int| 0 <= k < walk.len() - 1 ==> is_neighbor(#[trigger] walk[k], walk[k + 1]),
    ensures
        walk.last().len() == walk[0].len(),
        walk.last().to_multiset() == walk[0].to_multiset(),
        is_tour(walk[0], n) ==> is_tour(walk.last(), n),
    decreases walk.len(),
{
    if walk.len() > 1 {
        let before = walk.drop_last();
        assert forall|k: int| 0 <= k < before.len() - 1 implies is_neighbor(
            #[trigger] before[k],
            before[k + 1],
        ) by {
            assert(is_neighbor(walk[k], walk[k + 1]));
        }
        lemma_walk_keeps_values(before, n);
        let a = walk[walk.len() - 2];
        assert(is_neighbor(a, walk[walk.len() - 2 + 1]));
        let (i, j) = choose|i: int, j: int|
            0 <= i < a.len() && 0 <= j < a.len() && walk.last() == swapped(a, i, j);
        lemma_swap_keeps_values(a, i, j);
    }
}

/// Draws a position below `bound` from the thread's generator, by
/// `rand::Rng::gen_range` on `rand::thread_rng()` with the range `0..bound`.
/// Trusted, not proved: `gen_range` refuses an empty range, hence the
/// demand on `bound`, and samples within the range it is given. Which
/// position comes out is left open. `thread_rng` gives up where the
/// operating system cannot seed the thread's generator.
#[verifier::external_body]
fn random_index(bound: usize) -> (index: usize)
    requires
        bound > 0,
    ensures
        index < bound,
{
    rand::thread_rng().gen_range(0..bound)
}

/// Shuffles `tour` in place, by `rand::seq::SliceRandom::shuffle` on
/// `rand::thread_rng()`. Trusted, not proved: the shuffle works by
/// exchanging entries of the slice, so the values stay the same, each as
/// often as before. Their order is left open. `thread_rng` gives up where
/// the operating system cannot seed the thread's generator.
#[verifier::external_body]
fn shuffle(tour: &mut Vec<usize>)
    ensures
        final(tour)@.len() == old(tour)@.len(),
        final(tour)@.to_multiset() == old(tour)@.to_multiset(),
{
    tour.shuffle(&mut rand::thread_rng());
}

/// The cities in index order, as a vector.
pub fn identity_tour(n: usize) -> (tour: Vec<usize>)
    ensures
        tour@ == all_cities(n),
{
    let mut tour: Vec<usize> = Vec::new();
    let mut i: usize = 0;
    while i < n
        invariant
            i <= n,
            tour@ == all_cities(i),
        decreases n - i,
    {
        tour.push(i);
        i += 1;
        assert(tour@ =~= all_cities(i));
    }
    tour
}

/// Whether `state` is a tour of `n` cities.
pub fn is_valid_tour(state: &Vec<usize>, n: usize) -> (valid: bool)
    ensures
        valid == is_tour(state@, n),
{
    if state.len() != n {
        proof {
            if is_tour(state@, n) {
                lemma_tour_visits_each_city_once(state@, n);
            }
        }
        return false;
    }
    let mut seen: Vec<bool> = Vec::new();
    let mut c: usize = 0;
    while c < n
        invariant
            c <= n,
            seen@.len() == c,
            forall|k: int| 0 <= k < c ==> !seen@[k],
        decreases n - c,
    {
        seen.push(false);
        c += 1;
    }
    let mut i: usize = 0;
    while i < n
        invariant
            n == state@.len(),
            seen@.len() == n,
            i <= n,
            forall|k: int| 0 <= k < i ==> state@[k] < n,
            forall|k: int, l: int| 0 <= k < l < i ==> state@[k] != state@[l],
            forall|v: int| 0 <= v < n ==> (seen@[v] <==> exists|k: int| 0 <= k < i && state@[k] == v),
        decreases n - i,
    {
        let city = state[i];
        if city >= n {
            proof {
                if is_tour(state@, n) {
                    lemma_tour_visits_each_city_once(state@, n);
                }
            }
            return false;
        }
        if seen[city] {
            proof {
                let k = choose|k: int| 0 <= k < i && state@[k] == city;
                if is_tour(state@, n) {
                    lemma_tour_visits_each_city_once(state@, n);
                    assert(state@[k] != state@[i as int]);
                }
            }
            return false;
        }
        let ghost before = seen@;
        seen.set(city, true);
        proof {
            assert forall|v: int| 0 <= v < n implies (seen@[v] <==> exists|k: int|
                0 <= k < i + 1 && state@[k] == v) by {
                if v == city {
                    assert(state@[i as int] == v);
                } else if before[v] {
                    let k = choose|k: int| 0 <= k < i && state@[k] == v;
                    assert(0 <= k < i + 1 && state@[k] == v);
                } else {
                    if exists|k: int| 0 <= k < i + 1 && state@[k] == v {
                        let k = choose|k: int| 0 <= k < i + 1 && state@[k] == v;
                        assert(k < i);
                    }
                }
            }
        }
        i += 1;
    }
    proof {
        lemma_distinct_cities_make_a_tour(state@, n);
    }
    true
}

/// A copy of `state` with the entries at positions `i` and `j` exchanged.
pub fn swap_positions(state: &Vec<usize>, i: usize, j: usize) -> (next: Vec<usize>)
    requires
        i < state@.len(),
        j < state@.len(),
    ensures
        next@ == swapped(state@, i as int, j as int),
        next@.to_multiset() == state@.to_multiset(),
{
    let mut next = state.clone();
    let a = state[i];
    let b = state[j];
    next.set(i, b);
    next.set(j, a);
    proof {
        lemma_swap_keeps_values(state@, i as int, j as int);
        assert(next@ =~= swapped(state@, i as int, j as int));
    }
    next
}

/// The tours over a fixed number of cities.
#[derive(Clone, Copy, Debug)]
pub struct TourSpace {
    city_count: usize,
}

impl TourSpace {
    /// The number of cities, for use in contracts.
    pub closed spec fn cities(&self) -> usize {
        self.city_count
    }

    /// The tours over `city_count` cities.
    pub fn new(city_count: usize) -> (space: TourSpace)
        ensures
            space.cities() == city_count,
    {
        TourSpace { city_count }
    }

    /// The number of cities.
    pub fn city_count(&self) -> (n: usize)
        ensures
            n == self.cities(),
    {
        self.city_count
    }

    /// A starting tour: the cities in a random order. Whatever the order,
    /// it is a tour of all the cities.
    pub fn initial_state(&self) -> (tour: Vec<usize>)
        ensures
            is_tour(tour@, self.cities()),
            tour@.len() == self.cities(),
    {
        let mut tour = identity_tour(self.city_count);
        shuffle(&mut tour);
        tour
    }

    /// A tour next to `state`: a copy with two positions exchanged, both
    /// drawn at random and possibly the same. `state` must not be empty.
    /// Whatever the draw, the copy holds the same stops as `state`.
    pub fn neighbor(&self, state: &Vec<usize>) -> (next: Vec<usize>)
        requires
            state@.len() > 0,
        ensures
            is_neighbor(state@, next@),
            next@.len() == state@.len(),
            next@.to_multiset() == state@.to_multiset(),
            is_tour(state@, self.cities()) ==> is_tour(next@, self.cities()),
    {
        let i = random_index(state.len());
        let j = random_index(state.len());
        swap_positions(state, i, j)
    }
}

/// The legs of the closed tour `state`, in order: one for each position,
/// from the stop there to the stop after it, the last leg leading back to
/// the first stop.
pub fn edges(state: &Vec<usize>) -> (legs: Vec<(usize, usize)>)
    ensures
        legs@.len() == state@.len(),
        forall|i: int| 0 <= i < state@.len() ==> legs@[i] == edge_at(state@, i),
{
    let n = state.len();
    let mut legs: Vec<(usize, usize)> = Vec::new();
    let mut i: usize = 0;
    while i < n
        invariant
            n == state@.len(),
            i <= n,
            legs@.len() == i,
            forall|k: int| 0 <= k < i ==> legs@[k] == edge_at(state@, k),
        decreases n - i,
    {
        let after = (i + 1) % n;
        legs.push((state[i], state[after]));
        i += 1;
    }
    legs
}

/// The first position of `state` that holds `city`, if any does.
pub fn find_city(state: &Vec<usize>, city: usize) -> (found: Option<usize>)
    ensures
        match found {
            Some(k) => is_first_position(state@, city, k as int),
            None => !state@.contains(city),
        },
{
    let mut i: usize = 0;
    while i < state.len()
        invariant
            i <= state@.len(),
            forall|j: int| 0 <= j < i ==> state@[j] != city,
        decreases state@.len() - i,
    {
        if state[i] == city {
            return Some(i);
        }
        i += 1;
    }
    None
}

/// A copy of `state` turned left by `k` places.
pub fn rotate_left(state: &Vec<usize>, k: usize) -> (turned: Vec<usize>)
    requires
        k <= state@.len(),
    ensures
        turned@ == rotated(state@, k as int),
{
    let n = state.len();
    let mut turned: Vec<usize> = Vec::new();
    let mut i: usize = k;
    while i < n
        invariant
            n == state@.len(),
            k <= i <= n,
            turned@ == state@.subrange(k as int, i as int),
        decreases n - i,
    {
        turned.push(state[i]);
        i += 1;
        assert(turned@ =~= state@.subrange(k as int, i as int));
    }
    i = 0;
    while i < k
        invariant
            n == state@.len(),
            i <= k <= n,
            turned@ == state@.subrange(k as int, n as int) + state@.subrange(0, i as int),
        decreases k - i,
    {
        turned.push(state[i]);
        i += 1;
        assert(turned@ =~= state@.subrange(k as int, n as int) + state@.subrange(0, i as int));
    }
    turned
}

/// A copy of the closed tour `state` that starts at city 0: turned left
/// until the first position that holds 0 comes first, the order of the
/// stops otherwise kept. An empty tour stays empty; any other must visit
/// city 0.
pub fn rotate_to_start(state: &Vec<usize>) -> (turned: Vec<usize>)
    requires
        state@.len() == 0 || state@.contains(0),
    ensures
        state@.len() == 0 ==> turned@ == state@,
        state@.len() > 0 ==> turned@[0] == 0 && exists|k: int|
            is_first_position(state@, 0, k) && turned@ == rotated(state@, k),
        turned@.len() == state@.len(),
        turned@.to_multiset() == state@.to_multiset(),
{
    let k = match find_city(state, 0) {
        Some(k) => k,
        None => 0,
    };
    proof {
        lemma_rotation_keeps_values(state@, k as int);
    }
    rotate_left(state, k)
}

} // verus!
