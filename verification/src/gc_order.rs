//! Destination order for the copying collector's stress mode.
//!
//! In stress mode every collection moves each live object to a slot other
//! than the one it occupied, so that code holding a stale physical index is
//! caught at once.

use vstd::prelude::*;

verus! {

/// `d` sends the positions `0..n` to the slots `0..n`, one to one.
pub open spec fn is_permutation(d: Seq<usize>, n: nat) -> bool {
    &&& d.len() == n
    &&& forall|i: int| 0 <= i < n ==> #[trigger] d[i] < n
    &&& forall|i: int, j: int| 0 <= i < n && 0 <= j < n && i != j ==> #[trigger] d[i] != #[trigger] d[j]
}

/// No two entries of `s` are equal.
pub open spec fn all_distinct(s: Seq<u32>) -> bool {
    forall|i: int, j: int| 0 <= i < s.len() && 0 <= j < s.len() && i != j ==> #[trigger] s[i] != #[trigger] s[j]
}

/// No position is sent to the slot it came from.
pub open spec fn moves_every_object(d: Seq<usize>, old_indices: Seq<u32>) -> bool {
    forall|i: int| 0 <= i < d.len() ==> #[trigger] d[i] != old_indices[i] as usize
}

proof fn lemma_swap_keeps_permutation(d: Seq<usize>, n: nat, i: int, j: int)
    requires
        is_permutation(d, n),
        0 <= i < n,
        0 <= j < n,
    ensures
        is_permutation(d.update(i, d[j]).update(j, d[i]), n),
{
    let e = d.update(i, d[j]).update(j, d[i]);
    assert forall|a: int, b: int| 0 <= a < n && 0 <= b < n && a != b implies #[trigger] e[a]
        != #[trigger] e[b] by {
        let sa = if a == j { i } else if a == i { j } else { a };
        let sb = if b == j { i } else if b == i { j } else { b };
        assert(e[a] == d[sa]);
        assert(e[b] == d[sb]);
    }
    assert forall|a: int| 0 <= a < n implies #[trigger] e[a] < n by {
        let sa = if a == j { i } else if a == i { j } else { a };
        assert(e[a] == d[sa]);
    }
}

/// Some position of `d` is sent to slot `y`.
pub open spec fn has_source(d: Seq<usize>, y: int) -> bool {
    exists|x: int| 0 <= x < d.len() && #[trigger] d[x] == y
}

/// Every slot `0..n` is the destination of some position.
pub proof fn lemma_permutation_onto(d: Seq<usize>, n: nat)
    requires
        is_permutation(d, n),
    ensures
        forall|y: int| 0 <= y < n ==> #[trigger] has_source(d, y),
{
    let dom = vstd::set_lib::set_int_range(0, n as int);
    vstd::set_lib::lemma_int_range(0, n as int);
    let f = |i: int| d[i] as int;
    let img = dom.map(f);
    assert(vstd::relations::injective_on(f, dom)) by {
        assert forall|a: int, b: int| dom.contains(a) && dom.contains(b) && #[trigger] f(a) == #[trigger] f(b) implies a == b by {
            if a != b {
                assert(d[a] != d[b]);
            }
        }
    }
    vstd::set_lib::lemma_map_size(dom, img, f);
    assert(img.subset_of(dom)) by {
        assert forall|y: int| img.contains(y) implies dom.contains(y) by {
            let x = choose|x: int| dom.contains(x) && f(x) == y;
            assert(d[x] < n);
        }
    }
    vstd::set_lib::lemma_subset_equality(img, dom);
    assert forall|y: int| 0 <= y < n implies #[trigger] has_source(d, y) by {
        assert(dom.contains(y));
        assert(img.contains(y));
        let x = choose|x: int| dom.contains(x) && f(x) == y;
        assert(d[x] == y);
    }
}

/// The position after `s` in a cycle of length `m`.
pub open spec fn rotate_next(s: int, m: int) -> int {
    if s + 1 == m { 0 } else { s + 1 }
}

/// Position `q` is one of the recorded fixed points.
pub open spec fn in_fixed(fixed: Seq<usize>, q: int) -> bool {
    exists|s: int| 0 <= s < fixed.len() && #[trigger] fixed[s] == q
}

/// Where the value now at position `a` came from after the rotation.
pub open spec fn source_of(fixed: Seq<usize>, a: int) -> int {
    if in_fixed(fixed, a) {
        let s = choose|s: int| 0 <= s < fixed.len() && #[trigger] fixed[s] == a;
        fixed[rotate_next(s, fixed.len() as int)] as int
    } else {
        a
    }
}

/// The identity order `0..len`.
pub fn identity_destinations(len: usize) -> (d: Vec<usize>)
    ensures
        d@.len() == len,
        forall|i: int| 0 <= i < len ==> d@[i] == i,
        is_permutation(d@, len as nat),
{
    let mut d: Vec<usize> = Vec::new();
    let mut i: usize = 0;
    while i < len
        invariant
            0 <= i <= len,
            d@.len() == i,
            forall|k: int| 0 <= k < i ==> d@[k] == k,
        decreases len - i,
    {
        d.push(i);
        i += 1;
    }
    d
}

/// The odd constant of the golden ratio that steps the shuffle's state.
pub open spec fn golden_step() -> u64 {
    0x9e37_79b9_7f4a_7c15
}

/// The shuffle's starting state for `len` objects after `completed`
/// collections.
pub open spec fn shuffle_seed(completed: u64, len: nat) -> u64 {
    completed.wrapping_add(1).wrapping_mul(0x9e37_79b9_7f4a_7c15) ^ (len as u64).wrapping_mul(0xbf58_476d_1ce4_e5b9)
}

/// The mixing function that turns a state into a random number.
pub open spec fn mix64(state: u64) -> u64 {
    let a = (state ^ (state >> 30u64)).wrapping_mul(0xbf58_476d_1ce4_e5b9);
    let b = (a ^ (a >> 27u64)).wrapping_mul(0x94d0_49bb_1331_11eb);
    b ^ (b >> 31u64)
}

/// The order `d` after the swaps of the shuffle for the positions below
/// `index`, from the top down, starting from `state`: position `i` swaps
/// with a position drawn from `0..=i`.
pub open spec fn shuffle_steps(d: Seq<usize>, state: u64, index: nat) -> Seq<usize>
    decreases index,
{
    if index <= 1 {
        d
    } else {
        let i = index - 1;
        let st = state.wrapping_add(golden_step());
        let j = (mix64(st) % (i + 1) as u64) as int;
        shuffle_steps(d.update(i, d[j]).update(j, d[i]), st, i as nat)
    }
}

/// The positions among the first `k` of `d` that send an object back to
/// its old slot, in increasing order.
pub open spec fn fixed_positions(d: Seq<usize>, old_indices: Seq<u32>, k: nat) -> Seq<usize>
    decreases k,
{
    if k == 0 {
        Seq::empty()
    } else {
        let rest = fixed_positions(d, old_indices, (k - 1) as nat);
        if d[k - 1] == old_indices[k - 1] as usize {
            rest.push((k - 1) as usize)
        } else {
            rest
        }
    }
}

/// `d` with its fixed points repaired: a lone one swaps with the next
/// position, several rotate their destinations one step.
pub open spec fn repaired(d: Seq<usize>, fixed: Seq<usize>) -> Seq<usize> {
    let len = d.len();
    if fixed.len() == 1 && len > 1 {
        let f = fixed[0] as int;
        let g = if f + 1 == len { 0 } else { f + 1 };
        d.update(f, d[g]).update(g, d[f])
    } else if fixed.len() >= 2 {
        Seq::new(len, |a: int| d[source_of(fixed, a)])
    } else {
        d
    }
}

/// The destinations of a collection in stress mode, as a function of the
/// objects' old slots and the number of completed collections.
pub open spec fn gc_destinations(old_indices: Seq<u32>, completed: u64) -> Seq<usize> {
    let len = old_indices.len();
    let shuffled = shuffle_steps(Seq::new(len, |i: int| i as usize), shuffle_seed(completed, len), len);
    repaired(shuffled, fixed_positions(shuffled, old_indices, len))
}

/// A shuffled destination for every live object, seeded by the number of
/// completed collections, with every accidental fixed point repaired.
///
/// `old_indices[i]` is the slot that the `i`-th live object occupied before
/// the collection; the result's `i`-th entry is its new slot.
pub fn randomized_gc_destinations(old_indices: &Vec<u32>, completed_collections: u64) -> (d: Vec<
    usize,
>)
    requires
        all_distinct(old_indices@),
    ensures
        d@ == gc_destinations(old_indices@, completed_collections),
        is_permutation(d@, old_indices@.len()),
        old_indices@.len() > 1 ==> moves_every_object(d@, old_indices@),
{
    let len = old_indices.len();
    let mut destinations = identity_destinations(len);
    let mut random_state: u64 = completed_collections.wrapping_add(1).wrapping_mul(
        0x9e37_79b9_7f4a_7c15,
    ) ^ (len as u64).wrapping_mul(0xbf58_476d_1ce4_e5b9);
    let ghost start = destinations@;
    proof {
        assert(start =~= Seq::new(len as nat, |i: int| i as usize));
    }
    let mut index: usize = len;
    while index > 1
        invariant
            1 <= index <= len || (index == len && len <= 1),
            len == old_indices@.len(),
            is_permutation(destinations@, len as nat),
            shuffle_steps(destinations@, random_state, index as nat) == shuffle_steps(start, shuffle_seed(completed_collections, len as nat), len as nat),
        decreases index,
    {
        index -= 1;
        random_state = random_state.wrapping_add(0x9e37_79b9_7f4a_7c15);
        let mut random = random_state;
        random = (random ^ (random >> 30u64)).wrapping_mul(0xbf58_476d_1ce4_e5b9);
        random = (random ^ (random >> 27u64)).wrapping_mul(0x94d0_49bb_1331_11eb);
        random = random ^ (random >> 31u64);
        let bound: u64 = index as u64 + 1;
        let swap_index = (random % bound) as usize;
        let a = destinations[index];
        let b = destinations[swap_index];
        proof {
            lemma_swap_keeps_permutation(destinations@, len as nat, index as int, swap_index as int);
        }
        let ghost before_swap = destinations@;
        destinations.set(index, b);
        destinations.set(swap_index, a);
        proof {
            assert(destinations@ == before_swap.update(index as int, before_swap[swap_index as int]).update(swap_index as int, before_swap[index as int]));
        }
    }
    let ghost shuffled = destinations@;
    proof {
        assert(shuffled == shuffle_steps(start, shuffle_seed(completed_collections, len as nat), len as nat));
    }
    // Collect the positions whose destination is their old slot.
    let mut fixed: Vec<usize> = Vec::new();
    let mut k: usize = 0;
    while k < len
        invariant
            0 <= k <= len,
            len == old_indices@.len(),
            destinations@.len() == len,
            destinations@ == shuffled,
            fixed@ == fixed_positions(shuffled, old_indices@, k as nat),
            forall|t: int| 0 <= t < fixed@.len() ==> #[trigger] fixed@[t] < k,
            forall|s: int, t: int| 0 <= s < t < fixed@.len() ==> fixed@[s] < fixed@[t],
            forall|t: int| 0 <= t < fixed@.len() ==> #[trigger] destinations@[fixed@[t] as int]
                == old_indices@[fixed@[t] as int] as usize,
            forall|q: int| 0 <= q < k && destinations@[q] == old_indices@[q] as usize ==> in_fixed(fixed@, q),
        decreases len - k,
    {
        let ghost prev = fixed@;
        if destinations[k] == old_indices[k] as usize {
            fixed.push(k);
            assert(fixed@[fixed@.len() - 1] == k);
        }
        proof {
            assert forall|q: int| 0 <= q < k + 1 && destinations@[q] == old_indices@[q] as usize implies in_fixed(fixed@, q) by {
                if q < k {
                    let t = choose|t: int| 0 <= t < prev.len() && #[trigger] prev[t] == q;
                    assert(fixed@[t] == q);
                }
            }
        }
        k += 1;
    }
    let ghost before = destinations@;
    let m = fixed.len();
    if m == 1 && len > 1 {
        let f = fixed[0];
        let g = if f + 1 == len { 0 } else { f + 1 };
        let a = destinations[f];
        let b = destinations[g];
        proof {
            lemma_swap_keeps_permutation(destinations@, len as nat, f as int, g as int);
        }
        destinations.set(f, b);
        destinations.set(g, a);
        proof {
            assert(destinations@ =~= repaired(before, fixed@));
            assert forall|q: int| 0 <= q < len implies #[trigger] destinations@[q]
                != old_indices@[q] as usize by {
                if q == f as int {
                    assert(before[g as int] != before[f as int]);
                } else if q == g as int {
                    assert(old_indices@[f as int] != old_indices@[g as int]);
                } else {
                    if before[q] == old_indices@[q] as usize {
                        let t = choose|t: int| 0 <= t < fixed@.len() && #[trigger] fixed@[t] == q;
                    }
                }
            }
        }
    } else if m >= 2 {
        // Rotate the fixed destinations one step to the left.
        let mut vals: Vec<usize> = Vec::new();
        let mut v: usize = 0;
        while v < m
            invariant
                0 <= v <= m,
                m == fixed@.len(),
                destinations@ == before,
                before.len() == len,
                forall|s: int| 0 <= s < m ==> #[trigger] fixed@[s] < len,
                vals@.len() == v,
                forall|s: int| 0 <= s < v ==> #[trigger] vals@[s] == before[fixed@[s] as int],
            decreases m - v,
        {
            vals.push(destinations[fixed[v]]);
            v += 1;
        }
        let mut t: usize = 0;
        while t < m
            invariant
                0 <= t <= m,
                m == fixed@.len(),
                m >= 2,
                len == old_indices@.len(),
                destinations@.len() == len,
                before.len() == len,
                vals@.len() == m,
                forall|s: int| 0 <= s < m ==> #[trigger] vals@[s] == before[fixed@[s] as int],
                forall|s: int| 0 <= s < m ==> #[trigger] fixed@[s] < len,
                forall|s: int, u: int| 0 <= s < u < m ==> fixed@[s] < fixed@[u],
                forall|s: int| 0 <= s < t ==> #[trigger] destinations@[fixed@[s] as int]
                    == before[fixed@[rotate_next(s, m as int)] as int],
                forall|s: int| t <= s < m ==> #[trigger] destinations@[fixed@[s] as int]
                    == before[fixed@[s] as int],
                forall|q: int|
                    0 <= q < len && !in_fixed(fixed@, q) ==> destinations@[q] == before[q],
            decreases m - t,
        {
            let next = if t + 1 == m { 0 } else { t + 1 };
            let value = vals[next];
            let ghost prev = destinations@;
            destinations.set(fixed[t], value);
            proof {
                assert forall|s: int| 0 <= s < t + 1 implies #[trigger] destinations@[fixed@[s] as int]
                    == before[fixed@[rotate_next(s, m as int)] as int] by {
                    if s < t {
                        assert(fixed@[s] < fixed@[t as int]);
                    }
                }
                assert forall|s: int| t + 1 <= s < m implies #[trigger] destinations@[fixed@[s] as int]
                    == before[fixed@[s] as int] by {
                    assert(fixed@[t as int] < fixed@[s]);
                }
                assert forall|q: int|
                    0 <= q < len && !in_fixed(fixed@, q) implies destinations@[q] == before[q] by {
                    assert(fixed@[t as int] != q);
                }
            }
            t += 1;
        }
        proof {
            assert forall|q: int| 0 <= q < len implies #[trigger] destinations@[q]
                != old_indices@[q] as usize by {
                if in_fixed(fixed@, q) {
                    let s = choose|s: int| 0 <= s < fixed@.len() && #[trigger] fixed@[s] == q;
                    let nx = rotate_next(s, m as int);
                    assert(destinations@[q] == before[fixed@[nx] as int]);
                    assert(before[fixed@[nx] as int] == old_indices@[fixed@[nx] as int] as usize);
                    if nx < s {
                        assert(fixed@[nx] < fixed@[s]);
                    } else {
                        assert(fixed@[s] < fixed@[nx]);
                    }
                    assert(old_indices@[fixed@[nx] as int] != old_indices@[fixed@[s] as int]);
                } else {
                    assert(destinations@[q] == before[q]);
                    if before[q] == old_indices@[q] as usize {
                        let t = choose|t: int| 0 <= t < fixed@.len() && #[trigger] fixed@[t] == q;
                        assert(in_fixed(fixed@, q));
                    }
                }
            }
            assert forall|a: int| 0 <= a < len implies destinations@[a] == before[source_of(
                fixed@,
                a,
            )] && 0 <= source_of(fixed@, a) < len && (in_fixed(fixed@, a) <==> in_fixed(fixed@, source_of(fixed@, a))) by {
                if in_fixed(fixed@, a) {
                    let s = choose|s: int| 0 <= s < fixed@.len() && #[trigger] fixed@[s] == a;
                    let nx = rotate_next(s, m as int);
                    assert(in_fixed(fixed@, fixed@[nx] as int));
                }
            }
            assert forall|a: int, b: int| 0 <= a < len && 0 <= b < len && a != b implies #[trigger] destinations@[a]
                != #[trigger] destinations@[b] by {
                let sa = source_of(fixed@, a);
                let sb = source_of(fixed@, b);
                if in_fixed(fixed@, a) && in_fixed(fixed@, b) {
                    let x = choose|s: int| 0 <= s < fixed@.len() && #[trigger] fixed@[s] == a;
                    let y = choose|s: int| 0 <= s < fixed@.len() && #[trigger] fixed@[s] == b;
                    let nx = rotate_next(x, m as int);
                    let ny = rotate_next(y, m as int);
                    assert(nx != ny);
                    if nx < ny {
                        assert(fixed@[nx] < fixed@[ny]);
                    } else {
                        assert(fixed@[ny] < fixed@[nx]);
                    }
                }
                assert(sa != sb);
            }
            assert forall|a: int| 0 <= a < len implies #[trigger] destinations@[a] < len by {
                assert(destinations@[a] == before[source_of(fixed@, a)]);
            }
            assert(destinations@ =~= repaired(before, fixed@));
        }
    } else {
        proof {
            assert(destinations@ == repaired(before, fixed@));
            assert forall|q: int| 0 <= q < len && len > 1 implies #[trigger] destinations@[q]
                != old_indices@[q] as usize by {
                if before[q] == old_indices@[q] as usize {
                    let t = choose|t: int| 0 <= t < fixed@.len() && #[trigger] fixed@[t] == q;
                }
            }
        }
    }
    destinations
}

}
