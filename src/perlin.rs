use vstd::prelude::*;
use vstd::seq_lib::group_to_multiset_ensures;

verus! {

broadcast use group_to_multiset_ensures;

/// Size of the noise lattice's tables.
pub const POINT_COUNT: usize = 256;

/// `s` after the swaps of positions `i, i+1, ..., len-1` were made, from the
/// last position down: position `q` is swapped with `picks[q]`.
pub open spec fn swapped_from(s: Seq<usize>, picks: Seq<usize>, i: int) -> Seq<usize>
    decreases s.len() - i,
{
    if i >= s.len() || i < 0 {
        s
    } else {
        let t = swapped_from(s, picks, i + 1);
        t.update(i, t[picks[i] as int]).update(picks[i] as int, t[i])
    }
}

pub open spec fn picks_valid(picks: Seq<usize>) -> bool {
    forall|q: int| 0 <= q < picks.len() ==> picks[q] <= q
}

proof fn lemma_swapped_len(s: Seq<usize>, picks: Seq<usize>, i: int)
    requires
        picks.len() == s.len(),
        picks_valid(picks),
        i >= 0,
    ensures
        swapped_from(s, picks, i).len() == s.len(),
        swapped_from(s, picks, i).to_multiset() == s.to_multiset(),
    decreases s.len() - i,
{
    if i < s.len() {
        lemma_swapped_len(s, picks, i + 1);
        let t = swapped_from(s, picks, i + 1);
        let a = t[i];
        let b = t[picks[i] as int];
        assert(t.update(i, b).to_multiset() == t.to_multiset().insert(b).remove(a));
        assert(t.update(i, b).update(picks[i] as int, a).to_multiset() =~= t.to_multiset());
    }
}

/// Shuffles `p` in place (Fisher-Yates): from the last position down to
/// the first, position `i` is swapped with position `picks[i]`, a position
/// no greater than `i` drawn at random by the caller.
pub fn permute(p: &mut Vec<usize>, picks: &Vec<usize>)
    requires
        picks.len() == old(p).len(),
        picks_valid(picks@),
    ensures
        final(p)@ == swapped_from(old(p)@, picks@, 0),
        final(p)@.to_multiset() == old(p)@.to_multiset(),
        final(p)@.len() == old(p)@.len(),
{
    let l = p.len();
    let mut i: usize = l;
    proof {
        lemma_swapped_len(old(p)@, picks@, 0);
    }
    while i > 0
        invariant
            i <= l,
            l == p.len(),
            l == old(p)@.len(),
            picks.len() == l,
            picks_valid(picks@),
            p@ == swapped_from(old(p)@, picks@, i as int),
        decreases i,
    {
        i -= 1;
        proof {
            lemma_swapped_len(old(p)@, picks@, i + 1);
        }
        let r = picks[i];
        let a = p[i];
        let b = p[r];
        p.set(i, b);
        p.set(r, a);
    }
}

/// A random permutation of `0..POINT_COUNT`, shuffled with `picks`.
pub fn perlin_generate_permutation(picks: &Vec<usize>) -> (r: Vec<usize>)
    requires
        picks.len() == POINT_COUNT,
        picks_valid(picks@),
    ensures
        r@ == swapped_from(Seq::new(POINT_COUNT as nat, |q: int| q as usize), picks@, 0),
        r@.len() == POINT_COUNT,
        r@.to_multiset() == Seq::new(POINT_COUNT as nat, |q: int| q as usize).to_multiset(),
        forall|q: int| 0 <= q < r@.len() ==> r@[q] < POINT_COUNT,
{
    let mut p: Vec<usize> = Vec::with_capacity(POINT_COUNT);
    let mut k: usize = 0;
    while k < POINT_COUNT
        invariant
            k <= POINT_COUNT,
            p@ == Seq::new(k as nat, |q: int| q as usize),
        decreases POINT_COUNT - k,
    {
        p.push(k);
        k += 1;
        assert(p@ =~= Seq::new(k as nat, |q: int| q as usize));
    }
    let ghost start = p@;
    permute(&mut p, picks);
    proof {
        assert forall|q: int| 0 <= q < p@.len() implies p@[q] < POINT_COUNT by {
            let v = p@[q];
            assert(p@.to_multiset().count(v) > 0);
            assert(start.to_multiset().count(v) > 0);
            assert(start.contains(v));
        }
    }
    p
}

/// The three tables are permutations of the lattice indices.
pub open spec fn tables_valid(x: Seq<usize>, y: Seq<usize>, z: Seq<usize>) -> bool {
    &&& x.len() == POINT_COUNT
    &&& y.len() == POINT_COUNT
    &&& z.len() == POINT_COUNT
    &&& forall|q: int| 0 <= q < POINT_COUNT ==> x[q] < POINT_COUNT
    &&& forall|q: int| 0 <= q < POINT_COUNT ==> y[q] < POINT_COUNT
    &&& forall|q: int| 0 <= q < POINT_COUNT ==> z[q] < POINT_COUNT
}

/// The gradient slot of lattice corner `(i, j, k)`: each coordinate is
/// wrapped to the table size and the three table entries are combined with
/// exclusive or, which stays inside the table.
pub fn lattice_point(
    permute_x: &Vec<usize>,
    permute_y: &Vec<usize>,
    permute_z: &Vec<usize>,
    i: i32,
    j: i32,
    k: i32,
) -> (r: usize)
    requires
        tables_valid(permute_x@, permute_y@, permute_z@),
    ensures
        r < POINT_COUNT,
        r == permute_x@[(i & 255) as int] ^ permute_y@[(j & 255) as int] ^ permute_z@[(k & 255) as int],
{
    assert(0 <= (i & 255) <= 255) by (bit_vector);
    assert(0 <= (j & 255) <= 255) by (bit_vector);
    assert(0 <= (k & 255) <= 255) by (bit_vector);
    let a = permute_x[(i & 255) as usize];
    let b = permute_y[(j & 255) as usize];
    let c = permute_z[(k & 255) as usize];
    assert(a ^ b ^ c < 256) by (bit_vector)
        requires a < 256, b < 256, c < 256;
    a ^ b ^ c
}

} // verus!
