use vstd::prelude::*;
use vstd::seq_lib::group_to_multiset_ensures;

verus! {

broadcast use group_to_multiset_ensures;

/// The key of primitive `item` on `axis`: an integer that orders the
/// primitives' bounding-box minima along that axis.
pub open spec fn key(keys: Seq<[u64; 3]>, item: usize, axis: usize) -> u64 {
    keys[item as int][axis as int]
}

pub open spec fn sorted_on(items: Seq<usize>, keys: Seq<[u64; 3]>, axis: usize) -> bool {
    forall|a: int, b: int|
        0 <= a < b < items.len() ==> key(keys, items[a], axis) <= key(keys, items[b], axis)
}

pub open spec fn indexes_into(items: Seq<usize>, n: nat) -> bool {
    forall|k: int| 0 <= k < items.len() ==> items[k] < n
}

pub open spec fn sorted_between(
    items: Seq<usize>,
    keys: Seq<[u64; 3]>,
    axis: usize,
    lo: int,
    hi: int,
) -> bool {
    forall|a: int, b: int|
        lo <= a < b < hi ==> #[trigger] key(keys, items[a], axis) <= #[trigger] key(
            keys,
            items[b],
            axis,
        )
}

/// Sorts `items` by their keys on `axis`; items with equal keys keep their
/// order.
fn sort_on_axis(items: &mut Vec<usize>, keys: &Vec<[u64; 3]>, axis: usize)
    requires
        axis < 3,
        indexes_into(old(items)@, keys.len() as nat),
    ensures
        final(items)@.to_multiset() == old(items)@.to_multiset(),
        final(items)@.len() == old(items)@.len(),
        indexes_into(final(items)@, keys.len() as nat),
        sorted_on(final(items)@, keys@, axis),
{
    let n = items.len();
    if n == 0 {
        return;
    }
    let mut i: usize = 1;
    while i < n
        invariant
            1 <= i <= n,
            n == items.len(),
            axis < 3,
            items@.to_multiset() == old(items)@.to_multiset(),
            indexes_into(items@, keys.len() as nat),
            sorted_between(items@, keys@, axis, 0, i as int),
        decreases n - i,
    {
        let mut j: usize = i;
        while j > 0 && keys[items[j - 1]][axis] > keys[items[j]][axis]
            invariant
                0 <= j <= i < n,
                n == items.len(),
                axis < 3,
                items@.to_multiset() == old(items)@.to_multiset(),
                indexes_into(items@, keys.len() as nat),
                // [0, j) and [j, i] are sorted, and all of [0, j) is below all of (j, i]
                sorted_between(items@, keys@, axis, 0, j as int),
                sorted_between(items@, keys@, axis, j as int, i + 1),
                forall|a: int, b: int|
                    0 <= a < j && j < b <= i ==> #[trigger] key(keys@, items@[a], axis)
                        <= #[trigger] key(keys@, items@[b], axis),
            decreases j,
        {
            let ghost before = items@;
            let lo = items[j - 1];
            let hi = items[j];
            items.set(j - 1, hi);
            items.set(j, lo);
            proof {
                assert(items@ =~= before.update(j - 1, hi).update(j as int, lo));
                assert(items@.to_multiset() =~= before.to_multiset());
                assert forall|a: int, b: int| j - 1 <= a < b < i + 1 implies #[trigger] key(
                    keys@,
                    items@[a],
                    axis,
                ) <= #[trigger] key(keys@, items@[b], axis) by {
                    if a == j - 1 && b > j {
                        assert(key(keys@, before[j as int], axis) <= key(keys@, before[b], axis));
                    }
                    if a == j {
                        assert(key(keys@, before[j - 1], axis) > key(keys@, before[j as int], axis));
                    }
                }
            }
            j -= 1;
        }
        proof {
            assert forall|a: int, b: int| 0 <= a < b < i + 1 implies #[trigger] key(
                keys@,
                items@[a],
                axis,
            ) <= #[trigger] key(keys@, items@[b], axis) by {
                if a < j && b == j && j > 0 {
                    if a < j - 1 {
                        assert(key(keys@, items@[a], axis) <= key(keys@, items@[j - 1], axis));
                    }
                }
            }
        }
        i += 1;
    }
}

/// One side of a node of the hierarchy: a subtree, or one primitive
/// given by its index.
pub enum BvhChild {
    Node(Box<BvhPlan>),
    Direct(usize),
}

/// The shape of a bounding volume hierarchy over primitives numbered
/// `0..n`: at each node the axis along which its primitives were sorted,
/// and its two sides. A node over a single primitive holds it on both
/// sides.
pub struct BvhPlan {
    pub axis: usize,
    pub left: BvhChild,
    pub right: BvhChild,
}

impl BvhChild {
    /// The primitives reachable from this side, left to right.
    pub open spec fn objects(self) -> Seq<usize>
        decreases self,
    {
        match self {
            BvhChild::Direct(o) => seq![o],
            BvhChild::Node(p) => p.left.objects() + p.right.objects(),
        }
    }

    /// The number of nodes below this side, itself included.
    pub open spec fn nodes(self) -> nat
        decreases self,
    {
        match self {
            BvhChild::Direct(_) => 0,
            BvhChild::Node(p) => 1 + p.left.nodes() + p.right.nodes(),
        }
    }

    /// At every node, no primitive on the left has a larger key on the
    /// node's axis than one on the right.
    pub open spec fn ordered(self, keys: Seq<[u64; 3]>) -> bool
        decreases self,
    {
        match self {
            BvhChild::Direct(_) => true,
            BvhChild::Node(p) => {
                &&& p.left.ordered(keys)
                &&& p.right.ordered(keys)
                &&& forall|a: int, b: int|
                    0 <= a < p.left.objects().len() && 0 <= b < p.right.objects().len() ==> key(
                        keys,
                        #[trigger] p.left.objects()[a],
                        p.axis,
                    ) <= key(keys, #[trigger] p.right.objects()[b], p.axis)
            },
        }
    }

    /// The nodes take their axes from `axes`, from `pos` on, in pre-order.
    pub open spec fn axes_from(self, axes: Seq<usize>, pos: int) -> bool
        decreases self,
    {
        match self {
            BvhChild::Direct(_) => true,
            BvhChild::Node(p) => {
                &&& p.axis == axes[pos]
                &&& p.left.axes_from(axes, pos + 1)
                &&& p.right.axes_from(axes, pos + 1 + p.left.nodes())
            },
        }
    }
}

/// The number of nodes that a hierarchy over `n` primitives has: one
/// random axis is drawn for each.
pub open spec fn nodes_needed(n: nat) -> nat
    decreases n,
{
    if n <= 2 {
        1
    } else {
        1 + nodes_needed(n / 2) + nodes_needed((n - n / 2) as nat)
    }
}

proof fn lemma_nodes_needed_bound(n: nat)
    requires
        n >= 1,
    ensures
        nodes_needed(n) <= 2 * n - 1,
    decreases n,
{
    if n > 2 {
        lemma_nodes_needed_bound(n / 2);
        lemma_nodes_needed_bound((n - n / 2) as nat);
    }
}

/// The number of axes that `BvhPlan::new` needs for `n` primitives.
pub fn node_count(n: usize) -> (r: usize)
    requires
        1 <= n <= usize::MAX / 2,
    ensures
        r == nodes_needed(n as nat),
    decreases n,
{
    proof {
        lemma_nodes_needed_bound(n as nat);
    }
    if n <= 2 {
        1
    } else {
        1 + node_count(n / 2) + node_count(n - n / 2)
    }
}

pub open spec fn axes_valid(axes: Seq<usize>) -> bool {
    forall|k: int| 0 <= k < axes.len() ==> axes[k] < 3
}

impl BvhPlan {
    pub open spec fn as_child(self) -> BvhChild {
        BvhChild::Node(Box::new(self))
    }

    pub open spec fn objects(self) -> Seq<usize> {
        self.as_child().objects()
    }

    /// Builds the node over `items`, drawing its axes from `axes` at `pos`.
    fn build(items: Vec<usize>, keys: &Vec<[u64; 3]>, axes: &Vec<usize>, pos: usize) -> (r: BvhPlan)
        requires
            items.len() >= 1,
            items.len() <= usize::MAX / 2,
            indexes_into(items@, keys.len() as nat),
            pos + nodes_needed(items.len() as nat) <= axes.len(),
            axes_valid(axes@),
        ensures
            forall|o: usize| r.objects().contains(o) <==> items@.contains(o),
            r.as_child().ordered(keys@),
            r.as_child().axes_from(axes@, pos as int),
            r.as_child().nodes() == nodes_needed(items.len() as nat),
        decreases items.len(),
    {
        let axis = axes[pos];
        let n = items.len();
        if n == 1 {
            let o = items[0];
            let r = BvhPlan { axis, left: BvhChild::Direct(o), right: BvhChild::Direct(o) };
            proof {
                assert(r.left.objects() == seq![o]);
                assert(r.right.objects() == seq![o]);
                assert(r.objects() =~= seq![o, o]);
                assert(r.left.ordered(keys@) && r.right.ordered(keys@));
                assert(r.left.nodes() == 0 && r.right.nodes() == 0);
                assert(r.left.axes_from(axes@, pos + 1) && r.right.axes_from(axes@, pos + 1));
                assert(r.as_child().ordered(keys@));
                assert(r.as_child().axes_from(axes@, pos as int));
                assert forall|x: usize| r.objects().contains(x) <==> items@.contains(x) by {
                    if items@.contains(x) {
                        let k = choose|k: int| 0 <= k < items@.len() && items@[k] == x;
                        assert(k == 0);
                        assert(r.objects()[0] == x);
                    }
                    if r.objects().contains(x) {
                        assert(items@[0] == x);
                    }
                }
            }
            r
        } else if n == 2 {
            let a = items[0];
            let b = items[1];
            let (l, h) = if keys[a][axis] > keys[b][axis] {
                (b, a)
            } else {
                (a, b)
            };
            let r = BvhPlan { axis, left: BvhChild::Direct(l), right: BvhChild::Direct(h) };
            proof {
                assert(r.left.objects() == seq![l]);
                assert(r.right.objects() == seq![h]);
                assert(r.objects() =~= seq![l, h]);
                assert(r.left.ordered(keys@) && r.right.ordered(keys@));
                assert(r.left.nodes() == 0 && r.right.nodes() == 0);
                assert(r.left.axes_from(axes@, pos + 1) && r.right.axes_from(axes@, pos + 1));
                assert(r.as_child().ordered(keys@));
                assert(r.as_child().axes_from(axes@, pos as int));
                assert forall|x: usize| r.objects().contains(x) <==> items@.contains(x) by {
                    if items@.contains(x) {
                        let k = choose|k: int| 0 <= k < items@.len() && items@[k] == x;
                        if k == 0 {
                            assert(r.objects()[if l == a { 0int } else { 1int }] == x);
                        } else {
                            assert(r.objects()[if h == b { 1int } else { 0int }] == x);
                        }
                    }
                    if r.objects().contains(x) {
                        let k = choose|k: int| 0 <= k < 2 && r.objects()[k] == x;
                        assert(items@[if x == a { 0int } else { 1int }] == x);
                    }
                }
            }
            r
        } else {
            let ghost given = items@;
            let mut items = items;
            sort_on_axis(&mut items, keys, axis);
            let ghost sorted = items@;
            let mid = n / 2;
            let right_items = items.split_off(mid);
            proof {
                assert(sorted =~= items@ + right_items@);
                lemma_nodes_needed_bound(mid as nat);
                assert forall|x: usize| sorted.contains(x) <==> given.contains(x) by {
                    assert(sorted.to_multiset().count(x) == given.to_multiset().count(x));
                }
            }
            let skip = node_count(mid);
            let left = Self::build(items, keys, axes, pos + 1);
            let right = Self::build(right_items, keys, axes, pos + 1 + skip);
            let r = BvhPlan {
                axis,
                left: BvhChild::Node(Box::new(left)),
                right: BvhChild::Node(Box::new(right)),
            };
            proof {
                let lo = left.objects();
                let ro = right.objects();
                assert(r.objects() =~= lo + ro);
                assert forall|x: usize| r.objects().contains(x) <==> given.contains(x) by {
                    if (lo + ro).contains(x) {
                        let k = choose|k: int| 0 <= k < (lo + ro).len() && (lo + ro)[k] == x;
                        if k < lo.len() {
                            assert(lo[k] == x);
                            assert(lo.contains(x));
                        } else {
                            assert(ro[k - lo.len()] == x);
                            assert(ro.contains(x));
                        }
                    }
                    if sorted.contains(x) {
                        let k = choose|k: int| 0 <= k < sorted.len() && sorted[k] == x;
                        if k < mid {
                            assert(sorted.subrange(0, mid as int)[k] == x);
                            assert(sorted.subrange(0, mid as int).contains(x));
                            let k2 = choose|k2: int| 0 <= k2 < lo.len() && lo[k2] == x;
                            assert((lo + ro)[k2] == x);
                        } else {
                            assert(sorted.subrange(mid as int, n as int)[k - mid] == x);
                            assert(sorted.subrange(mid as int, n as int).contains(x));
                            let k2 = choose|k2: int| 0 <= k2 < ro.len() && ro[k2] == x;
                            assert((lo + ro)[lo.len() + k2] == x);
                        }
                    }
                }
                assert forall|a: int, b: int|
                    0 <= a < lo.len() && 0 <= b < ro.len() implies key(keys@, #[trigger] lo[a], axis)
                    <= key(keys@, #[trigger] ro[b], axis) by {
                    assert(lo.contains(lo[a]));
                    assert(ro.contains(ro[b]));
                    let ia = choose|i: int| 0 <= i < mid && sorted.subrange(0, mid as int)[i] == lo[a];
                    let ib = choose|i: int|
                        0 <= i < n - mid && sorted.subrange(mid as int, n as int)[i] == ro[b];
                    assert(sorted[ia] == lo[a]);
                    assert(sorted[mid + ib] == ro[b]);
                }
                assert(r.left.objects() == lo);
                assert(r.right.objects() == ro);
                assert(r.left.ordered(keys@));
                assert(r.right.ordered(keys@));
                assert(r.as_child().ordered(keys@));
                assert(r.left.nodes() == skip);
                assert(r.as_child().axes_from(axes@, pos as int));
            }
            r
        }
    }

    /// The hierarchy over primitives `0..keys.len()`, where `keys[i]` orders
    /// primitive `i` along each axis and `axes` supplies the axis of each
    /// node in pre-order. Every primitive is reachable, and at each node the
    /// left side holds the lower half along the node's axis.
    pub fn new(keys: &Vec<[u64; 3]>, axes: &Vec<usize>) -> (r: BvhPlan)
        requires
            1 <= keys.len() <= usize::MAX / 2,
            nodes_needed(keys.len() as nat) <= axes.len(),
            axes_valid(axes@),
        ensures
            forall|o: usize| r.objects().contains(o) <==> o < keys.len(),
            r.as_child().ordered(keys@),
            r.as_child().axes_from(axes@, 0),
            r.as_child().nodes() == nodes_needed(keys.len() as nat),
    {
        let n = keys.len();
        let mut items: Vec<usize> = Vec::with_capacity(n);
        let mut k: usize = 0;
        while k < n
            invariant
                k <= n,
                n == keys.len(),
                items@ == Seq::new(k as nat, |q: int| q as usize),
            decreases n - k,
        {
            items.push(k);
            k += 1;
            assert(items@ =~= Seq::new(k as nat, |q: int| q as usize));
        }
        proof {
            assert forall|o: usize| items@.contains(o) <==> o < n by {
                if o < n {
                    assert(items@[o as int] == o);
                }
            }
        }
        Self::build(items, keys, axes, 0)
    }
}

} // verus!
