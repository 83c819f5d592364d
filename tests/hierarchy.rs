use raytracer::bvh::node_count;
use raytracer::{BvhChild, BvhPlan};

fn objects(c: &BvhChild, out: &mut Vec<usize>) {
    match c {
        BvhChild::Direct(o) => out.push(*o),
        BvhChild::Node(p) => {
            objects(&p.left, out);
            objects(&p.right, out);
        }
    }
}

fn check_ordered(p: &BvhPlan, keys: &[[u64; 3]]) {
    let mut l = Vec::new();
    let mut r = Vec::new();
    objects(&p.left, &mut l);
    objects(&p.right, &mut r);
    for a in &l {
        for b in &r {
            assert!(keys[*a][p.axis] <= keys[*b][p.axis]);
        }
    }
    if let BvhChild::Node(c) = &p.left {
        check_ordered(c, keys);
    }
    if let BvhChild::Node(c) = &p.right {
        check_ordered(c, keys);
    }
}

#[test]
fn node_counts() {
    assert_eq!(node_count(1), 1);
    assert_eq!(node_count(2), 1);
    assert_eq!(node_count(3), 3);
    assert_eq!(node_count(4), 3);
    assert_eq!(node_count(6), 7);
}

#[test]
fn singleton_is_duplicated() {
    let plan = BvhPlan::new(&vec![[5, 5, 5]], &vec![2]);
    assert_eq!(plan.axis, 2);
    assert!(matches!(plan.left, BvhChild::Direct(0)));
    assert!(matches!(plan.right, BvhChild::Direct(0)));
}

#[test]
fn pair_is_ordered_on_the_axis() {
    let keys = vec![[9, 1, 0], [3, 2, 0]];
    let on_x = BvhPlan::new(&keys, &vec![0]);
    assert!(matches!((&on_x.left, &on_x.right), (BvhChild::Direct(1), BvhChild::Direct(0))));
    let on_y = BvhPlan::new(&keys, &vec![1]);
    assert!(matches!((&on_y.left, &on_y.right), (BvhChild::Direct(0), BvhChild::Direct(1))));
    // equal keys keep their order
    let on_z = BvhPlan::new(&keys, &vec![2]);
    assert!(matches!((&on_z.left, &on_z.right), (BvhChild::Direct(0), BvhChild::Direct(1))));
}

#[test]
fn every_primitive_is_reachable_and_ordered() {
    let mut seed = 12345u64;
    for n in [3usize, 5, 50, 64, 101] {
        let keys: Vec<[u64; 3]> = (0..n)
            .map(|_| {
                let mut k = [0u64; 3];
                for v in k.iter_mut() {
                    seed = seed.wrapping_mul(6364136223846793005).wrapping_add(1442695040888963407);
                    *v = seed >> 40;
                }
                k
            })
            .collect();
        let axes: Vec<usize> = (0..node_count(n)).map(|i| (i * 7 + n) % 3).collect();
        let plan = BvhPlan::new(&keys, &axes);
        assert_eq!(plan.axis, axes[0]);
        let mut all = Vec::new();
        objects(&BvhChild::Node(Box::new(plan)), &mut all);
        let mut distinct = all.clone();
        distinct.sort();
        distinct.dedup();
        assert_eq!(distinct, (0..n).collect::<Vec<_>>());
        let plan = BvhPlan::new(&keys, &axes);
        check_ordered(&plan, &keys);
    }
}
