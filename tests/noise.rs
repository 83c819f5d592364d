use raytracer::perlin::{lattice_point, perlin_generate_permutation, permute, POINT_COUNT};

#[test]
fn permute_swaps_from_the_end() {
    let mut p = vec![10, 20, 30, 40];
    // position 3 <-> 0, then 2 <-> 2, then 1 <-> 0, then 0 <-> 0
    permute(&mut p, &vec![0, 0, 2, 0]);
    assert_eq!(p, vec![20, 40, 30, 10]);
}

#[test]
fn identity_picks_keep_the_order() {
    let mut p = vec![5, 6, 7];
    permute(&mut p, &vec![0, 1, 2]);
    assert_eq!(p, vec![5, 6, 7]);
}

#[test]
fn generated_table_is_a_permutation() {
    let picks: Vec<usize> = (0..POINT_COUNT).map(|i| (i * 31 + 7) % (i + 1)).collect();
    let table = perlin_generate_permutation(&picks);
    assert_eq!(table.len(), POINT_COUNT);
    let mut sorted = table.clone();
    sorted.sort();
    assert_eq!(sorted, (0..POINT_COUNT).collect::<Vec<_>>());
    assert_ne!(table, (0..POINT_COUNT).collect::<Vec<_>>());
}

#[test]
fn lattice_point_wraps_and_mixes() {
    let x: Vec<usize> = (0..256).collect();
    let y: Vec<usize> = (0..256).rev().collect();
    let z: Vec<usize> = vec![0; 256];
    assert_eq!(lattice_point(&x, &y, &z, 3, 0, 0), 3 ^ 255);
    // -1 wraps to 255, 256 wraps to 0
    assert_eq!(lattice_point(&x, &y, &z, -1, 256, 9), 255 ^ 255);
    assert_eq!(lattice_point(&x, &y, &z, 1, 1, 1), 1 ^ 254);
}
