use raytracer::integrator::{after_scatter, shading, Shading, MAX_DEPTH};
use raytracer::{Dimension, X, Y, Z};

#[test]
fn miss_sees_background() {
    assert_eq!(shading(false, 0), Shading::Background);
    assert_eq!(shading(false, 80), Shading::Background);
}

#[test]
fn depth_limit_is_black() {
    assert_eq!(shading(true, 49), Shading::Surface);
    assert_eq!(shading(true, 50), Shading::Black);
    assert_eq!(shading(true, 51), Shading::Black);
}

#[test]
fn scatter_goes_one_deeper() {
    assert_eq!(after_scatter(0, true), Some(1));
    assert_eq!(after_scatter(49, true), Some(50));
    assert_eq!(after_scatter(3, false), None);
}

#[test]
fn mirror_cavity_stops_at_depth_fifty() {
    // every query hits and every material scatters
    let mut depth = 0u32;
    let mut recursions = 0u32;
    loop {
        match shading(true, depth) {
            Shading::Surface => {
                depth = after_scatter(depth, true).unwrap();
                recursions += 1;
            }
            other => {
                assert_eq!(other, Shading::Black);
                break;
            }
        }
    }
    assert_eq!(depth, MAX_DEPTH);
    assert_eq!(recursions, 50);
}

#[test]
fn axis_indices() {
    assert_eq!((X::index(), Y::index(), Z::index()), (0, 1, 2));
}
