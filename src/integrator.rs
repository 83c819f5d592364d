use vstd::prelude::*;

verus! {

/// Depth at which the integrator stops following a path.
pub const MAX_DEPTH: u32 = 50;

/// What the integrator does with one nearest-hit query.
#[derive(Clone, Copy, Debug, PartialEq, Eq, Structural)]
pub enum Shading {
    /// Nothing was hit: the path sees the background.
    Background,
    /// The path is too deep: it contributes black.
    Black,
    /// A surface was hit: its emission counts, and its material may scatter.
    Surface,
}

pub open spec fn spec_shading(hit: bool, depth: nat) -> Shading {
    if !hit {
        Shading::Background
    } else if depth >= MAX_DEPTH {
        Shading::Black
    } else {
        Shading::Surface
    }
}

/// Decides how a query at recursion depth `depth` is shaded.
pub fn shading(hit: bool, depth: u32) -> (r: Shading)
    ensures
        r == spec_shading(hit, depth as nat),
{
    if !hit {
        Shading::Background
    } else if depth >= MAX_DEPTH {
        Shading::Black
    } else {
        Shading::Surface
    }
}

/// After a surface at depth `depth`: the depth of the recursive query
/// when the material scattered a ray, `None` when the path ends with the
/// surface's emission.
pub fn after_scatter(depth: u32, scattered: bool) -> (r: Option<u32>)
    requires
        depth < MAX_DEPTH,
    ensures
        r == (if scattered {
            Some((depth + 1) as u32)
        } else {
            None::<u32>
        }),
{
    if scattered {
        Some(depth + 1)
    } else {
        None
    }
}

/// The depth at which a path that starts at `depth` stops, when its
/// queries meet `events` in turn: each event tells whether the query hit
/// something and whether the material then scattered a ray.
pub open spec fn final_depth(depth: nat, events: Seq<(bool, bool)>) -> nat
    decreases events.len(),
{
    if events.len() == 0 {
        depth
    } else if spec_shading(events[0].0, depth) == Shading::Surface && events[0].1 {
        final_depth(depth + 1, events.drop_first())
    } else {
        depth
    }
}

/// No path recurses past the depth limit, whatever it meets; and in a
/// scene where every query hits and every material scatters (a closed
/// cavity of mirrors), the path stops exactly at the limit, where the hit
/// is shaded black.
pub proof fn lemma_depth_bound(depth: nat, events: Seq<(bool, bool)>)
    requires
        depth <= MAX_DEPTH,
    ensures
        final_depth(depth, events) <= MAX_DEPTH,
        (events.len() > MAX_DEPTH - depth && forall|k: int|
            0 <= k < events.len() ==> events[k] == (true, true)) ==> final_depth(depth, events)
            == MAX_DEPTH && spec_shading(true, final_depth(depth, events)) == Shading::Black,
    decreases events.len(),
{
    if events.len() > 0 && spec_shading(events[0].0, depth) == Shading::Surface && events[0].1 {
        let rest = events.drop_first();
        lemma_depth_bound(depth + 1, rest);
        if events.len() > MAX_DEPTH - depth && forall|k: int|
            0 <= k < events.len() ==> events[k] == (true, true) {
            assert forall|k: int| 0 <= k < rest.len() implies rest[k] == (true, true) by {
                assert(rest[k] == events[k + 1]);
            }
        }
    }
}

} // verus!
