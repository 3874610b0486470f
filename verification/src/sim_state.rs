use vstd::prelude::*;

use crate::ringarray::{ring_push, RingArray};

verus! {

/// Maximum number of points in a trail per body.
pub const TRAIL_ARRAY_CAPACITY_PER_BODY: usize = 1000;

/// What the simulator draws.
pub struct SimConfig {
    /// Whether trails should be rendered.
    pub render_trails: bool,
    /// Whether body name labels should be rendered, e.g. `Jupiter`.
    pub render_labels: bool,
    /// Whether to display mass for selected bodies.
    pub render_mass: bool,
    /// Whether to display velocity for selected bodies.
    pub render_vel: bool,
    /// Whether to display kinetic energy for selected bodies.
    pub render_ke: bool,
    /// Whether to display potential energy for selected bodies.
    pub render_pe: bool,
    /// Whether to display the Lagrangian for selected bodies.
    pub render_lagrangian: bool,
    /// Whether to display forces acting on the selected body.
    pub render_forces: bool,
}

impl SimConfig {
    /// The default settings: trails, labels, kinetic and potential energy
    /// are shown, the rest is hidden.
    pub fn new() -> (c: SimConfig)
        ensures
            c.render_trails,
            c.render_labels,
            !c.render_mass,
            !c.render_vel,
            c.render_ke,
            c.render_pe,
            !c.render_lagrangian,
            !c.render_forces,
    {
        SimConfig {
            render_trails: true,
            render_labels: true,
            render_mass: false,
            render_vel: false,
            render_ke: true,
            render_pe: true,
            render_lagrangian: false,
            render_forces: false,
        }
    }
}

/// The trails for a freshly loaded universe of `n_bodies` bodies: one empty
/// trail per body, each holding at most `TRAIL_ARRAY_CAPACITY_PER_BODY`
/// points.
pub fn new_trails<T: Clone>(n_bodies: usize) -> (r: Vec<RingArray<T>>)
    ensures
        r@.len() == n_bodies,
        forall|i: int| 0 <= i < n_bodies ==> {
            &&& (#[trigger] r@[i]).wf()
            &&& r@[i]@ == Seq::<T>::empty()
            &&& r@[i].cap() == TRAIL_ARRAY_CAPACITY_PER_BODY
        },
{
    let mut r: Vec<RingArray<T>> = Vec::new();
    let mut i: usize = 0;
    while i < n_bodies
        invariant
            i <= n_bodies,
            r@.len() == i,
            forall|k: int| 0 <= k < i ==> {
                &&& (#[trigger] r@[k]).wf()
                &&& r@[k]@ == Seq::<T>::empty()
                &&& r@[k].cap() == TRAIL_ARRAY_CAPACITY_PER_BODY
            },
        decreases n_bodies - i,
    {
        r.push(RingArray::new(TRAIL_ARRAY_CAPACITY_PER_BODY));
        i = i + 1;
    }
    r
}

/// Records the current position of each body in its trail.
///
/// `points[i]` is the position of body `i`; it is pushed onto trail `i`
/// where that trail exists. Bodies without a trail, and trails without a
/// body, are left alone.
pub fn push_trail_points<T: Copy>(trails: &mut Vec<RingArray<T>>, points: &Vec<T>)
    requires
        forall|i: int| 0 <= i < old(trails)@.len() ==> (#[trigger] old(trails)@[i]).wf(),
        forall|i: int|
            0 <= i < old(trails)@.len() && i < points@.len() ==> (#[trigger] old(trails)@[i]).cap() > 0,
    ensures
        final(trails)@.len() == old(trails)@.len(),
        forall|i: int| 0 <= i < final(trails)@.len() ==> {
            &&& (#[trigger] final(trails)@[i]).wf()
            &&& final(trails)@[i].cap() == old(trails)@[i].cap()
            &&& final(trails)@[i]@ == if i < points@.len() {
                ring_push(old(trails)@[i]@, old(trails)@[i].cap(), points@[i])
            } else {
                old(trails)@[i]@
            }
        },
{
    let ghost orig = trails@;
    let n = points.len();
    let mut i: usize = 0;
    while i < n
        invariant
            n == points@.len(),
            i <= n,
            trails@.len() == orig.len(),
            forall|k: int| 0 <= k < orig.len() ==> (#[trigger] orig[k]).wf(),
            forall|k: int| 0 <= k < orig.len() && k < n ==> (#[trigger] orig[k]).cap() > 0,
            forall|k: int| 0 <= k < trails@.len() ==> {
                &&& (#[trigger] trails@[k]).wf()
                &&& trails@[k].cap() == orig[k].cap()
                &&& trails@[k]@ == if k < i {
                    ring_push(orig[k]@, orig[k].cap(), points@[k])
                } else {
                    orig[k]@
                }
            },
        decreases n - i,
    {
        if i < trails.len() {
            trails[i].push(points[i]);
        }
        i = i + 1;
    }
}

} // verus!
