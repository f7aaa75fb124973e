//! The orchestrator: owns the bounds, the body list and the spatial table,
//! and runs the fixed physics pipeline once per `update` call.

use vstd::prelude::*;

use crate::body::{spec_integrate, Body};
use crate::bounding::AxisAlignmentBoundingBox;
use crate::collision::{spec_test_collision, CollisionResolver, Contact};
use crate::scalar::{in_range, sat_add, spec_add, SCALE};
use crate::shapes::spec_radius;
use crate::spatial_table::{grid_dim, pair_is_sound, SpatialTable};
use crate::toroidal::{period, spec_min_coordinate, Bounds};
use crate::util::BorrowMutTwo;
use crate::vec2::Vec2;

verus! {

/// A contact between the bodies at two indices of the body list.
#[derive(Debug, Clone, Copy)]
pub struct ContactInfo {
    pub first: usize,
    pub second: usize,
    pub contact: Contact,
}

/// The default spatial cell size: a tenth of the domain width.
pub open spec fn default_cell_size(width: int) -> int {
    (width * SCALE) / 10
}

/// `b` with its position wrapped into the canonical domain.
pub open spec fn spec_wrap_body(bounds: Bounds, b: Body) -> Body {
    Body {
        position: Vec2 {
            x: spec_min_coordinate(b.position.x as int, bounds.width as int) as i64,
            y: spec_min_coordinate(b.position.y as int, bounds.height as int) as i64,
        },
        ..b
    }
}

/// Whether a body's position lies in the canonical domain.
pub open spec fn position_canonical(bounds: Bounds, b: Body) -> bool {
    &&& 0 <= b.position.x < period(bounds.width as int)
    &&& 0 <= b.position.y < period(bounds.height as int)
}

/// The wrapped bounding box a collidable body feeds into the spatial table.
pub open spec fn spec_wrapped_aabb(bounds: Bounds, b: Body) -> AxisAlignmentBoundingBox {
    let raw = AxisAlignmentBoundingBox::spec_of_circle(
        b.position,
        spec_radius(b.shape.unwrap()),
    );
    AxisAlignmentBoundingBox {
        left: spec_min_coordinate(raw.left as int, bounds.width as int) as i64,
        right: spec_min_coordinate(raw.right as int, bounds.width as int) as i64,
        top: spec_min_coordinate(raw.top as int, bounds.height as int) as i64,
        bottom: spec_min_coordinate(raw.bottom as int, bounds.height as int) as i64,
    }
}

/// The body list after every member took one integration step of `dt`.
pub open spec fn spec_integrated(bodies: Seq<Body>, dt: int) -> Seq<Body> {
    bodies.map_values(|b: Body| spec_integrate(b, dt))
}

/// Whether no two members of the body list collide under the toroidal
/// metric.
pub open spec fn bodies_separated(bounds: Bounds, bodies: Seq<Body>) -> bool {
    forall|i: int, j: int|
        0 <= i < j < bodies.len() ==> spec_test_collision(
            bounds,
            #[trigger] bodies[i],
            #[trigger] bodies[j],
        ) is None
}

/// Whether the body at index `i` collides with no other member of the list
/// under the toroidal metric.
pub open spec fn body_isolated(bounds: Bounds, bodies: Seq<Body>, i: int) -> bool {
    forall|j: int|
        0 <= j < bodies.len() && j != i ==> spec_test_collision(
            bounds,
            bodies[i],
            #[trigger] bodies[j],
        ) is None
}

/// The attributes integration and resolution never touch.
pub open spec fn attrs_preserved(b: Body, c: Body) -> bool {
    &&& b.shape == c.shape
    &&& b.inverse_mass == c.inverse_mass
    &&& b.drag_force == c.drag_force
    &&& b.restitution == c.restitution
}

/// The insertion record a step feeds into the spatial table: every
/// collidable body among the first `n`, paired with its wrapped bounding
/// box, in index order.
pub open spec fn spec_inserted(bounds: Bounds, bodies: Seq<Body>, n: int) -> Seq<
    (usize, AxisAlignmentBoundingBox),
>
    decreases n,
{
    if n <= 0 {
        Seq::empty()
    } else {
        let prev = spec_inserted(bounds, bodies, n - 1);
        if bodies[n - 1].shape is Some {
            prev.push(((n - 1) as usize, spec_wrapped_aabb(bounds, bodies[n - 1])))
        } else {
            prev
        }
    }
}

/// The contacts a step collects: the narrow-phase result for each of the
/// first `n` candidate pairs, in pair order, keeping the colliding ones.
pub open spec fn spec_contacts(
    bounds: Bounds,
    bodies: Seq<Body>,
    pairs: Seq<(usize, usize)>,
    n: int,
) -> Seq<ContactInfo>
    decreases n,
{
    if n <= 0 {
        Seq::empty()
    } else {
        let prev = spec_contacts(bounds, bodies, pairs, n - 1);
        let pr = pairs[n - 1];
        match spec_test_collision(bounds, bodies[pr.0 as int], bodies[pr.1 as int]) {
            Some(contact) => prev.push(ContactInfo { first: pr.0, second: pr.1, contact }),
            None => prev,
        }
    }
}

/// The body list after resolving the first `n` contacts in generation
/// order: each contact applies its positional correction and then its
/// velocity correction to its two bodies, skipped when both carry zero
/// inverse mass.
pub open spec fn spec_resolved(bodies: Seq<Body>, contacts: Seq<ContactInfo>, n: int) -> Seq<Body>
    decreases n,
{
    if n <= 0 {
        bodies
    } else {
        let prev = spec_resolved(bodies, contacts, n - 1);
        let info = contacts[n - 1];
        let b1 = prev[info.first as int];
        let b2 = prev[info.second as int];
        if spec_add(b1.inverse_mass as int, b2.inverse_mass as int) != 0 {
            let m = crate::collision::spec_resolve_overlap(info.contact, b1, b2);
            let v = crate::collision::spec_resolve_velocity(info.contact, m.0, m.1);
            prev.update(info.first as int, v.0).update(info.second as int, v.1)
        } else {
            prev
        }
    }
}

/// Every body wrapped into the canonical domain.
pub open spec fn spec_wrap_bodies(bounds: Bounds, bodies: Seq<Body>) -> Seq<Body> {
    bodies.map_values(|b: Body| spec_wrap_body(bounds, b))
}

/// Resolution keeps the length of the body list.
pub proof fn lemma_resolved_len(bodies: Seq<Body>, contacts: Seq<ContactInfo>, n: int)
    requires
        0 <= n <= contacts.len(),
        forall|c: int|
            0 <= c < n ==> (#[trigger] contacts[c]).first < bodies.len() && contacts[c].second
                < bodies.len(),
    ensures
        spec_resolved(bodies, contacts, n).len() == bodies.len(),
    decreases n,
{
    if n > 0 {
        lemma_resolved_len(bodies, contacts, n - 1);
    }
}

/// A body named by no contact is left untouched by resolution.
pub proof fn lemma_resolved_untouched(bodies: Seq<Body>, contacts: Seq<ContactInfo>, n: int, i: int)
    requires
        0 <= n <= contacts.len(),
        0 <= i < bodies.len(),
        forall|c: int|
            0 <= c < n ==> (#[trigger] contacts[c]).first < bodies.len() && contacts[c].second
                < bodies.len(),
        forall|c: int|
            0 <= c < n ==> (#[trigger] contacts[c]).first != i && contacts[c].second != i,
    ensures
        spec_resolved(bodies, contacts, n)[i] == bodies[i],
    decreases n,
{
    if n > 0 {
        lemma_resolved_untouched(bodies, contacts, n - 1, i);
        lemma_resolved_len(bodies, contacts, n - 1);
    }
}

/// An insertion record matches the body list: the id names a collidable
/// body and the box is that body's wrapped bounding box.
spec fn rec_ok(rec: (usize, AxisAlignmentBoundingBox), bodies: Seq<Body>, bounds: Bounds) -> bool {
    &&& (rec.0 as int) < bodies.len()
    &&& bodies[rec.0 as int].shape is Some
    &&& rec.1 == spec_wrapped_aabb(bounds, bodies[rec.0 as int])
}

/// A buffered contact matches the body list: it pairs two distinct indices
/// and is exactly the narrow-phase result for those bodies.
spec fn contact_ok(info: ContactInfo, bodies: Seq<Body>, bounds: Bounds) -> bool {
    &&& (info.first as int) < bodies.len()
    &&& (info.second as int) < bodies.len()
    &&& info.first != info.second
    &&& spec_test_collision(bounds, bodies[info.first as int], bodies[info.second as int])
        == Some(info.contact)
    &&& in_range(info.contact.normal.x as int)
    &&& in_range(info.contact.normal.y as int)
}

/// After the five stages of a step, the final body list is the wrapped
/// resolution of the integrated list, and every body outside all contacts
/// is exactly integrated and wrapped.
proof fn lemma_update_finish(
    bounds: Bounds,
    old_bodies: Seq<Body>,
    dt: int,
    mid: Seq<Body>,
    contacts0: Seq<ContactInfo>,
    resolved: Seq<Body>,
    finalb: Seq<Body>,
)
    requires
        bounds.wf(),
        mid == spec_integrated(old_bodies, dt),
        resolved == spec_resolved(mid, contacts0, contacts0.len() as int),
        resolved.len() == mid.len(),
        finalb.len() == mid.len(),
        forall|k: int|
            0 <= k < contacts0.len() ==> contact_ok(#[trigger] contacts0[k], mid, bounds),
        bodies_separated(bounds, mid) ==> contacts0.len() == 0,
        forall|k: int|
            0 <= k < finalb.len() ==> #[trigger] finalb[k] == spec_wrap_body(bounds, resolved[k]),
        forall|k: int|
            0 <= k < resolved.len() ==> attrs_preserved(#[trigger] resolved[k], mid[k])
                && resolved[k].force == mid[k].force,
    ensures
        finalb == spec_wrap_bodies(bounds, resolved),
        forall|k: int|
            0 <= k < finalb.len() ==> attrs_preserved(#[trigger] finalb[k], old_bodies[k])
                && finalb[k].force == (Vec2 { x: 0, y: 0 }),
        bodies_separated(bounds, mid) ==> forall|k: int|
            0 <= k < finalb.len() ==> #[trigger] finalb[k] == spec_wrap_body(
                bounds,
                spec_integrate(old_bodies[k], dt),
            ),
        forall|i: int|
            0 <= i < old_bodies.len() && body_isolated(bounds, mid, i) ==> finalb[i]
                == spec_wrap_body(bounds, #[trigger] spec_integrate(old_bodies[i], dt)),
        forall|i: int|
            0 <= i < old_bodies.len() && old_bodies[i].shape is None ==> finalb[i]
                == spec_wrap_body(bounds, #[trigger] spec_integrate(old_bodies[i], dt)),
{
    let n = mid.len() as int;
    assert(finalb =~= spec_wrap_bodies(bounds, resolved));
    assert forall|k: int|
        0 <= k < finalb.len() implies attrs_preserved(#[trigger] finalb[k], old_bodies[k])
        && finalb[k].force == (Vec2 { x: 0, y: 0 }) by {
        assert(attrs_preserved(resolved[k], mid[k]));
        assert(mid[k] == spec_integrate(old_bodies[k], dt));
    }
    if bodies_separated(bounds, mid) {
        assert(resolved == mid);
        assert forall|k: int|
            0 <= k < finalb.len() implies #[trigger] finalb[k] == spec_wrap_body(
            bounds,
            spec_integrate(old_bodies[k], dt),
        ) by {
            assert(finalb[k] == spec_wrap_body(bounds, resolved[k]));
        }
    }
    assert forall|i: int|
        0 <= i < old_bodies.len() && body_isolated(bounds, mid, i) implies finalb[i]
        == spec_wrap_body(bounds, #[trigger] spec_integrate(old_bodies[i], dt)) by {
        assert forall|cc: int|
            0 <= cc < contacts0.len() implies (#[trigger] contacts0[cc]).first != i
            && contacts0[cc].second != i by {
            assert(contact_ok(contacts0[cc], mid, bounds));
            let f = contacts0[cc].first as int;
            let s = contacts0[cc].second as int;
            if f == i {
                assert(spec_test_collision(bounds, mid[i], mid[s]) is None);
                assert(false);
            }
            if s == i {
                assert(spec_test_collision(bounds, mid[f], mid[s]) is Some);
                crate::collision::lemma_test_collision_symmetric(bounds, mid[f], mid[i]);
                assert(spec_test_collision(bounds, mid[i], mid[f]) is None);
                assert(false);
            }
        }
        assert forall|cc: int|
            0 <= cc < contacts0.len() implies (#[trigger] contacts0[cc]).first < mid.len()
            && contacts0[cc].second < mid.len() by {
            assert(contact_ok(contacts0[cc], mid, bounds));
        }
        lemma_resolved_untouched(mid, contacts0, contacts0.len() as int, i);
        assert(resolved[i] == mid[i]);
        assert(finalb[i] == spec_wrap_body(bounds, resolved[i]));
        assert(mid[i] == spec_integrate(old_bodies[i], dt));
    }
    assert forall|i: int|
        0 <= i < old_bodies.len() && old_bodies[i].shape is None implies finalb[i]
        == spec_wrap_body(bounds, #[trigger] spec_integrate(old_bodies[i], dt)) by {
        assert(mid[i].shape is None);
        assert forall|j: int|
            0 <= j < mid.len() && j != i implies spec_test_collision(
            bounds,
            mid[i],
            #[trigger] mid[j],
        ) is None by {}
        assert(body_isolated(bounds, mid, i));
    }
}

/// The 2D toroidal world: bounds, bodies, and the broad-phase table,
/// stepped by `update`.
pub struct Space {
    pub bounds: Bounds,
    pub bodies: Vec<Body>,
    pub spatial_table: SpatialTable,
    /// Contact buffer, kept across steps to avoid reallocation.
    pub contacts_info: Vec<ContactInfo>,
}

impl Space {
    /// The bounds are non-empty, the spatial table covers them, and every
    /// body is well formed.
    pub open spec fn wf(self) -> bool {
        &&& self.bounds.wf()
        &&& self.spatial_table.wf()
        &&& self.spatial_table.space_width == self.bounds.width
        &&& self.spatial_table.space_height == self.bounds.height
        &&& forall|i: int| 0 <= i < self.bodies@.len() ==> (#[trigger] self.bodies@[i]).wf()
    }

    /// A space over a `width` by `height` toroidal domain with the default
    /// spatial cell size.
    pub fn new(width: u32, height: u32) -> (r: Space)
        requires
            width >= 1,
            height >= 1,
            grid_dim(width as int, default_cell_size(width as int)) <= u32::MAX,
            grid_dim(height as int, default_cell_size(width as int)) <= u32::MAX,
            grid_dim(width as int, default_cell_size(width as int)) * grid_dim(
                height as int,
                default_cell_size(width as int),
            ) <= usize::MAX,
        ensures
            r.wf(),
            r.bounds.width == width,
            r.bounds.height == height,
            r.bodies@.len() == 0,
            r.spatial_table.cell_size as int == default_cell_size(width as int),
    {
        let cell_size: i64 = (width as u64 * SCALE as u64 / 10) as i64;
        proof {
            assert(cell_size as int == default_cell_size(width as int));
            assert(cell_size >= 102) by (nonlinear_arith)
                requires
                    width >= 1,
                    SCALE == 1024,
                    cell_size as int == (width as int * SCALE) / 10,
            ;
        }
        Space {
            bounds: Bounds::new(width, height),
            bodies: Vec::new(),
            contacts_info: Vec::new(),
            spatial_table: SpatialTable::new(width, height, cell_size),
        }
    }

    /// A convenient method to choose the spatial cell size while building the
    /// space. The cell size is a performance heuristic: a value between one
    /// and two times the average shape size works well.
    pub fn with_optimization_cell_size(self, cell_size: i64) -> (r: Space)
        requires
            self.wf(),
            cell_size >= 1,
            grid_dim(self.bounds.width as int, cell_size as int) <= u32::MAX,
            grid_dim(self.bounds.height as int, cell_size as int) <= u32::MAX,
            grid_dim(self.bounds.width as int, cell_size as int) * grid_dim(
                self.bounds.height as int,
                cell_size as int,
            ) <= usize::MAX,
        ensures
            r.wf(),
            r.bounds == self.bounds,
            r.bodies@ == self.bodies@,
            r.spatial_table.cell_size == cell_size,
    {
        let table = SpatialTable::new(self.bounds.width, self.bounds.height, cell_size);
        Space { spatial_table: table, ..self }
    }

    /// The toroidal bounds of the space.
    pub fn bounds(&self) -> (r: &Bounds)
        ensures
            r == self.bounds,
    {
        &self.bounds
    }

    /// The bodies of the space, in insertion order.
    pub fn bodies(&self) -> (r: &Vec<Body>)
        ensures
            r == self.bodies,
    {
        &self.bodies
    }

    /// Mutable access to the bodies, for applying continuous forces between
    /// steps.
    pub fn bodies_mut(&mut self) -> (r: &mut Vec<Body>)
        ensures
            *r == old(self).bodies,
            final(self).bodies == *final(r),
            final(self).bounds == old(self).bounds,
            final(self).spatial_table == old(self).spatial_table,
            final(self).contacts_info == old(self).contacts_info,
    {
        &mut self.bodies
    }

    /// Main function that performs one physics step over the bodies in the
    /// space, in fixed order: integrate every body, rebuild the spatial
    /// table from every collidable body's wrapped bounding box, test every
    /// broad-phase candidate pair, resolve the surviving contacts in
    /// generation order, and wrap every position back into the canonical
    /// domain. `dt` is the integration interval: one call is exactly one
    /// physics tick. A contact both of whose bodies have zero inverse mass
    /// admits no mass-weighted correction and is skipped.
    #[verifier::loop_isolation(false)]
    #[verifier::rlimit(100)]
    pub fn update(&mut self, dt: i64)
        requires
            old(self).wf(),
            dt >= 0,
        ensures
            final(self).wf(),
            final(self).bounds == old(self).bounds,
            final(self).bodies@.len() == old(self).bodies@.len(),
            forall|i: int|
                0 <= i < final(self).bodies@.len() ==> attrs_preserved(
                    #[trigger] final(self).bodies@[i],
                    old(self).bodies@[i],
                ),
            forall|i: int|
                0 <= i < final(self).bodies@.len() ==> (#[trigger] final(self).bodies@[i]).force
                    == (Vec2 { x: 0, y: 0 }),
            forall|i: int|
                0 <= i < final(self).bodies@.len() ==> position_canonical(
                    final(self).bounds,
                    #[trigger] final(self).bodies@[i],
                ),
            bodies_separated(old(self).bounds, spec_integrated(old(self).bodies@, dt as int))
                ==> forall|i: int|
                0 <= i < final(self).bodies@.len() ==> final(self).bodies@[i] == spec_wrap_body(
                    old(self).bounds,
                    spec_integrate(old(self).bodies@[i], dt as int),
                ),
            final(self).spatial_table.inserted@ == spec_inserted(
                old(self).bounds,
                spec_integrated(old(self).bodies@, dt as int),
                old(self).bodies@.len() as int,
            ),
            final(self).contacts_info@ == spec_contacts(
                old(self).bounds,
                spec_integrated(old(self).bodies@, dt as int),
                final(self).spatial_table.pairs@,
                final(self).spatial_table.pairs@.len() as int,
            ),
            final(self).bodies@ == spec_wrap_bodies(
                old(self).bounds,
                spec_resolved(
                    spec_integrated(old(self).bodies@, dt as int),
                    final(self).contacts_info@,
                    final(self).contacts_info@.len() as int,
                ),
            ),
            forall|i: int|
                0 <= i < old(self).bodies@.len() && body_isolated(
                    old(self).bounds,
                    spec_integrated(old(self).bodies@, dt as int),
                    i,
                ) ==> final(self).bodies@[i] == spec_wrap_body(
                    old(self).bounds,
                    #[trigger] spec_integrate(old(self).bodies@[i], dt as int),
                ),
            forall|i: int|
                0 <= i < old(self).bodies@.len() && old(self).bodies@[i].shape is None
                    ==> final(self).bodies@[i] == spec_wrap_body(
                    old(self).bounds,
                    #[trigger] spec_integrate(old(self).bodies@[i], dt as int),
                ),
    {
        let n: usize = self.bodies.len();

        // Integrate every body.
        let mut i: usize = 0;
        while i < n
            invariant
                i <= n,
                n == self.bodies@.len(),
                forall|k: int|
                    0 <= k < i ==> #[trigger] self.bodies@[k] == spec_integrate(
                        old(self).bodies@[k],
                        dt as int,
                    ),
                forall|k: int| i <= k < n ==> #[trigger] self.bodies@[k] == old(self).bodies@[k],
                forall|k: int| 0 <= k < n ==> (#[trigger] self.bodies@[k]).wf(),
                self.bounds == old(self).bounds,
                self.spatial_table == old(self).spatial_table,
                self.contacts_info == old(self).contacts_info,
            decreases n - i,
        {
            let mut b = self.bodies[i];
            b.integrate(dt);
            self.bodies[i] = b;
            i += 1;
        }
        let ghost mid = self.bodies@;
        proof {
            assert(mid =~= spec_integrated(old(self).bodies@, dt as int));
        }

        // Rebuild the spatial table from the wrapped bounding boxes.
        self.spatial_table.clear();
        let mut i: usize = 0;
        while i < n
            invariant
                i <= n,
                n == self.bodies@.len(),
                self.bodies@ == mid,
                self.bounds == old(self).bounds,
                self.spatial_table.wf(),
                self.spatial_table.space_width == self.bounds.width,
                self.spatial_table.space_height == self.bounds.height,
                self.contacts_info == old(self).contacts_info,
                self.spatial_table.inserted@ == spec_inserted(self.bounds, mid, i as int),
                forall|k: int|
                    0 <= k < self.spatial_table.inserted@.len() ==> rec_ok(
                        #[trigger] self.spatial_table.inserted@[k],
                        mid,
                        self.bounds,
                    ),
                forall|k: int|
                    0 <= k < self.spatial_table.inserted@.len() ==> (
                    #[trigger] self.spatial_table.inserted@[k]).0 < i,
            decreases n - i,
        {
            let body = self.bodies[i];
            match body.aabb() {
                Some(aabb) => {
                    let wrapped = self.bounds.get_toroidal_aabb(&aabb);
                    proof {
                        assert(wrapped == spec_wrapped_aabb(self.bounds, mid[i as int]));
                        assert(self.spatial_table.box_valid(wrapped));
                    }
                    self.spatial_table.insert(i, &wrapped);
                    proof {
                        assert(mid[i as int].shape is Some);
                        assert(self.spatial_table.inserted@ == spec_inserted(
                            self.bounds,
                            mid,
                            i as int,
                        ).push((i, spec_wrapped_aabb(self.bounds, mid[i as int]))));
                        assert(self.spatial_table.inserted@ == spec_inserted(
                            self.bounds,
                            mid,
                            i as int + 1,
                        ));
                    }
                },
                None => {
                    proof {
                        assert(mid[i as int].shape is None);
                        assert(self.spatial_table.inserted@ == spec_inserted(
                            self.bounds,
                            mid,
                            i as int + 1,
                        ));
                    }
                },
            }
            i += 1;
        }
        let ghost recs = self.spatial_table.inserted@;
        let ghost table1 = self.spatial_table;
        proof {
            assert(recs == spec_inserted(self.bounds, mid, n as int));
        }

        // Narrow phase over the broad-phase candidate pairs.
        let bounds = self.bounds;
        let resolver = CollisionResolver::new(&bounds);
        self.contacts_info.clear();
        let num_pairs: usize = self.spatial_table.pairs().len();
        let mut p: usize = 0;
        while p < num_pairs
            invariant
                p <= num_pairs,
                n == self.bodies@.len(),
                self.bodies@ == mid,
                self.bounds == old(self).bounds,
                bounds == self.bounds,
                resolver.bounds == &bounds,
                self.spatial_table == table1,
                num_pairs == self.spatial_table.pairs@.len(),
                self.contacts_info@ == spec_contacts(
                    self.bounds,
                    mid,
                    self.spatial_table.pairs@,
                    p as int,
                ),
                forall|k: int|
                    0 <= k < self.contacts_info@.len() ==> contact_ok(
                        #[trigger] self.contacts_info@[k],
                        mid,
                        self.bounds,
                    ),
                bodies_separated(self.bounds, mid) ==> self.contacts_info@.len() == 0,
            decreases num_pairs - p,
        {
            let prs = self.spatial_table.pairs();
            let pair: (usize, usize) = prs[p];
            proof {
                assert(pair_is_sound(recs, self.spatial_table.pairs@[p as int]));
                let (k1, k2) = choose|k1: int, k2: int|
                    0 <= k1 < k2 < recs.len() && pair == (
                    (#[trigger] recs[k2]).0,
                    (#[trigger] recs[k1]).0,
                    );
                assert(rec_ok(recs[k1], mid, self.bounds));
                assert(rec_ok(recs[k2], mid, self.bounds));
                assert(recs[k1].0 != recs[k2].0);
            }
            let b1 = self.bodies[pair.0];
            let b2 = self.bodies[pair.1];
            match resolver.test_collision(&b1, &b2) {
                Some(contact) => {
                    proof {
                        if bodies_separated(self.bounds, mid) {
                            let a = pair.0 as int;
                            let b = pair.1 as int;
                            if a < b {
                                assert(spec_test_collision(self.bounds, mid[a], mid[b]) is None);
                            } else {
                                assert(spec_test_collision(self.bounds, mid[b], mid[a]) is None);
                                crate::collision::lemma_test_collision_symmetric(
                                    self.bounds,
                                    mid[a],
                                    mid[b],
                                );
                            }
                            assert(false);
                        }
                    }
                    self.contacts_info.push(
                        ContactInfo { first: pair.0, second: pair.1, contact },
                    );
                    proof {
                        assert(self.contacts_info@ == spec_contacts(
                            self.bounds,
                            mid,
                            self.spatial_table.pairs@,
                            p as int + 1,
                        ));
                    }
                },
                None => {
                    proof {
                        assert(self.contacts_info@ == spec_contacts(
                            self.bounds,
                            mid,
                            self.spatial_table.pairs@,
                            p as int + 1,
                        ));
                    }
                },
            }
            p += 1;
        }
        let ghost contacts0 = self.contacts_info@;
        proof {
            assert(contacts0 == spec_contacts(
                self.bounds,
                mid,
                table1.pairs@,
                table1.pairs@.len() as int,
            ));
        }

        // Resolve the surviving contacts in generation order.
        let num_contacts: usize = self.contacts_info.len();
        let mut c: usize = 0;
        while c < num_contacts
            invariant
                c <= num_contacts,
                n == self.bodies@.len(),
                self.bounds == old(self).bounds,
                self.spatial_table == table1,
                self.contacts_info@ == contacts0,
                num_contacts == contacts0.len(),
                forall|k: int| 0 <= k < n ==> (#[trigger] self.bodies@[k]).wf(),
                self.bodies@ == spec_resolved(mid, contacts0, c as int),
                forall|k: int|
                    0 <= k < n ==> attrs_preserved(#[trigger] self.bodies@[k], mid[k])
                        && self.bodies@[k].force == mid[k].force,
                bodies_separated(self.bounds, mid) ==> self.bodies@ == mid,
            decreases num_contacts - c,
        {
            let info = self.contacts_info[c];
            proof {
                assert(contact_ok(contacts0[c as int], mid, self.bounds));
            }
            proof {
                assert forall|cc: int|
                    0 <= cc < contacts0.len() implies (#[trigger] contacts0[cc]).first < mid.len()
                    && contacts0[cc].second < mid.len() by {
                    assert(contact_ok(contacts0[cc], mid, self.bounds));
                }
                lemma_resolved_len(mid, contacts0, c as int);
            }
            let ghost prev = self.bodies@;
            let im1 = self.bodies[info.first].inverse_mass;
            let im2 = self.bodies[info.second].inverse_mass;
            let total = sat_add(im1, im2);
            if total != 0 {
                proof {
                    if bodies_separated(self.bounds, mid) {
                        assert(contacts0.len() == 0);
                        assert(false);
                    }
                }
                let (b1, b2) = self.bodies.get_two_mut(info.first, info.second);
                info.contact.resolve_overlap(b1, b2);
                info.contact.resolve_velocity(b1, b2);
                proof {
                    let m = crate::collision::spec_resolve_overlap(
                        info.contact,
                        prev[info.first as int],
                        prev[info.second as int],
                    );
                    let v = crate::collision::spec_resolve_velocity(info.contact, m.0, m.1);
                    assert(self.bodies@ == prev.update(info.first as int, v.0).update(
                        info.second as int,
                        v.1,
                    ));
                    assert(self.bodies@ == spec_resolved(mid, contacts0, c as int + 1));
                }
            } else {
                proof {
                    assert(self.bodies@ == spec_resolved(mid, contacts0, c as int + 1));
                }
            }
            c += 1;
        }
        let ghost resolved = self.bodies@;

        // Wrap every position back into the canonical domain.
        let mut i: usize = 0;
        while i < n
            invariant
                i <= n,
                n == self.bodies@.len(),
                self.bounds == old(self).bounds,
                self.spatial_table == table1,
                self.contacts_info@ == contacts0,
                forall|k: int|
                    0 <= k < i ==> #[trigger] self.bodies@[k] == spec_wrap_body(
                        self.bounds,
                        resolved[k],
                    ),
                forall|k: int| i <= k < n ==> #[trigger] self.bodies@[k] == resolved[k],
                forall|k: int| 0 <= k < n ==> (#[trigger] self.bodies@[k]).wf(),
                forall|k: int|
                    0 <= k < i ==> position_canonical(self.bounds, #[trigger] self.bodies@[k]),
            decreases n - i,
        {
            let wrapped = self.bounds.get_toroidal_position(self.bodies[i].position());
            let mut b = self.bodies[i];
            b.set_position(wrapped);
            self.bodies[i] = b;
            i += 1;
        }
        proof {
            lemma_update_finish(
                old(self).bounds,
                old(self).bodies@,
                dt as int,
                mid,
                contacts0,
                resolved,
                self.bodies@,
            );
            assert(self.contacts_info@ == spec_contacts(
                old(self).bounds,
                spec_integrated(old(self).bodies@, dt as int),
                self.spatial_table.pairs@,
                self.spatial_table.pairs@.len() as int,
            ));
        }
    }

    /// Add a body, wrapping its position into the canonical domain.
    pub fn add(&mut self, body: Body)
        requires
            old(self).wf(),
            body.wf(),
        ensures
            final(self).wf(),
            final(self).bodies@ == old(self).bodies@.push(spec_wrap_body(old(self).bounds, body)),
            final(self).bounds == old(self).bounds,
    {
        let mut body = body;
        let wrapped = self.bounds.get_toroidal_position(body.position());
        body.set_position(wrapped);
        self.bodies.push(body);
    }
}

} // verus!
