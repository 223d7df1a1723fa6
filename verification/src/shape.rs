//! Narrow-phase geometry for axis-aligned boxes: the overlap test and the
//! contact-manifold construction for one candidate pair.
//!
//! The two-entry, per-axis manifold is a box-specific shortcut kept isolated
//! here, so a more general narrow phase could replace it without touching the
//! stepping or query contracts.

use vstd::prelude::*;

use crate::fp::fp_abs;
use crate::fp::fp_add;
use crate::fp::iabs;
use crate::fp::fp_mul;
use crate::fp::fp_sub;
use crate::fp::FP;
use crate::fp::ONE_BITS;
use crate::vector2::Vec2;

verus! {

/// Collision shape of a collider.
#[derive(Clone, Copy, Debug, PartialEq, Eq, Structural)]
pub enum Shape {
    /// An axis-aligned box; stores the half extents.
    AABB(Vec2),
}

impl Shape {
    /// The half extents of the shape's bounding box.
    pub fn half_extents(&self) -> (r: Vec2)
        ensures
            match *self {
                Shape::AABB(v) => r == v,
            },
    {
        match self {
            Shape::AABB(v) => *v,
        }
    }
}

/// Axis-aligned box record: a symmetric box around a reference point, held
/// as half extents.
#[derive(Clone, Copy, Debug, PartialEq, Eq, Structural)]
pub struct AABB {
    pub half_exts: Vec2,
}

impl AABB {
    /// The shape sum-type form of this box.
    pub fn shape(&self) -> (r: Shape)
        ensures
            r == Shape::AABB(self.half_exts),
    {
        Shape::AABB(self.half_exts)
    }
}

/// Penetration along one axis: a depth, an axis-aligned unit normal and an
/// approximated contact point.
#[derive(Clone, Copy, Debug, PartialEq, Eq, Structural)]
pub struct Contact {
    pub depth: FP,
    pub normal: Vec2,
    pub contact_point: Vec2,
}

impl Contact {
    /// Assemble a contact from its parts.
    pub fn new(depth: FP, normal: Vec2, contact_point: Vec2) -> (r: Contact)
        ensures
            r == (Contact { depth, normal, contact_point }),
    {
        Contact { depth, normal, contact_point }
    }
}

/// Up to two per-axis contacts for one box pair. Built only from an
/// overlapping pair, which always yields both axis entries together.
#[derive(Clone, Copy, Debug, PartialEq, Eq, Structural)]
pub struct ContactManifold {
    pub first: Option<Contact>,
    pub second: Option<Contact>,
}

/// The manifold entry with the smaller depth: the axis needing the least
/// correction.
pub open spec fn spec_best_contact(m: ContactManifold) -> Contact {
    if m.first.is_some() && m.second.is_some() {
        if m.first.unwrap().depth@ < m.second.unwrap().depth@ {
            m.first.unwrap()
        } else {
            m.second.unwrap()
        }
    } else {
        m.first.unwrap()
    }
}

impl ContactManifold {
    /// Assemble a manifold from both axis contacts.
    pub fn from_contacts(contact1: Contact, contact2: Contact) -> (r: ContactManifold)
        ensures
            r == (ContactManifold { first: Some(contact1), second: Some(contact2) }),
    {
        ContactManifold { first: Some(contact1), second: Some(contact2) }
    }

    /// The contact with minimum depth — the minimum-penetration heuristic
    /// for a box-vs-box translation. An empty manifold is an invariant
    /// violation and is excluded by precondition.
    pub fn best_contact(&self) -> (r: &Contact)
        requires
            self.first.is_some(),
        ensures
            *r == spec_best_contact(*self),
    {
        match (&self.first, &self.second) {
            (Some(contact1), Some(contact2)) => {
                if contact1.depth.lt(contact2.depth) {
                    contact1
                } else {
                    contact2
                }
            },
            (Some(contact), None) => contact,
            (None, _) => unreached(),
        }
    }
}

/// Raw bits of the per-axis overlap amount `(ha + hb) - |bc - ac|` between
/// centers `ac`, `bc` with half extents `ha`, `hb`.
pub open spec fn spec_overlap_1d(ac: int, ha: int, bc: int, hb: int) -> int {
    fp_sub(fp_add(ha, hb), fp_abs(fp_sub(bc, ac)))
}

/// Two boxes intersect exactly when the overlap amount is strictly positive
/// on both axes; boxes that merely touch at an edge do not overlap.
pub open spec fn spec_overlap(a_loc: Vec2, a_half: Vec2, b_loc: Vec2, b_half: Vec2) -> bool {
    spec_overlap_1d(a_loc.x@, a_half.x@, b_loc.x@, b_half.x@) > 0 && spec_overlap_1d(
        a_loc.y@,
        a_half.y@,
        b_loc.y@,
        b_half.y@,
    ) > 0
}

/// Sign of a center-to-center distance, as a fixed-point unit; a tie (zero
/// distance) resolves to positive.
pub open spec fn spec_sign_unit(v: int) -> int {
    if v < 0 {
        -(ONE_BITS as int)
    } else {
        ONE_BITS as int
    }
}

/// The x-axis contact of an overlapping pair: depth is the x overlap amount,
/// the normal points along x toward box b, and the contact point sits at the
/// midpoint of box a's facing edge (an accepted approximation).
pub open spec fn spec_contact_x(a_loc: Vec2, a_half: Vec2, b_loc: Vec2, b_half: Vec2) -> Contact {
    let n = spec_sign_unit(fp_sub(b_loc.x@, a_loc.x@));
    Contact {
        depth: FP { bits: spec_overlap_1d(a_loc.x@, a_half.x@, b_loc.x@, b_half.x@) as i64 },
        normal: Vec2 { x: FP { bits: n as i64 }, y: FP { bits: 0 } },
        contact_point: Vec2 {
            x: FP { bits: fp_add(a_loc.x@, fp_mul(a_half.x@, n)) as i64 },
            y: a_loc.y,
        },
    }
}

/// The y-axis contact of an overlapping pair, mirroring `spec_contact_x`.
pub open spec fn spec_contact_y(a_loc: Vec2, a_half: Vec2, b_loc: Vec2, b_half: Vec2) -> Contact {
    let n = spec_sign_unit(fp_sub(b_loc.y@, a_loc.y@));
    Contact {
        depth: FP { bits: spec_overlap_1d(a_loc.y@, a_half.y@, b_loc.y@, b_half.y@) as i64 },
        normal: Vec2 { x: FP { bits: 0 }, y: FP { bits: n as i64 } },
        contact_point: Vec2 {
            x: a_loc.x,
            y: FP { bits: fp_add(a_loc.y@, fp_mul(a_half.y@, n)) as i64 },
        },
    }
}

/// The manifold an overlapping pair produces: both axis entries together.
pub open spec fn spec_manifold(a_loc: Vec2, a_half: Vec2, b_loc: Vec2, b_half: Vec2) -> ContactManifold {
    ContactManifold {
        first: Some(spec_contact_x(a_loc, a_half, b_loc, b_half)),
        second: Some(spec_contact_y(a_loc, a_half, b_loc, b_half)),
    }
}

/// Sign of a fixed-point value as a fixed-point unit, ties to positive.
fn sign_unit(v: FP) -> (r: FP)
    ensures
        r@ == spec_sign_unit(v@),
{
    if v.is_negative() {
        FP::from_bits(-ONE_BITS)
    } else {
        FP::from_bits(ONE_BITS)
    }
}

/// Overlap test for two axis-aligned boxes given by center and half extents:
/// true exactly when they intersect on both axes with strict inequality.
pub fn collision_aabb_aabb(a_loc: Vec2, a_half_exts: Vec2, b_loc: Vec2, b_half_exts: Vec2) -> (r:
    bool)
    ensures
        r == spec_overlap(a_loc, a_half_exts, b_loc, b_half_exts),
{
    let distance = b_loc.sub(a_loc);
    let overlap = a_half_exts.add(b_half_exts).sub(distance.abs());
    overlap.x.is_positive() && overlap.y.is_positive()
}

/// Contact-manifold construction for two axis-aligned boxes: `None` exactly
/// when the boxes do not overlap, otherwise both per-axis contacts. Contact
/// points are approximated at the middle of the facing side.
pub fn collision_aabb_aabb_manifold(
    a_loc: Vec2,
    a_half_exts: Vec2,
    b_loc: Vec2,
    b_half_exts: Vec2,
) -> (r: Option<ContactManifold>)
    ensures
        r.is_some() == spec_overlap(a_loc, a_half_exts, b_loc, b_half_exts),
        r.is_some() ==> r.unwrap() == spec_manifold(a_loc, a_half_exts, b_loc, b_half_exts),
{
    let distance = b_loc.sub(a_loc);
    let overlap = a_half_exts.add(b_half_exts).sub(distance.abs());
    if !overlap.x.is_positive() || !overlap.y.is_positive() {
        return None;
    }
    let depth1 = overlap.x;
    let normal1 = Vec2::new(sign_unit(distance.x), FP::zero());
    let contact_point_x = Vec2::new(a_loc.x.add(a_half_exts.x.mul(normal1.x)), a_loc.y);
    let contact1 = Contact::new(depth1, normal1, contact_point_x);

    let depth2 = overlap.y;
    let normal2 = Vec2::new(FP::zero(), sign_unit(distance.y));
    let contact_point_y = Vec2::new(a_loc.x, a_loc.y.add(a_half_exts.y.mul(normal2.y)));
    let contact2 = Contact::new(depth2, normal2, contact_point_y);

    Some(ContactManifold::from_contacts(contact1, contact2))
}

/// The overlap test is symmetric in its two boxes, for every placement,
/// saturation included.
pub proof fn lemma_overlap_symmetric(a_loc: Vec2, a_half: Vec2, b_loc: Vec2, b_half: Vec2)
    ensures
        spec_overlap(a_loc, a_half, b_loc, b_half) == spec_overlap(b_loc, b_half, a_loc, a_half),
{
    assert(fp_abs(fp_sub(b_loc.x@, a_loc.x@)) == fp_abs(fp_sub(a_loc.x@, b_loc.x@)));
    assert(fp_abs(fp_sub(b_loc.y@, a_loc.y@)) == fp_abs(fp_sub(a_loc.y@, b_loc.y@)));
}

/// Correctness of a full positional correction: moving the first box
/// against the contact normal by the whole overlap amount leaves the two
/// boxes exactly touching on that axis — the penetration is gone, and
/// no gap opens either. Stated per axis over raw bits, away from the
/// saturation boundary.
pub proof fn lemma_full_correction_separates_axis(a: int, ha: int, b: int, hb: int)
    requires
        0 <= ha && 0 <= hb,
        iabs(a) + ha + hb <= i64::MAX as int,
        iabs(b) + ha + hb <= i64::MAX as int,
        spec_overlap_1d(a, ha, b, hb) > 0,
    ensures
        ({
            let ov = spec_overlap_1d(a, ha, b, hb);
            let n = spec_sign_unit(fp_sub(b, a));
            let push = fp_mul(n, ov);
            spec_overlap_1d(fp_sub(a, push), ha, b, hb) == 0
        }),
{
    let ov = spec_overlap_1d(a, ha, b, hb);
    let n = spec_sign_unit(fp_sub(b, a));
    assert(fp_mul(65536, ov) == ov && fp_mul(-65536, ov) == -ov) by {
        assert((65536 * ov) / 65536 == ov && (65536 * (-ov)) / 65536 == -ov) by (nonlinear_arith);
    }
}

/// For an overlapping pair with non-negative half extents whose per-axis
/// sums stay representable, the best contact's depth lies between zero and
/// the smaller of the two half-extent component sums.
pub proof fn lemma_best_contact_depth_bound(a_loc: Vec2, a_half: Vec2, b_loc: Vec2, b_half: Vec2)
    requires
        spec_overlap(a_loc, a_half, b_loc, b_half),
        0 <= a_half.x@ && 0 <= a_half.y@,
        0 <= b_half.x@ && 0 <= b_half.y@,
        a_half.x@ + b_half.x@ <= i64::MAX as int,
        a_half.y@ + b_half.y@ <= i64::MAX as int,
    ensures
        0 <= spec_best_contact(spec_manifold(a_loc, a_half, b_loc, b_half)).depth@,
        spec_best_contact(spec_manifold(a_loc, a_half, b_loc, b_half)).depth@ <= a_half.x@
            + b_half.x@,
        spec_best_contact(spec_manifold(a_loc, a_half, b_loc, b_half)).depth@ <= a_half.y@
            + b_half.y@,
{
    let ox = spec_overlap_1d(a_loc.x@, a_half.x@, b_loc.x@, b_half.x@);
    let oy = spec_overlap_1d(a_loc.y@, a_half.y@, b_loc.y@, b_half.y@);
    assert(ox <= a_half.x@ + b_half.x@);
    assert(oy <= a_half.y@ + b_half.y@);
    let best = spec_best_contact(spec_manifold(a_loc, a_half, b_loc, b_half));
    assert(best.depth@ == if ox < oy {
        ox
    } else {
        oy
    });
}

} // verus!
