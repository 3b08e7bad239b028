//! Grid coordinates, fixed-point world positions, and the pick rule's
//! coordinate resolution.

use vstd::prelude::*;

verus! {

use vstd::arithmetic::div_mod::lemma_fundamental_div_mod;
use vstd::arithmetic::div_mod::lemma_fundamental_div_mod_converse_div;
use vstd::arithmetic::div_mod::lemma_mod_bound;

/// Number of fixed-point steps in one world unit: world-space positions are
/// held in thousandths of a unit.
pub const MILLIS_PER_UNIT: i32 = 1000;

/// Half a world unit, in fixed-point steps.
pub const HALF_UNIT: i32 = 500;

/// The integer grid cell a block occupies.
#[derive(Clone, Copy, PartialEq, Eq, Structural, Debug, Hash)]
pub struct Coord {
    pub x: i32,
    pub y: i32,
    pub z: i32,
}

/// A world-space point in fixed point: each component counts thousandths of a
/// world unit, so the point `(0.4, 0.6, 0.4)` is written `(400, 600, 400)`.
#[derive(Clone, Copy, PartialEq, Eq, Structural, Debug)]
pub struct WorldPoint {
    pub x: i32,
    pub y: i32,
    pub z: i32,
}

/// Floor of `(m + shift) / 1000`: the whole world unit that the shifted
/// fixed-point component `m` falls in.
pub open spec fn floor_units(m: int, shift: int) -> int {
    (m + shift) / (MILLIS_PER_UNIT as int)
}

/// Grid column selected by the pick rule for a point's x component: the
/// component is shifted up by half a unit and floored.
pub open spec fn candidate_x(p: WorldPoint) -> int {
    floor_units(p.x as int, HALF_UNIT as int)
}

/// Grid row selected by the pick rule for a point's y component: the
/// component is shifted down by half a unit and floored. The downward shift
/// mirrors the x and z shifts; it compensates for a half-unit rendering
/// offset on the y axis and is kept exactly as observed.
pub open spec fn candidate_y(p: WorldPoint) -> int {
    floor_units(p.y as int, -(HALF_UNIT as int))
}

/// Grid column selected by the pick rule for a point's z component.
pub open spec fn candidate_z(p: WorldPoint) -> int {
    floor_units(p.z as int, HALF_UNIT as int)
}

/// The candidate block coordinate for intersection point `p`:
/// `(floor(x + 1/2), floor(y - 1/2), floor(z + 1/2))` in world units.
pub open spec fn candidate_coord(p: WorldPoint) -> Coord {
    Coord {
        x: candidate_x(p) as i32,
        y: candidate_y(p) as i32,
        z: candidate_z(p) as i32,
    }
}

/// The floored shifted component of any representable point stays well inside
/// the `i32` range, so `candidate_coord` loses nothing in its casts.
pub proof fn lemma_floor_units_in_range(m: int, shift: int)
    requires
        i32::MIN <= m <= i32::MAX,
        -500 <= shift <= 500,
    ensures
        -3_000_000 <= floor_units(m, shift) <= 3_000_000,
{
    let s = m + shift;
    lemma_fundamental_div_mod(s, 1000);
    lemma_mod_bound(s, 1000);
}

/// Characterisation of the floor: `floor_units(m, shift) == c` exactly when
/// the shifted component lies in `[1000 c, 1000 (c + 1))`.
pub proof fn lemma_floor_units_iff(m: int, shift: int, c: int)
    ensures
        floor_units(m, shift) == c <==> 1000 * c <= m + shift < 1000 * (c + 1),
{
    let s = m + shift;
    lemma_fundamental_div_mod(s, 1000);
    lemma_mod_bound(s, 1000);
    if 1000 * c <= s < 1000 * (c + 1) {
        lemma_fundamental_div_mod_converse_div(s, 1000, c, s - 1000 * c);
    }
}

/// Law: the pick rule selects coordinate `c` exactly when the point lies in
/// the half-open box
/// `[c.x - 1/2, c.x + 1/2) x [c.y + 1/2, c.y + 3/2) x [c.z - 1/2, c.z + 1/2)`
/// (in world units; bounds below are in fixed-point thousandths). On x and z
/// the box is the block's own unit cube; on y it sits half a unit higher,
/// following the rule's downward y shift.
pub proof fn lemma_candidate_iff_in_pick_box(p: WorldPoint, c: Coord)
    ensures
        candidate_coord(p) == c <==> {
            &&& 1000 * c.x - 500 <= p.x < 1000 * c.x + 500
            &&& 1000 * c.y + 500 <= p.y < 1000 * c.y + 1500
            &&& 1000 * c.z - 500 <= p.z < 1000 * c.z + 500
        },
{
    lemma_floor_units_in_range(p.x as int, 500);
    lemma_floor_units_in_range(p.y as int, -500);
    lemma_floor_units_in_range(p.z as int, 500);
    lemma_floor_units_iff(p.x as int, 500, c.x as int);
    lemma_floor_units_iff(p.y as int, -500, c.y as int);
    lemma_floor_units_iff(p.z as int, 500, c.z as int);
}

/// Law (pick correctness): a point anywhere in a block's picking box — offset
/// `eps_x`, `eps_y`, `eps_z` thousandths from its low corner — resolves to
/// that block's coordinate.
pub proof fn lemma_pick_box_resolves(c: Coord, p: WorldPoint, eps_x: int, eps_y: int, eps_z: int)
    requires
        0 <= eps_x < 1000,
        0 <= eps_y < 1000,
        0 <= eps_z < 1000,
        p.x == 1000 * c.x - 500 + eps_x,
        p.y == 1000 * c.y + 500 + eps_y,
        p.z == 1000 * c.z - 500 + eps_z,
    ensures
        candidate_coord(p) == c,
{
    lemma_candidate_iff_in_pick_box(p, c);
}

/// Floor of `(m + shift) / 1000`, computed exactly on integers by shifting
/// into non-negative range and using unsigned division.
fn floor_unit(m: i32, shift: i32) -> (q: i32)
    requires
        -500 <= shift <= 500,
    ensures
        q as int == floor_units(m as int, shift as int),
{
    let t: u64 = (m as i64 + shift as i64 + 2_200_000_000_000) as u64;
    let d: u64 = t / 1000;
    let q64: i64 = d as i64 - 2_200_000_000;
    proof {
        let s = m as int + shift as int;
        let c = s / 1000;
        let r = s % 1000;
        lemma_fundamental_div_mod(s, 1000);
        lemma_mod_bound(s, 1000);
        assert(t as int == (c + 2_200_000_000) * 1000 + r);
        lemma_fundamental_div_mod_converse_div(t as int, 1000, c + 2_200_000_000, r);
        lemma_floor_units_in_range(m as int, shift as int);
    }
    q64 as i32
}

/// The block coordinate the pick rule selects for intersection point `p`:
/// each component is shifted by half a unit (up on x and z, down on y) and
/// floored to a whole unit.
pub fn resolve_candidate(p: WorldPoint) -> (c: Coord)
    ensures
        c == candidate_coord(p),
{
    proof {
        lemma_floor_units_in_range(p.x as int, 500);
        lemma_floor_units_in_range(p.y as int, -500);
        lemma_floor_units_in_range(p.z as int, 500);
    }
    Coord {
        x: floor_unit(p.x, HALF_UNIT),
        y: floor_unit(p.y, -HALF_UNIT),
        z: floor_unit(p.z, HALF_UNIT),
    }
}

} // verus!
