//! Resolving one primary-press pick against the registry.

use vstd::prelude::*;

verus! {

use crate::coords::Coord;
use crate::coords::WorldPoint;
use crate::coords::candidate_coord;
use crate::coords::lemma_pick_box_resolves;
use crate::coords::resolve_candidate;
use crate::registry::BlockRegistry;

/// What one pick resolved to: a hit — the block at the carried coordinate was
/// removed — or a miss — the resolved coordinate held no block, carried for
/// diagnostics, and nothing was removed.
#[derive(Clone, Copy, PartialEq, Eq, Structural, Debug)]
pub enum PickOutcome {
    Hit(Coord),
    Miss(Coord),
}

/// The outcome a pick at point `p` has against contents `pre`: a hit on the
/// candidate cell of the floor rule when a block stands there, else a miss
/// reporting that cell.
pub open spec fn spec_pick_outcome(pre: Map<Coord, i32>, p: WorldPoint) -> PickOutcome {
    let c = candidate_coord(p);
    if pre.dom().contains(c) {
        PickOutcome::Hit(c)
    } else {
        PickOutcome::Miss(c)
    }
}

/// The contents after a pick at `p`: a hit removes the one block at the
/// candidate cell, a miss leaves the registry unchanged. At most one block is
/// removed per pick.
pub open spec fn spec_pick_post(pre: Map<Coord, i32>, p: WorldPoint) -> Map<Coord, i32> {
    let c = candidate_coord(p);
    if pre.dom().contains(c) {
        pre.remove(c)
    } else {
        pre
    }
}

/// Law (pick correctness): when a block stands at `c` and the intersection
/// point lies anywhere in `c`'s picking box — offset `eps_x`, `eps_y`,
/// `eps_z` thousandths of a unit from the box's low corner — a pick at that
/// point hits exactly `c`: the outcome is `Hit(c)` and precisely that one
/// block is removed.
pub proof fn lemma_pick_hits_containing_block(
    pre: Map<Coord, i32>,
    c: Coord,
    p: WorldPoint,
    eps_x: int,
    eps_y: int,
    eps_z: int,
)
    requires
        pre.dom().contains(c),
        0 <= eps_x < 1000,
        0 <= eps_y < 1000,
        0 <= eps_z < 1000,
        p.x == 1000 * c.x - 500 + eps_x,
        p.y == 1000 * c.y + 500 + eps_y,
        p.z == 1000 * c.z - 500 + eps_z,
    ensures
        spec_pick_outcome(pre, p) == PickOutcome::Hit(c),
        spec_pick_post(pre, p) == pre.remove(c),
{
    lemma_pick_box_resolves(c, p, eps_x, eps_y, eps_z);
}

/// Resolve a single pick at intersection point `p`: shift-and-floor `p` to
/// its candidate cell, remove the block standing there if there is one, and
/// report hit or miss with the cell.
pub fn pick(reg: &mut BlockRegistry, p: WorldPoint) -> (r: PickOutcome)
    ensures
        r == spec_pick_outcome(old(reg)@, p),
        final(reg)@ == spec_pick_post(old(reg)@, p),
{
    let c = resolve_candidate(p);
    let removed = reg.remove(c);
    if removed {
        PickOutcome::Hit(c)
    } else {
        PickOutcome::Miss(c)
    }
}

} // verus!
