//! Row-major generation of the blocks of a rectangular flat chunk.

use vstd::prelude::*;

verus! {

use crate::coords::Coord;
use vstd::arithmetic::div_mod::lemma_fundamental_div_mod;
use vstd::arithmetic::div_mod::lemma_fundamental_div_mod_converse_div;
use vstd::arithmetic::div_mod::lemma_fundamental_div_mod_converse_mod;

/// One voxel block: a type identifier and the grid cell it occupies.
#[derive(Clone, Copy, PartialEq, Eq, Structural, Debug)]
pub struct Block {
    pub kind: i32,
    pub coord: Coord,
}

/// What row-major generation of a chunk anchored at `(ox, oz)` emits at step
/// `(x, z)`: the given kind, at coordinate `(ox + x, 0, oz + z)`.
pub open spec fn grid_block_at(b: Block, ox: int, oz: int, kind: int, x: int, z: int) -> bool {
    &&& b.kind == kind
    &&& b.coord.x == ox + x
    &&& b.coord.y == 0
    &&& b.coord.z == oz + z
}

/// Produce the blocks of a `width` x `length` flat chunk anchored at world
/// offset `(offset.0, offset.1)`, all of the given kind, in row-major order:
/// block number `x * width + z` stands at `(offset.0 + x, 0, offset.1 + z)`.
///
/// Every block sits at `y = 0`, coordinates are pairwise distinct, and they
/// cover exactly `[offset.0, offset.0 + length) x [offset.1, offset.1 + width)`
/// at integer steps.
pub fn generate(width: u32, length: u32, offset: (i32, i32), kind: i32) -> (blocks: Vec<Block>)
    requires
        offset.0 as int + length as int <= i32::MAX as int + 1,
        offset.1 as int + width as int <= i32::MAX as int + 1,
        width as int * length as int <= usize::MAX as int,
    ensures
        blocks@.len() == length as int * width as int,
        forall|i: int| 0 <= i < blocks@.len() ==> grid_block_at(
            #[trigger] blocks@[i],
            offset.0 as int,
            offset.1 as int,
            kind as int,
            i / (width as int),
            i % (width as int),
        ),
        forall|i: int| 0 <= i < blocks@.len() ==> {
            &&& offset.0 as int <= (#[trigger] blocks@[i]).coord.x < offset.0 as int
                + length as int
            &&& blocks@[i].coord.y == 0
            &&& offset.1 as int <= blocks@[i].coord.z < offset.1 as int + width as int
            &&& blocks@[i].kind == kind
        },
        forall|i: int, j: int| 0 <= i < j < blocks@.len() ==> (#[trigger] blocks@[i]).coord != (
        #[trigger] blocks@[j]).coord,
{
    let ox = offset.0;
    let oz = offset.1;
    let mut blocks: Vec<Block> = Vec::new();
    let mut x: u32 = 0;
    while x < length
        invariant
            x <= length,
            ox as int + length as int <= i32::MAX as int + 1,
            oz as int + width as int <= i32::MAX as int + 1,
            width as int * length as int <= usize::MAX as int,
            blocks@.len() == x as int * width as int,
            forall|i: int| 0 <= i < blocks@.len() ==> grid_block_at(
                #[trigger] blocks@[i],
                ox as int,
                oz as int,
                kind as int,
                i / (width as int),
                i % (width as int),
            ),
            forall|i: int| 0 <= i < blocks@.len() ==> {
                &&& ox as int <= (#[trigger] blocks@[i]).coord.x < ox as int + length as int
                &&& blocks@[i].coord.y == 0
                &&& oz as int <= blocks@[i].coord.z < oz as int + width as int
                &&& blocks@[i].kind == kind
            },
        decreases length as int - x as int,
    {
        let mut z: u32 = 0;
        while z < width
            invariant
                z <= width,
                x < length,
                ox as int + length as int <= i32::MAX as int + 1,
                oz as int + width as int <= i32::MAX as int + 1,
                width as int * length as int <= usize::MAX as int,
                blocks@.len() == x as int * width as int + z as int,
                forall|i: int| 0 <= i < blocks@.len() ==> grid_block_at(
                    #[trigger] blocks@[i],
                    ox as int,
                    oz as int,
                    kind as int,
                    i / (width as int),
                    i % (width as int),
                ),
                forall|i: int| 0 <= i < blocks@.len() ==> {
                    &&& ox as int <= (#[trigger] blocks@[i]).coord.x < ox as int + length as int
                    &&& blocks@[i].coord.y == 0
                    &&& oz as int <= blocks@[i].coord.z < oz as int + width as int
                    &&& blocks@[i].kind == kind
                },
            decreases width as int - z as int,
        {
            let cx = ox as i64 + x as i64;
            let cz = oz as i64 + z as i64;
            let b = Block { kind, coord: Coord { x: cx as i32, y: 0, z: cz as i32 } };
            let ghost n: int = blocks@.len() as int;
            blocks.push(b);
            proof {
                lemma_fundamental_div_mod_converse_div(n, width as int, x as int, z as int);
                lemma_fundamental_div_mod_converse_mod(n, width as int, x as int, z as int);
            }
            z = z + 1;
        }
        proof {
            assert((x as int + 1) * width as int == x as int * width as int + width as int)
                by (nonlinear_arith);
        }
        x = x + 1;
    }
    proof {
        if blocks@.len() > 0 {
            assert(width as int > 0);
            assert forall|i: int, j: int| 0 <= i < j < blocks@.len() implies (
            #[trigger] blocks@[i]).coord != (#[trigger] blocks@[j]).coord by {
                lemma_fundamental_div_mod(i, width as int);
                lemma_fundamental_div_mod(j, width as int);
            }
        }
    }
    blocks
}

} // verus!
