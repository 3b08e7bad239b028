//! The live collection of blocks, keyed by grid coordinate.

use vstd::prelude::*;

verus! {

use crate::chunk::Block;
use crate::coords::Coord;
use crate::coords::WorldPoint;
use crate::coords::candidate_coord;
use crate::coords::resolve_candidate;

/// Why an insertion was refused.
#[derive(Clone, Copy, PartialEq, Eq, Structural, Debug)]
pub enum InsertError {
    /// A live block already occupies the coordinate.
    Occupied(Coord),
}

/// No block of `s` collides with the contents `m` or with an earlier block
/// of `s`: registering the whole of `s` succeeds exactly in this case.
pub open spec fn chunk_fits(m: Map<Coord, i32>, s: Seq<Block>) -> bool {
    &&& forall|i: int| 0 <= i < s.len() ==> !m.dom().contains((#[trigger] s[i]).coord)
    &&& forall|i: int, j: int|
        0 <= i < j < s.len() ==> (#[trigger] s[i]).coord != (#[trigger] s[j]).coord
}

/// Block `i` of `s` collides with the contents `m` or with an earlier block
/// of `s`.
pub open spec fn conflicts_at(m: Map<Coord, i32>, s: Seq<Block>, i: int) -> bool {
    ||| m.dom().contains(s[i].coord)
    ||| exists|j: int| 0 <= j < i && (#[trigger] s[j]).coord == s[i].coord
}

/// Some block of `s` stands at coordinate `c`.
pub open spec fn seq_has_coord(s: Seq<Block>, c: Coord) -> bool {
    exists|i: int| 0 <= i < s.len() && (#[trigger] s[i]).coord == c
}

/// No two blocks of `s` share a coordinate.
pub open spec fn distinct_coords(s: Seq<Block>) -> bool {
    forall|i: int, j: int|
        0 <= i < j < s.len() ==> (#[trigger] s[i]).coord != (#[trigger] s[j]).coord
}

/// The position in `s` of the block standing at `c`.
spec fn coord_index(s: Seq<Block>, c: Coord) -> int {
    choose|i: int| 0 <= i < s.len() && (#[trigger] s[i]).coord == c
}

/// The kind of the block of `s` standing at `c`.
spec fn seq_kind_at(s: Seq<Block>, c: Coord) -> i32 {
    s[coord_index(s, c)].kind
}

/// With pairwise-distinct coordinates, the block standing at `c` is the one
/// at any index that holds that coordinate.
proof fn lemma_coord_index_is(s: Seq<Block>, c: Coord, i: int)
    requires
        distinct_coords(s),
        0 <= i < s.len(),
        s[i].coord == c,
    ensures
        seq_has_coord(s, c),
        coord_index(s, c) == i,
        seq_kind_at(s, c) == s[i].kind,
{
    assert(seq_has_coord(s, c));
    let j = coord_index(s, c);
    assert(0 <= j < s.len() && s[j].coord == c);
    if j < i {
        assert(s[j].coord != s[i].coord);
    } else if i < j {
        assert(s[i].coord != s[j].coord);
    }
}

/// The live blocks of the world: a mapping from grid coordinate to block,
/// with at most one live block per coordinate.
pub struct BlockRegistry {
    blocks: Vec<Block>,
}

impl View for BlockRegistry {
    type V = Map<Coord, i32>;

    /// The abstract contents: a map from each occupied coordinate to the kind
    /// of the block standing there.
    closed spec fn view(&self) -> Map<Coord, i32> {
        Map::new(
            |c: Coord| seq_has_coord(self.blocks@, c),
            |c: Coord| seq_kind_at(self.blocks@, c),
        )
    }
}

impl BlockRegistry {
    /// At most one live block occupies a given coordinate.
    #[verifier::type_invariant]
    spec fn inv(&self) -> bool {
        distinct_coords(self.blocks@)
    }

    /// An empty registry.
    pub fn new() -> (reg: Self)
        ensures
            reg@ == Map::<Coord, i32>::empty(),
    {
        let reg = BlockRegistry { blocks: Vec::new() };
        proof {
            assert(reg@ =~= Map::<Coord, i32>::empty());
        }
        reg
    }

    /// Is a live block standing at `c`?
    pub fn contains(&self, c: Coord) -> (r: bool)
        ensures
            r == self@.dom().contains(c),
    {
        let n = self.blocks.len();
        let mut k: usize = 0;
        while k < n
            invariant
                k <= n,
                n == self.blocks@.len(),
                forall|i: int| 0 <= i < k ==> (#[trigger] self.blocks@[i]).coord != c,
            decreases n - k,
        {
            if self.blocks[k].coord == c {
                proof {
                    assert(self.blocks@[k as int].coord == c);
                    assert(seq_has_coord(self.blocks@, c));
                }
                return true;
            }
            k = k + 1;
        }
        proof {
            assert(!seq_has_coord(self.blocks@, c));
        }
        false
    }

    /// The kind of the block standing at `c`, if any.
    pub fn get(&self, c: Coord) -> (r: Option<i32>)
        ensures
            r == (if self@.dom().contains(c) {
                Some(self@[c])
            } else {
                None::<i32>
            }),
    {
        proof {
            use_type_invariant(&*self);
        }
        let n = self.blocks.len();
        let mut k: usize = 0;
        while k < n
            invariant
                k <= n,
                n == self.blocks@.len(),
                distinct_coords(self.blocks@),
                forall|i: int| 0 <= i < k ==> (#[trigger] self.blocks@[i]).coord != c,
            decreases n - k,
        {
            if self.blocks[k].coord == c {
                proof {
                    lemma_coord_index_is(self.blocks@, c, k as int);
                }
                return Some(self.blocks[k].kind);
            }
            k = k + 1;
        }
        proof {
            assert(!seq_has_coord(self.blocks@, c));
        }
        None
    }

    /// Number of live blocks.
    pub fn len(&self) -> (n: usize)
        ensures
            n == self@.dom().len(),
    {
        proof {
            use_type_invariant(&*self);
            let s = self.blocks@;
            let cs = s.map_values(|b: Block| b.coord);
            assert forall|i: int, j: int|
                0 <= i < cs.len() && 0 <= j < cs.len() && i != j implies cs[i] != cs[j] by {
                if i < j {
                    assert(s[i].coord != s[j].coord);
                } else {
                    assert(s[j].coord != s[i].coord);
                }
            }
            assert(cs.no_duplicates());
            assert forall|c: Coord| #[trigger]
                self@.dom().contains(c) == cs.to_set().contains(c) by {
                if seq_has_coord(s, c) {
                    let i = coord_index(s, c);
                    assert(cs[i] == c);
                    assert(cs.contains(c));
                }
                if cs.contains(c) {
                    let i = choose|i: int| 0 <= i < cs.len() && cs[i] == c;
                    assert(s[i].coord == c);
                    assert(seq_has_coord(s, c));
                }
            }
            assert(self@.dom() =~= cs.to_set());
            vstd::seq_lib::seq_to_set_is_finite(cs);
            cs.unique_seq_to_set();
        }
        self.blocks.len()
    }

    /// Append a block whose coordinate is known to be free.
    fn push_new(&mut self, b: Block)
        requires
            !old(self)@.dom().contains(b.coord),
        ensures
            final(self)@ == old(self)@.insert(b.coord, b.kind),
    {
        proof {
            use_type_invariant(&*self);
        }
        let ghost s = self.blocks@;
        let mut blocks: Vec<Block> = Vec::new();
        std::mem::swap(&mut blocks, &mut self.blocks);
        blocks.push(b);
        proof {
            let t = blocks@;
            assert(t == s.push(b));
            assert(!seq_has_coord(s, b.coord));
            assert forall|i: int, j: int|
                0 <= i < j < t.len() implies (#[trigger] t[i]).coord != (#[trigger] t[j]).coord by {
                if j < s.len() {
                    assert(s[i].coord != s[j].coord);
                } else {
                    assert(t[j] == b);
                    assert(0 <= i < s.len() && s[i] == t[i]);
                    if s[i].coord == b.coord {
                        assert(seq_has_coord(s, b.coord));
                    }
                }
            }
        }
        std::mem::swap(&mut blocks, &mut self.blocks);
        proof {
            let t = self.blocks@;
            assert(t == s.push(b));
            assert forall|c: Coord| #[trigger]
                seq_has_coord(t, c) == (seq_has_coord(s, c) || c == b.coord) by {
                if seq_has_coord(t, c) {
                    let i = choose|i: int| 0 <= i < t.len() && (#[trigger] t[i]).coord == c;
                    if i < s.len() {
                        assert(s[i].coord == c);
                        assert(seq_has_coord(s, c));
                    } else {
                        assert(t[i] == b);
                    }
                }
                if seq_has_coord(s, c) {
                    let i = coord_index(s, c);
                    assert(t[i].coord == c);
                    assert(seq_has_coord(t, c));
                }
                if c == b.coord {
                    assert(t[s.len() as int].coord == c);
                    assert(seq_has_coord(t, c));
                }
            }
            assert forall|c: Coord| seq_has_coord(t, c) implies seq_kind_at(t, c) == (if c
                == b.coord {
                b.kind
            } else {
                seq_kind_at(s, c)
            }) by {
                if c == b.coord {
                    lemma_coord_index_is(t, c, s.len() as int);
                } else {
                    let i = coord_index(s, c);
                    assert(0 <= i < s.len() && s[i].coord == c);
                    lemma_coord_index_is(t, c, i);
                    lemma_coord_index_is(s, c, i);
                }
            }
            assert(self@ =~= old(self)@.insert(b.coord, b.kind));
        }
    }

    /// Insert a block. Refused, and the registry left unchanged, when a live
    /// block already occupies the block's coordinate.
    pub fn insert(&mut self, b: Block) -> (r: Result<(), InsertError>)
        ensures
            r == (if old(self)@.dom().contains(b.coord) {
                Err::<(), InsertError>(InsertError::Occupied(b.coord))
            } else {
                Ok::<(), InsertError>(())
            }),
            old(self)@.dom().contains(b.coord) ==> final(self)@ == old(self)@,
            !old(self)@.dom().contains(b.coord) ==> final(self)@ == old(self)@.insert(
                b.coord,
                b.kind,
            ),
    {
        if self.contains(b.coord) {
            Err(InsertError::Occupied(b.coord))
        } else {
            self.push_new(b);
            Ok(())
        }
    }

    /// Remove the block at `c`, if any; reports whether one stood there.
    /// Removing an absent coordinate is a no-op, not an error.
    pub fn remove(&mut self, c: Coord) -> (removed: bool)
        ensures
            removed == old(self)@.dom().contains(c),
            final(self)@ == old(self)@.remove(c),
            !removed ==> final(self)@ == old(self)@,
    {
        proof {
            use_type_invariant(&*self);
        }
        let ghost s = self.blocks@;
        let n = self.blocks.len();
        let mut k: usize = 0;
        while k < n
            invariant
                k <= n,
                n == self.blocks@.len(),
                s == self.blocks@,
                s == old(self).blocks@,
                distinct_coords(s),
                forall|i: int| 0 <= i < k ==> (#[trigger] s[i]).coord != c,
            decreases n - k,
        {
            if self.blocks[k].coord == c {
                proof {
                    lemma_coord_index_is(s, c, k as int);
                }
                let mut blocks: Vec<Block> = Vec::new();
                std::mem::swap(&mut blocks, &mut self.blocks);
                let _removed_block = blocks.remove(k);
                proof {
                    lemma_remove_keeps_distinct(s, k as int);
                }
                std::mem::swap(&mut blocks, &mut self.blocks);
                proof {
                    lemma_removed_view(s, k as int);
                    assert(self@ =~= old(self)@.remove(c));
                }
                return true;
            }
            k = k + 1;
        }
        proof {
            assert(!seq_has_coord(s, c));
            assert(self@ =~= old(self)@.remove(c));
        }
        false
    }

    /// Register a freshly generated chunk: insert every one of its blocks.
    /// Refused as a whole, with the registry unchanged, when any block's
    /// coordinate is already occupied or appears twice in the chunk; the
    /// error carries the first such coordinate. Generation never produces a
    /// duplicate, so the conflict arm is defensive.
    pub fn register_chunk(&mut self, blocks: &Vec<Block>) -> (r: Result<(), InsertError>)
        ensures
            r is Ok <==> chunk_fits(old(self)@, blocks@),
            r is Ok ==> {
                &&& forall|c: Coord| #[trigger]
                    final(self)@.dom().contains(c) <==> (old(self)@.dom().contains(c)
                        || seq_has_coord(blocks@, c))
                &&& forall|i: int|
                    0 <= i < blocks@.len() ==> final(self)@[(#[trigger] blocks@[i]).coord]
                        == blocks@[i].kind
                &&& forall|c: Coord| #[trigger]
                    old(self)@.dom().contains(c) ==> final(self)@[c] == old(self)@[c]
            },
            match r {
                Ok(_) => true,
                Err(e) => {
                    &&& final(self)@ == old(self)@
                    &&& exists|i: int|
                        {
                            &&& 0 <= i < blocks@.len()
                            &&& #[trigger] conflicts_at(old(self)@, blocks@, i)
                            &&& e == InsertError::Occupied(blocks@[i].coord)
                            &&& forall|j: int| 0 <= j < i ==> !conflicts_at(old(self)@, blocks@, j)
                        }
                },
            },
    {
        proof {
            use_type_invariant(&*self);
        }
        let n = blocks.len();
        let mut i: usize = 0;
        while i < n
            invariant
                i <= n,
                n == blocks@.len(),
                self.blocks@ == old(self).blocks@,
                self@ == old(self)@,
                forall|j: int| 0 <= j < i ==> !conflicts_at(old(self)@, blocks@, j),
            decreases n - i,
        {
            let c = blocks[i].coord;
            if self.contains(c) {
                proof {
                    assert(conflicts_at(old(self)@, blocks@, i as int));
                }
                return Err(InsertError::Occupied(c));
            }
            let mut j: usize = 0;
            while j < i
                invariant
                    j <= i,
                    i < n,
                    n == blocks@.len(),
                    c == blocks@[i as int].coord,
                    self.blocks@ == old(self).blocks@,
                    self@ == old(self)@,
                    forall|jj: int| 0 <= jj < i ==> !conflicts_at(old(self)@, blocks@, jj),
                    forall|jj: int|
                        0 <= jj < j ==> (#[trigger] blocks@[jj]).coord != blocks@[i as int].coord,
                decreases i - j,
            {
                if blocks[j].coord == c {
                    proof {
                        assert((#[trigger] blocks@[j as int]).coord == blocks@[i as int].coord);
                        assert(conflicts_at(old(self)@, blocks@, i as int));
                    }
                    return Err(InsertError::Occupied(c));
                }
                j = j + 1;
            }
            proof {
                assert(!conflicts_at(old(self)@, blocks@, i as int));
            }
            i = i + 1;
        }
        proof {
            assert forall|ii: int, jj: int| 0 <= ii < jj < blocks@.len() implies (
            #[trigger] blocks@[ii]).coord != (#[trigger] blocks@[jj]).coord by {
                assert(!conflicts_at(old(self)@, blocks@, jj));
                if blocks@[ii].coord == blocks@[jj].coord {
                    assert(conflicts_at(old(self)@, blocks@, jj));
                }
            }
            assert forall|ii: int| 0 <= ii < blocks@.len() implies !old(self)@.dom().contains((
            #[trigger] blocks@[ii]).coord) by {
                assert(!conflicts_at(old(self)@, blocks@, ii));
            }
            assert(chunk_fits(old(self)@, blocks@));
        }
        let ghost m0 = old(self)@;
        let mut i: usize = 0;
        while i < n
            invariant
                i <= n,
                n == blocks@.len(),
                m0 == old(self)@,
                chunk_fits(m0, blocks@),
                forall|c: Coord| #[trigger]
                    self@.dom().contains(c) <==> (m0.dom().contains(c) || exists|j: int|
                        0 <= j < i && (#[trigger] blocks@[j]).coord == c),
                forall|j: int|
                    0 <= j < i ==> self@[(#[trigger] blocks@[j]).coord] == blocks@[j].kind,
                forall|c: Coord| #[trigger] m0.dom().contains(c) ==> self@[c] == m0[c],
            decreases n - i,
        {
            proof {
                let c = blocks@[i as int].coord;
                assert(!m0.dom().contains(c));
                if exists|j: int| 0 <= j < i && (#[trigger] blocks@[j]).coord == c {
                    let j = choose|j: int| 0 <= j < i && (#[trigger] blocks@[j]).coord == c;
                    assert(blocks@[j].coord != blocks@[i as int].coord);
                }
                assert(!self@.dom().contains(c));
            }
            self.push_new(blocks[i]);
            i = i + 1;
        }
        proof {
            assert forall|c: Coord| #[trigger]
                self@.dom().contains(c) <==> (m0.dom().contains(c) || seq_has_coord(
                blocks@,
                c,
            )) by {
                assert((exists|j: int| 0 <= j < n && (#[trigger] blocks@[j]).coord == c)
                    == seq_has_coord(blocks@, c));
            }
        }
        Ok(())
    }

    /// The coordinate of the block whose picking box contains the world point
    /// `p`, or `None` when no block stands at the resolved coordinate.
    pub fn find_containing(&self, p: WorldPoint) -> (r: Option<Coord>)
        ensures
            r == (if self@.dom().contains(candidate_coord(p)) {
                Some(candidate_coord(p))
            } else {
                None::<Coord>
            }),
    {
        let c = resolve_candidate(p);
        if self.contains(c) {
            Some(c)
        } else {
            None
        }
    }
}

/// Law (idempotent removal): after a removal of coordinate `c` from the
/// contents, a second removal of `c` finds nothing there and changes nothing.
pub proof fn lemma_remove_idempotent(m: Map<Coord, i32>, c: Coord)
    ensures
        !m.remove(c).dom().contains(c),
        m.remove(c).remove(c) == m.remove(c),
{
    assert(m.remove(c).remove(c) =~= m.remove(c));
}

/// Removing position `k` keeps coordinates pairwise distinct.
proof fn lemma_remove_keeps_distinct(s: Seq<Block>, k: int)
    requires
        distinct_coords(s),
        0 <= k < s.len(),
    ensures
        distinct_coords(s.remove(k)),
{
    let t = s.remove(k);
    assert forall|i: int, j: int|
        0 <= i < j < t.len() implies (#[trigger] t[i]).coord != (#[trigger] t[j]).coord by {
        let si: int = if i < k {
            i
        } else {
            i + 1
        };
        let sj: int = if j < k {
            j
        } else {
            j + 1
        };
        assert(t[i] == s[si]);
        assert(t[j] == s[sj]);
        assert(s[si].coord != s[sj].coord);
    }
}

/// How removing position `k` changes which coordinates are occupied and by
/// what kind: the coordinate at `k` goes away, everything else is kept.
proof fn lemma_removed_view(s: Seq<Block>, k: int)
    requires
        distinct_coords(s),
        0 <= k < s.len(),
    ensures
        forall|c: Coord| #[trigger]
            seq_has_coord(s.remove(k), c) == (seq_has_coord(s, c) && c != s[k].coord),
        forall|c: Coord|
            seq_has_coord(s.remove(k), c) ==> seq_kind_at(s.remove(k), c) == seq_kind_at(s, c),
{
    let t = s.remove(k);
    lemma_remove_keeps_distinct(s, k);
    assert forall|c: Coord| #[trigger]
        seq_has_coord(t, c) == (seq_has_coord(s, c) && c != s[k].coord) by {
        if seq_has_coord(t, c) {
            let i = choose|i: int| 0 <= i < t.len() && (#[trigger] t[i]).coord == c;
            let si: int = if i < k {
                i
            } else {
                i + 1
            };
            assert(t[i] == s[si]);
            assert(seq_has_coord(s, c));
            if c == s[k].coord {
                if si < k {
                    assert(s[si].coord != s[k].coord);
                } else {
                    assert(s[k].coord != s[si].coord);
                }
            }
        }
        if seq_has_coord(s, c) && c != s[k].coord {
            let i = choose|i: int| 0 <= i < s.len() && (#[trigger] s[i]).coord == c;
            if i < k {
                assert(t[i] == s[i]);
                assert(seq_has_coord(t, c));
            } else {
                assert(i != k);
                assert(t[i - 1] == s[i]);
                assert(seq_has_coord(t, c));
            }
        }
    }
    assert forall|c: Coord| seq_has_coord(t, c) implies seq_kind_at(t, c) == seq_kind_at(
        s,
        c,
    ) by {
        let i = coord_index(t, c);
        assert(0 <= i < t.len() && t[i].coord == c);
        let si: int = if i < k {
            i
        } else {
            i + 1
        };
        assert(t[i] == s[si]);
        lemma_coord_index_is(t, c, i);
        lemma_coord_index_is(s, c, si);
    }
}

} // verus!
