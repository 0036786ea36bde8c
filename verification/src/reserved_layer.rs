//! The reservation set: chunk coordinates currently owned by the placement
//! subsystem (or another exclusive claimant). A pure membership gate; the
//! coordinator queries it, collaborators set and clear entries.
use std::collections::HashSet;

use vstd::prelude::*;

use crate::chunk::{chunk_key, chunk_key_of, lemma_chunk_key_injective};
use crate::math::ChunkPos;

verus! {

broadcast use vstd::std_specs::hash::group_hash_axioms;

/// The set of reserved chunk coordinates of one world layer. Viewed as a
/// `Set<ChunkPos>`; membership is the only semantics it has.
pub struct ReservedChunksLayer {
    /// Reserved coordinates, stored under their packed keys.
    pub reserved: HashSet<u64>,
}

impl View for ReservedChunksLayer {
    type V = Set<ChunkPos>;

    open spec fn view(&self) -> Set<ChunkPos> {
        Set::new(|p: ChunkPos| self.reserved@.contains(chunk_key(p)))
    }
}

impl ReservedChunksLayer {
    /// An empty reservation set.
    pub fn new() -> (r: ReservedChunksLayer)
        ensures
            r@ == Set::<ChunkPos>::empty(),
    {
        let r = ReservedChunksLayer { reserved: HashSet::new() };
        proof {
            assert(r@ =~= Set::<ChunkPos>::empty());
        }
        r
    }

    /// Whether `pos` is currently reserved.
    pub fn is_reserved(&self, pos: ChunkPos) -> (r: bool)
        ensures
            r == self@.contains(pos),
    {
        let key = chunk_key_of(pos);
        self.reserved.contains(&key)
    }

    /// Reserve or release `pos`; every other coordinate keeps its state.
    pub fn set_reserved(&mut self, pos: ChunkPos, reserved: bool)
        ensures
            final(self)@ == if reserved {
                old(self)@.insert(pos)
            } else {
                old(self)@.remove(pos)
            },
    {
        let key = chunk_key_of(pos);
        if reserved {
            self.reserved.insert(key);
            proof {
                assert forall|q: ChunkPos| #[trigger] self@.contains(q) <==> old(self)@.insert(
                    pos,
                ).contains(q) by {
                    if q != pos && chunk_key(q) == chunk_key(pos) {
                        lemma_chunk_key_injective(q, pos);
                    }
                }
                assert(self@ =~= old(self)@.insert(pos));
            }
        } else {
            self.reserved.remove(&key);
            proof {
                assert forall|q: ChunkPos| #[trigger] self@.contains(q) <==> old(self)@.remove(
                    pos,
                ).contains(q) by {
                    if q != pos && chunk_key(q) == chunk_key(pos) {
                        lemma_chunk_key_injective(q, pos);
                    }
                }
                assert(self@ =~= old(self)@.remove(pos));
            }
        }
    }
}

} // verus!
