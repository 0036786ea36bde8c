//! The world's chunk storage, modelled as a store of 16x16 block columns
//! keyed by chunk coordinate, plus the per-column block grid the placement
//! workers stamp into.
use std::collections::HashMap;

use vstd::map::*;
use vstd::prelude::*;

use crate::math::{chunk_coord_of, round_down, ChunkPos, Vec3i};

verus! {

broadcast use vstd::std_specs::hash::group_hash_axioms;

/// Tallest column the store accepts, so per-column index math stays small.
pub const MAX_CHUNK_HEIGHT: u32 = 0x10_0000;

/// Row-major cell index inside a column: x fastest, then z, then y.
pub open spec fn local_index(x: int, y: int, z: int) -> int {
    x + z * 16 + y * 256
}

/// One 16x16 column of block-state codes, `height` cells tall.
pub struct ChunkColumn {
    /// Number of 16x16 block layers in the column.
    pub height: u32,
    /// Row-major block-state codes, `256 * height` of them.
    pub blocks: Vec<u16>,
}

impl ChunkColumn {
    /// The block array matches the height, and the height is bounded.
    pub open spec fn wf(&self) -> bool {
        &&& self.height <= MAX_CHUNK_HEIGHT
        &&& self.blocks@.len() == 256 * self.height
    }

    /// A column of the given height, filled with air.
    pub fn with_height(height: u32) -> (r: ChunkColumn)
        requires
            height <= MAX_CHUNK_HEIGHT,
        ensures
            r.wf(),
            r.height == height,
            r.blocks@ == Seq::new((256 * height) as nat, |i: int| crate::AIR),
    {
        let n: usize = 256 * (height as usize);
        let mut blocks: Vec<u16> = Vec::new();
        let mut i: usize = 0;
        while i < n
            invariant
                i <= n,
                blocks@.len() == i,
                forall|k: int| 0 <= k < i ==> blocks@[k] == crate::AIR,
            decreases n - i,
        {
            blocks.push(crate::AIR);
            i += 1;
        }
        proof {
            assert(blocks@ =~= Seq::new((256 * height) as nat, |i: int| crate::AIR));
        }
        ChunkColumn { height, blocks }
    }

    /// The code stored at local cell `(x, y, z)`.
    pub open spec fn spec_get(&self, x: int, y: int, z: int) -> u16 {
        self.blocks@[local_index(x, y, z)]
    }

    /// Read the block-state code at a local cell.
    pub fn get(&self, x: u32, y: u32, z: u32) -> (r: u16)
        requires
            self.wf(),
            x < 16,
            z < 16,
            y < self.height,
        ensures
            r == self.spec_get(x as int, y as int, z as int),
    {
        let idx: usize = x as usize + (z as usize) * 16 + (y as usize) * 256;
        self.blocks[idx]
    }

    /// Write the block-state code at a local cell.
    pub fn set(&mut self, x: u32, y: u32, z: u32, code: u16)
        requires
            old(self).wf(),
            x < 16,
            z < 16,
            y < old(self).height,
        ensures
            final(self).wf(),
            final(self).height == old(self).height,
            final(self).blocks@ == old(self).blocks@.update(
                local_index(x as int, y as int, z as int),
                code,
            ),
    {
        let idx: usize = x as usize + (z as usize) * 16 + (y as usize) * 256;
        self.blocks.set(idx, code);
    }
}

/// The packed store key of a chunk coordinate: x in the upper 32 bits, z in
/// the lower.
pub open spec fn chunk_key(p: ChunkPos) -> u64 {
    (((p.x as u32) as u64) << 32) | ((p.z as u32) as u64)
}

/// Compute the packed store key of a chunk coordinate.
pub fn chunk_key_of(p: ChunkPos) -> (r: u64)
    ensures
        r == chunk_key(p),
{
    (((p.x as u32) as u64) << 32) | ((p.z as u32) as u64)
}

/// Distinct chunk coordinates pack to distinct store keys.
pub proof fn lemma_chunk_key_injective(a: ChunkPos, b: ChunkPos)
    requires
        chunk_key(a) == chunk_key(b),
    ensures
        a == b,
{
    let ax = a.x as u32;
    let az = a.z as u32;
    let bx = b.x as u32;
    let bz = b.z as u32;
    assert((((ax as u64) << 32) | (az as u64)) == (((bx as u64) << 32) | (bz as u64)) ==> ax == bx
        && az == bz) by (bit_vector);
    let ax32 = a.x;
    let bx32 = b.x;
    let az32 = a.z;
    let bz32 = b.z;
    assert(ax32 as u32 == bx32 as u32 ==> ax32 == bx32) by (bit_vector);
    assert(az32 as u32 == bz32 as u32 ==> az32 == bz32) by (bit_vector);
}

/// Distinct chunk coordinates never collide in the store.
proof fn lemma_chunk_key_ne(a: ChunkPos, b: ChunkPos)
    requires
        a != b,
    ensures
        chunk_key(a) != chunk_key(b),
{
    if chunk_key(a) == chunk_key(b) {
        lemma_chunk_key_injective(a, b);
    }
}

/// Inserting a column into the raw store inserts it into the view.
proof fn lemma_layer_view_insert(pre: Map<u64, ChunkColumn>, cp: ChunkPos, col: ChunkColumn)
    ensures
        layer_view(pre.insert(chunk_key(cp), col)) == layer_view(pre).insert(cp, col.blocks@),
{
    assert_maps_equal!(layer_view(pre.insert(chunk_key(cp), col)),
        layer_view(pre).insert(cp, col.blocks@), q => {
        if q != cp {
            lemma_chunk_key_ne(q, cp);
        }
    });
}

/// Removing a column from the raw store removes it from the view.
proof fn lemma_layer_view_remove(pre: Map<u64, ChunkColumn>, cp: ChunkPos)
    ensures
        layer_view(pre.remove(chunk_key(cp))) == layer_view(pre).remove(cp),
{
    assert_maps_equal!(layer_view(pre.remove(chunk_key(cp))), layer_view(pre).remove(cp), q => {
        if q != cp {
            lemma_chunk_key_ne(q, cp);
        }
    });
}

/// The chunk-coordinate view of a raw keyed store.
pub open spec fn layer_view(m: Map<u64, ChunkColumn>) -> Map<ChunkPos, Seq<u16>> {
    Map::new(
        |p: ChunkPos| m.contains_key(chunk_key(p)),
        |p: ChunkPos| m[chunk_key(p)].blocks@,
    )
}

/// The chunk coordinate whose column holds world position `pos`.
pub open spec fn chunk_pos_of(pos: Vec3i) -> ChunkPos {
    ChunkPos { x: chunk_coord_of(pos.x as int) as i32, z: chunk_coord_of(pos.z as int) as i32 }
}

/// The column-local x offset of world position `pos`.
pub open spec fn local_x(pos: Vec3i) -> int {
    pos.x - 16 * chunk_coord_of(pos.x as int)
}

/// The column-local z offset of world position `pos`.
pub open spec fn local_z(pos: Vec3i) -> int {
    pos.z - 16 * chunk_coord_of(pos.z as int)
}

/// The code stored at world position `pos`, or `None` when the covering
/// chunk is not loaded or the height is outside the column.
pub open spec fn layer_cell(m: Map<ChunkPos, Seq<u16>>, pos: Vec3i) -> Option<u16> {
    let cp = chunk_pos_of(pos);
    let idx = local_index(local_x(pos), pos.y as int, local_z(pos));
    if m.contains_key(cp) && 0 <= pos.y && idx < m[cp].len() {
        Some(m[cp][idx])
    } else {
        None
    }
}

/// The chunk coordinate of world coordinate `v` covers it: the local offset
/// `v - 16 * chunk_coord_of(v)` lies in `[0, 16)`.
pub proof fn lemma_local_bounds(v: int)
    ensures
        16 * chunk_coord_of(v) <= v < 16 * chunk_coord_of(v) + 16,
{
    vstd::arithmetic::div_mod::lemma_fundamental_div_mod(v, 16);
    vstd::arithmetic::div_mod::lemma_mod_bound(v, 16);
}

/// The raw-store update that `ChunkLayer::set_block` performs on the view
/// when the cell at `w` is present.
pub open spec fn cell_written(m: Map<ChunkPos, Seq<u16>>, w: Vec3i, code: u16) -> Map<
    ChunkPos,
    Seq<u16>,
> {
    m.insert(
        chunk_pos_of(w),
        m[chunk_pos_of(w)].update(local_index(local_x(w), w.y as int, local_z(w)), code),
    )
}

/// After writing world cell `w`, reading `w` yields the written code.
pub proof fn lemma_set_cell_same(m: Map<ChunkPos, Seq<u16>>, w: Vec3i, code: u16)
    requires
        layer_cell(m, w) is Some,
    ensures
        layer_cell(cell_written(m, w, code), w) == Some(code),
{
}

/// Writing world cell `w` leaves every other world cell unchanged.
pub proof fn lemma_set_cell_other(m: Map<ChunkPos, Seq<u16>>, w: Vec3i, code: u16, w2: Vec3i)
    requires
        layer_cell(m, w) is Some,
        w2 != w,
    ensures
        layer_cell(cell_written(m, w, code), w2) == layer_cell(m, w2),
{
    let cp = chunk_pos_of(w);
    let cp2 = chunk_pos_of(w2);
    lemma_local_bounds(w.x as int);
    lemma_local_bounds(w.z as int);
    lemma_local_bounds(w2.x as int);
    lemma_local_bounds(w2.z as int);
    if cp2 == cp {
        assert(w2.x == 16 * (cp2.x as int) + local_x(w2));
        assert(w.x == 16 * (cp.x as int) + local_x(w));
        assert(w2.z == 16 * (cp2.z as int) + local_z(w2));
        assert(w.z == 16 * (cp.z as int) + local_z(w));
        if 0 <= w2.y && local_index(local_x(w2), w2.y as int, local_z(w2)) < m[cp2].len() {
            assert(local_index(local_x(w2), w2.y as int, local_z(w2)) != local_index(
                local_x(w),
                w.y as int,
                local_z(w),
            ));
        }
    }
}

/// The world's chunk store for one layer: loaded 16x16 columns keyed by
/// chunk coordinate. Viewed as a map from chunk coordinate to the column's
/// block codes.
pub struct ChunkLayer {
    /// Loaded columns, keyed by the packed chunk coordinate.
    pub chunks: HashMap<u64, ChunkColumn>,
}

impl View for ChunkLayer {
    type V = Map<ChunkPos, Seq<u16>>;

    open spec fn view(&self) -> Map<ChunkPos, Seq<u16>> {
        layer_view(self.chunks@)
    }
}

impl ChunkLayer {
    /// Every stored column is well formed.
    pub open spec fn wf(&self) -> bool {
        forall|k: u64|
            self.chunks@.contains_key(k) ==> (#[trigger] self.chunks@[k]).wf()
                && self.chunks@[k].blocks@.len() == 256 * self.chunks@[k].height
    }

    /// An empty store: no chunk is loaded.
    pub fn new() -> (r: ChunkLayer)
        ensures
            r.wf(),
            r@ == Map::<ChunkPos, Seq<u16>>::empty(),
    {
        let r = ChunkLayer { chunks: HashMap::new() };
        proof {
            assert(r@ =~= Map::<ChunkPos, Seq<u16>>::empty());
        }
        r
    }

    /// Whether the chunk at `pos` is loaded.
    pub fn contains_chunk(&self, pos: ChunkPos) -> (r: bool)
        ensures
            r == self@.contains_key(pos),
    {
        let key = chunk_key_of(pos);
        self.chunks.contains_key(&key)
    }

    /// Install a column at `pos`, returning the column it displaced, if any.
    pub fn insert_chunk(&mut self, pos: ChunkPos, chunk: ChunkColumn) -> (prev: Option<ChunkColumn>)
        requires
            old(self).wf(),
            chunk.wf(),
        ensures
            final(self).wf(),
            final(self)@ == old(self)@.insert(pos, chunk.blocks@),
            match prev {
                Some(c) => old(self)@.contains_key(pos) && c.blocks@ == old(self)@[pos],
                None => !old(self)@.contains_key(pos),
            },
    {
        let key = chunk_key_of(pos);
        let prev = self.chunks.insert(key, chunk);
        proof {
            lemma_layer_view_insert(old(self).chunks@, pos, chunk);
        }
        prev
    }

    /// Take the column at `pos` out of the store, transferring ownership to
    /// the caller; the chunk is no longer loaded afterwards.
    pub fn remove_chunk(&mut self, pos: ChunkPos) -> (r: Option<ChunkColumn>)
        requires
            old(self).wf(),
        ensures
            final(self).wf(),
            final(self)@ == old(self)@.remove(pos),
            match r {
                Some(c) => old(self)@.contains_key(pos) && c.blocks@ == old(self)@[pos] && c.wf(),
                None => !old(self)@.contains_key(pos),
            },
    {
        let key = chunk_key_of(pos);
        let r = self.chunks.remove(&key);
        proof {
            lemma_layer_view_remove(old(self).chunks@, pos);
        }
        r
    }

    /// Read the block-state code at a world position; `None` when the
    /// covering chunk is not loaded or `pos.y` is outside the column.
    pub fn block(&self, pos: Vec3i) -> (r: Option<u16>)
        requires
            self.wf(),
        ensures
            r == layer_cell(self@, pos),
    {
        if pos.y < 0 {
            return None;
        }
        let cpx = round_down(pos.x);
        let cpz = round_down(pos.z);
        let cp = ChunkPos { x: cpx, z: cpz };
        let key = chunk_key_of(cp);
        match self.chunks.get(&key) {
            None => None,
            Some(col) => {
                if (pos.y as u32) < col.height {
                    let lx = (pos.x - 16 * cpx) as u32;
                    let lz = (pos.z - 16 * cpz) as u32;
                    Some(col.get(lx, pos.y as u32, lz))
                } else {
                    None
                }
            },
        }
    }

    /// Write the block-state code at a world position, if its covering chunk
    /// is loaded and `pos.y` is inside the column; report whether it was.
    pub fn set_block(&mut self, pos: Vec3i, code: u16) -> (r: bool)
        requires
            old(self).wf(),
        ensures
            final(self).wf(),
            r == (layer_cell(old(self)@, pos) is Some),
            r ==> final(self)@ == old(self)@.insert(
                chunk_pos_of(pos),
                old(self)@[chunk_pos_of(pos)].update(
                    local_index(local_x(pos), pos.y as int, local_z(pos)),
                    code,
                ),
            ),
            !r ==> final(self)@ == old(self)@,
    {
        if pos.y < 0 {
            return false;
        }
        let cpx = round_down(pos.x);
        let cpz = round_down(pos.z);
        let cp = ChunkPos { x: cpx, z: cpz };
        let key = chunk_key_of(cp);
        let fits: bool = match self.chunks.get(&key) {
            None => {
                return false;
            },
            Some(col) => (pos.y as u32) < col.height,
        };
        if !fits {
            return false;
        }
        let mut col = self.chunks.remove(&key).unwrap();
        let lx = (pos.x - 16 * cpx) as u32;
        let lz = (pos.z - 16 * cpz) as u32;
        col.set(lx, pos.y as u32, lz, code);
        let ghost mid = self.chunks@;
        let ghost colsnap = col;
        self.chunks.insert(key, col);
        proof {
            lemma_layer_view_remove(old(self).chunks@, cp);
            lemma_layer_view_insert(mid, cp, colsnap);
            assert(layer_view(mid).insert(cp, colsnap.blocks@) =~= old(self)@.insert(
                cp,
                colsnap.blocks@,
            ));
            assert(colsnap.blocks@ == old(self)@[cp].update(
                local_index(local_x(pos), pos.y as int, local_z(pos)),
                code,
            ));
        }
        true
    }
}

} // verus!
