//! Stamping prefabricated 3D block structures into a chunk-partitioned voxel
//! world, without blocking the simulation tick.
//!
//! A [`Structure`] is an immutable rectangular grid of block-state codes with
//! an anchor offset. Instances of a structure are placed into a world layer;
//! the per-chunk block-copy work can be deferred to worker threads through a
//! pair of channels (see [`structure_layer`]).
use vstd::arithmetic::div_mod::{lemma_fundamental_div_mod, lemma_fundamental_div_mod_converse};
use vstd::prelude::*;

use crate::chunk::{layer_cell, lemma_set_cell_other, lemma_set_cell_same, ChunkLayer};
use crate::math::{pos_in_bounds, size_product, valid_size, ChunkPos, Vec3i};

pub mod chunk;
pub mod math;
pub mod reserved_layer;
pub mod structure_layer;

verus! {

/// The block-state code of air, the designated default block. Mirrors
/// valence's `BlockState::AIR`, whose raw id is 0.
pub const AIR: u16 = 0;

/// The largest valid raw block-state id. Mirrors valence's
/// `BlockState::max_raw()` for the game data this valence version was
/// generated from.
pub const MAX_BLOCK_STATE: u16 = 24134;

/// A raw block-state code that names an actual block state.
pub open spec fn valid_block_code(code: u16) -> bool {
    code <= MAX_BLOCK_STATE
}

/// Relies on valence's `BlockState::from_raw(id)`, which returns `Some`
/// exactly when `id <= BlockState::max_raw()`, i.e. `id <= 24134` in this
/// version.
#[verifier::external_body]
fn block_code_is_valid(code: u16) -> (r: bool)
    ensures
        r == valid_block_code(code),
{
    valence::prelude::BlockState::from_raw(code).is_some()
}

/// The row-major index of grid position `p` in a grid of dimensions `size`:
/// x varies fastest, then y, then z.
pub open spec fn spec_pos_to_index(p: Vec3i, size: Vec3i) -> int {
    p.x + p.y * size.x + p.z * (size.x * size.y)
}

/// The grid position at row-major index `i` in a grid of dimensions `size`.
pub open spec fn spec_index_to_pos(i: int, size: Vec3i) -> Vec3i {
    Vec3i {
        x: (i % (size.x as int)) as i32,
        y: ((i / (size.x as int)) % (size.y as int)) as i32,
        z: (i / ((size.x as int) * (size.y as int))) as i32,
    }
}

/// An immutable rectangular grid of block-state codes, with an anchor offset
/// so a placement position refers to the anchor rather than the minimum
/// corner.
pub struct Structure {
    /// Grid dimensions; strictly positive per axis for a well-formed value.
    pub size: Vec3i,
    /// Position of the anchor relative to the grid's minimum corner.
    pub origin_pos: Vec3i,
    /// Row-major block-state codes, `size.x * size.y * size.z` of them.
    pub blocks: Vec<u16>,
}

impl Structure {
    /// The grid dimensions are positive, the index math stays within `i32`,
    /// and the block array matches the dimensions.
    pub open spec fn wf(&self) -> bool {
        &&& valid_size(self.size)
        &&& self.blocks@.len() == size_product(self.size)
    }

    /// The code stored for grid position `p`.
    pub open spec fn spec_block_at(&self, p: Vec3i) -> u16 {
        self.blocks@[spec_pos_to_index(p, self.size)]
    }

    /// Row-major index of `pos`; the inverse of `index_to_pos`. By contract
    /// the caller pre-clips `pos` to the grid.
    pub fn pos_to_index(pos: Vec3i, size: Vec3i) -> (r: i32)
        requires
            valid_size(size),
            pos_in_bounds(pos, size),
        ensures
            r as int == spec_pos_to_index(pos, size),
            0 <= r as int && (r as int) < size_product(size),
    {
        proof {
            lemma_index_in_product(pos, size);
            assert(0 <= (pos.y as int) * (size.x as int) && (pos.y as int) * (size.x as int)
                <= size_product(size) && 0 <= (size.x as int) * (size.y as int) && (size.x as int)
                * (size.y as int) <= size_product(size) && 0 <= (pos.z as int) * ((size.x as int)
                * (size.y as int)) && (pos.z as int) * ((size.x as int) * (size.y as int))
                <= size_product(size)) by (nonlinear_arith)
                requires
                    0 <= pos.x < size.x,
                    0 <= pos.y < size.y,
                    0 <= pos.z < size.z,
            ;
        }
        let idx: i64 = pos.x as i64 + pos.y as i64 * size.x as i64 + pos.z as i64 * (size.x as i64
            * size.y as i64);
        idx as i32
    }

    /// Grid position of row-major index `i`; the inverse of `pos_to_index`.
    pub fn index_to_pos(i: i32, size: Vec3i) -> (r: Vec3i)
        requires
            valid_size(size),
            0 <= i as int && (i as int) < size_product(size),
        ensures
            r == spec_index_to_pos(i as int, size),
            pos_in_bounds(r, size),
            spec_pos_to_index(r, size) == i as int,
    {
        proof {
            lemma_index_bijection(i as int, size);
            assert((size.x as int) * (size.y as int) <= size_product(size)) by (nonlinear_arith)
                requires
                    0 < size.x,
                    0 < size.y,
                    0 < size.z,
            ;
        }
        let iu: u32 = i as u32;
        let sx: u32 = size.x as u32;
        let sy: u32 = size.y as u32;
        let x: u32 = iu % sx;
        let y: u32 = (iu / sx) % sy;
        let z: u32 = iu / (sx * sy);
        Vec3i { x: x as i32, y: y as i32, z: z as i32 }
    }

    /// The block-state code at grid position `pos`. By contract the caller
    /// pre-clips `pos`; there is no bounds check on this hot path.
    pub fn block_at(&self, pos: Vec3i) -> (r: u16)
        requires
            self.wf(),
            pos_in_bounds(pos, self.size),
        ensures
            r == self.spec_block_at(pos),
    {
        let idx = Self::pos_to_index(pos, self.size);
        self.blocks[idx as usize]
    }
}

/// The world position of the structure's minimum corner when its anchor is
/// placed at `origin`.
pub open spec fn corner_of(origin: Vec3i, origin_pos: Vec3i) -> Vec3i {
    Vec3i {
        x: (origin.x - origin_pos.x) as i32,
        y: (origin.y - origin_pos.y) as i32,
        z: (origin.z - origin_pos.z) as i32,
    }
}

/// World position `w` lies inside the axis-aligned box with minimum corner
/// `corner` and dimensions `size`.
pub open spec fn in_footprint(corner: Vec3i, size: Vec3i, w: Vec3i) -> bool {
    &&& corner.x <= w.x < corner.x + size.x
    &&& corner.y <= w.y < corner.y + size.y
    &&& corner.z <= w.z < corner.z + size.z
}

/// The grid position that world position `w` occupies in a structure whose
/// minimum corner sits at `corner`.
pub open spec fn footprint_pos(corner: Vec3i, w: Vec3i) -> Vec3i {
    Vec3i { x: (w.x - corner.x) as i32, y: (w.y - corner.y) as i32, z: (w.z - corner.z) as i32 }
}

/// What rendering structure `s` with its corner at `corner` leaves at world
/// position `w`: inside the footprint the structure's block where the world
/// holds a cell (an unloaded or too-short column silently drops the write),
/// outside the footprint whatever was there before.
pub open spec fn render_cell(
    m: Map<ChunkPos, Seq<u16>>,
    s: Structure,
    corner: Vec3i,
    w: Vec3i,
) -> Option<u16> {
    if in_footprint(corner, s.size, w) {
        if layer_cell(m, w) is Some {
            Some(s.spec_block_at(footprint_pos(corner, w)))
        } else {
            None
        }
    } else {
        layer_cell(m, w)
    }
}

impl Structure {
    /// The placement of this structure's anchor at `origin` keeps every cell
    /// coordinate inside `i32`.
    pub open spec fn placement_fits(&self, origin: Vec3i) -> bool {
        &&& i32::MIN <= origin.x - self.origin_pos.x
        &&& i32::MIN <= origin.y - self.origin_pos.y
        &&& i32::MIN <= origin.z - self.origin_pos.z
        &&& origin.x - self.origin_pos.x + self.size.x <= i32::MAX
        &&& origin.y - self.origin_pos.y + self.size.y <= i32::MAX
        &&& origin.z - self.origin_pos.z + self.size.z <= i32::MAX
    }

    /// Stamp every block of the structure into the world store, synchronously,
    /// with the anchor at `origin`. Writes into unloaded chunks (or above a
    /// column's height) are dropped; everything outside the footprint is
    /// untouched.
    pub fn render_to_layer(&self, layer: &mut ChunkLayer, origin: Vec3i)
        requires
            self.wf(),
            old(layer).wf(),
            self.placement_fits(origin),
        ensures
            final(layer).wf(),
            forall|cp: ChunkPos| #[trigger]
                final(layer)@.contains_key(cp) <==> old(layer)@.contains_key(cp),
            forall|cp: ChunkPos| #[trigger]
                final(layer)@.contains_key(cp) ==> final(layer)@[cp].len() == old(
                    layer,
                )@[cp].len(),
            forall|w: Vec3i| #[trigger]
                layer_cell(final(layer)@, w) == render_cell(
                    old(layer)@,
                    *self,
                    corner_of(origin, self.origin_pos),
                    w,
                ),
    {
        let corner = Vec3i::new(
            origin.x - self.origin_pos.x,
            origin.y - self.origin_pos.y,
            origin.z - self.origin_pos.z,
        );
        let n: usize = self.blocks.len();
        let mut i: usize = 0;
        while i < n
            invariant
                self.wf(),
                layer.wf(),
                self.placement_fits(origin),
                n == size_product(self.size),
                corner == corner_of(origin, self.origin_pos),
                i <= n,
                forall|cp: ChunkPos| #[trigger]
                    layer@.contains_key(cp) <==> old(layer)@.contains_key(cp),
                forall|cp: ChunkPos| #[trigger]
                    layer@.contains_key(cp) ==> layer@[cp].len() == old(layer)@[cp].len(),
                forall|w: Vec3i| #[trigger]
                    layer_cell(layer@, w) == (if in_footprint(corner, self.size, w)
                        && spec_pos_to_index(footprint_pos(corner, w), self.size) < i {
                        render_cell(old(layer)@, *self, corner, w)
                    } else {
                        layer_cell(old(layer)@, w)
                    }),
            decreases n - i,
        {
            let p = Self::index_to_pos(i as i32, self.size);
            let w = Vec3i::new(corner.x + p.x, corner.y + p.y, corner.z + p.z);
            let code = self.block_at(p);
            let ghost pre = layer@;
            let wrote = layer.set_block(w, code);
            proof {
                assert(in_footprint(corner, self.size, w));
                assert(footprint_pos(corner, w) == p);
                if wrote {
                    lemma_set_cell_same(pre, w, code);
                    assert forall|w2: Vec3i| w2 != w implies layer_cell(layer@, w2) == layer_cell(
                        pre,
                        w2,
                    ) by {
                        lemma_set_cell_other(pre, w, code, w2);
                    }
                }
                assert forall|w2: Vec3i| #[trigger]
                    layer_cell(layer@, w2) == (if in_footprint(corner, self.size, w2)
                        && spec_pos_to_index(footprint_pos(corner, w2), self.size) < i + 1 {
                        render_cell(old(layer)@, *self, corner, w2)
                    } else {
                        layer_cell(old(layer)@, w2)
                    }) by {
                    assert(layer_cell(pre, w2) == (if in_footprint(corner, self.size, w2)
                        && spec_pos_to_index(footprint_pos(corner, w2), self.size) < i as int {
                        render_cell(old(layer)@, *self, corner, w2)
                    } else {
                        layer_cell(old(layer)@, w2)
                    }));
                    if w2 != w && in_footprint(corner, self.size, w2) {
                        lemma_pos_bijection(footprint_pos(corner, w2), self.size);
                        lemma_pos_bijection(p, self.size);
                    }
                }
            }
            i += 1;
        }
        proof {
            assert forall|w: Vec3i| #[trigger]
                layer_cell(layer@, w) == render_cell(
                    old(layer)@,
                    *self,
                    corner_of(origin, self.origin_pos),
                    w,
                ) by {
                if in_footprint(corner, self.size, w) {
                    lemma_index_in_product(footprint_pos(corner, w), self.size);
                }
            }
        }
    }

    /// Build a structure by copying a `size` box of the world starting at
    /// `corner`; a cell whose chunk is unloaded (or above its column) reads
    /// as air. The anchor is recorded relative to `corner`.
    pub fn from_section(layer: &ChunkLayer, corner: Vec3i, size: Vec3i, origin: Vec3i) -> (r:
        Structure)
        requires
            layer.wf(),
            valid_size(size),
            corner.x + size.x <= i32::MAX,
            corner.y + size.y <= i32::MAX,
            corner.z + size.z <= i32::MAX,
            i32::MIN <= origin.x - corner.x && origin.x - corner.x <= i32::MAX,
            i32::MIN <= origin.y - corner.y && origin.y - corner.y <= i32::MAX,
            i32::MIN <= origin.z - corner.z && origin.z - corner.z <= i32::MAX,
        ensures
            r.wf(),
            r.size == size,
            r.origin_pos == corner_of(origin, corner),
            forall|k: int|
                0 <= k < size_product(size) ==> #[trigger] r.blocks@[k] == section_cell(
                    layer@,
                    corner,
                    spec_index_to_pos(k, size),
                ),
    {
        let origin_pos = Vec3i::new(origin.x - corner.x, origin.y - corner.y, origin.z - corner.z);
        let mut blocks: Vec<u16> = Vec::new();
        let n_i32 = Self::pos_to_index(
            Vec3i::new(size.x - 1, size.y - 1, size.z - 1),
            size,
        );
        let n: usize = n_i32 as usize + 1;
        proof {
            assert(spec_pos_to_index(
                Vec3i { x: (size.x - 1) as i32, y: (size.y - 1) as i32, z: (size.z - 1) as i32 },
                size,
            ) == size_product(size) - 1) by (nonlinear_arith)
                requires
                    0 < size.x,
                    0 < size.y,
                    0 < size.z,
            ;
        }
        let mut i: usize = 0;
        while i < n
            invariant
                layer.wf(),
                valid_size(size),
                corner.x + size.x <= i32::MAX,
                corner.y + size.y <= i32::MAX,
                corner.z + size.z <= i32::MAX,
                n == size_product(size),
                i <= n,
                blocks@.len() == i,
                forall|k: int|
                    0 <= k < i ==> #[trigger] blocks@[k] == section_cell(
                        layer@,
                        corner,
                        spec_index_to_pos(k, size),
                    ),
            decreases n - i,
        {
            let p = Self::index_to_pos(i as i32, size);
            let w = Vec3i::new(corner.x + p.x, corner.y + p.y, corner.z + p.z);
            let code = match layer.block(w) {
                Some(c) => c,
                None => AIR,
            };
            blocks.push(code);
            i += 1;
        }
        Structure { size, origin_pos, blocks }
    }
}

/// What extracting a section reads at grid position `p`: the world cell at
/// `corner + p`, or air where no cell is loaded.
pub open spec fn section_cell(m: Map<ChunkPos, Seq<u16>>, corner: Vec3i, p: Vec3i) -> u16 {
    match layer_cell(
        m,
        Vec3i { x: (corner.x + p.x) as i32, y: (corner.y + p.y) as i32, z: (corner.z + p.z) as i32 },
    ) {
        Some(c) => c,
        None => AIR,
    }
}

/// The little-endian bytes of a 16-bit value.
pub open spec fn u16_le(v: u16) -> Seq<u8> {
    seq![(v & 0xff) as u8, ((v >> 8) & 0xff) as u8]
}

/// The little-endian bytes of a 32-bit value.
pub open spec fn u32_le(v: u32) -> Seq<u8> {
    seq![
        (v & 0xff) as u8,
        ((v >> 8) & 0xff) as u8,
        ((v >> 16) & 0xff) as u8,
        ((v >> 24) & 0xff) as u8,
    ]
}

/// The little-endian bytes of a signed 32-bit value (two's complement).
pub open spec fn i32_le(v: i32) -> Seq<u8> {
    u32_le(v as u32)
}

/// The little-endian bytes of a 64-bit value.
pub open spec fn u64_le(v: u64) -> Seq<u8> {
    seq![
        (v & 0xff) as u8,
        ((v >> 8) & 0xff) as u8,
        ((v >> 16) & 0xff) as u8,
        ((v >> 24) & 0xff) as u8,
        ((v >> 32) & 0xff) as u8,
        ((v >> 40) & 0xff) as u8,
        ((v >> 48) & 0xff) as u8,
        ((v >> 56) & 0xff) as u8,
    ]
}

/// The little-endian bytes of a sequence of 16-bit block-state codes.
pub open spec fn codes_le(blocks: Seq<u16>) -> Seq<u8>
    decreases blocks.len(),
{
    if blocks.len() == 0 {
        Seq::empty()
    } else {
        codes_le(blocks.drop_last()) + u16_le(blocks.last())
    }
}

/// The serialized form of a structure: `size` and `origin` as signed 32-bit
/// little-endian fields, then a 64-bit block count, then the codes. This is
/// the layout a compact fixed-width little-endian encoder (such as bincode
/// with its defaults) gives the same data.
pub open spec fn spec_serialize(size: Vec3i, origin: Vec3i, blocks: Seq<u16>) -> Seq<u8> {
    i32_le(size.x) + i32_le(size.y) + i32_le(size.z) + i32_le(origin.x) + i32_le(origin.y)
        + i32_le(origin.z) + u64_le(blocks.len() as u64) + codes_le(blocks)
}

/// The 16-bit value stored little-endian at byte offset `off`.
pub open spec fn le16_at(d: Seq<u8>, off: int) -> u16 {
    (d[off] as u16) | ((d[off + 1] as u16) << 8)
}

/// The 32-bit value stored little-endian at byte offset `off`.
pub open spec fn le32_at(d: Seq<u8>, off: int) -> u32 {
    (d[off] as u32) | ((d[off + 1] as u32) << 8) | ((d[off + 2] as u32) << 16) | ((d[off
        + 3] as u32) << 24)
}

/// The signed 32-bit value stored little-endian at byte offset `off`.
pub open spec fn i32_at(d: Seq<u8>, off: int) -> i32 {
    le32_at(d, off) as i32
}

/// The 64-bit value stored little-endian at byte offset `off`.
pub open spec fn le64_at(d: Seq<u8>, off: int) -> u64 {
    (d[off] as u64) | ((d[off + 1] as u64) << 8) | ((d[off + 2] as u64) << 16) | ((d[off
        + 3] as u64) << 24) | ((d[off + 4] as u64) << 32) | ((d[off + 5] as u64) << 40) | ((d[off
        + 6] as u64) << 48) | ((d[off + 7] as u64) << 56)
}

/// The block count a serialized blob declares in its header.
pub open spec fn blob_block_count(d: Seq<u8>) -> int {
    le64_at(d, 24) as int
}

/// The blob's envelope is sound: a full header is present and the declared
/// number of codes is available after it. Trailing bytes are tolerated.
pub open spec fn blob_ok(d: Seq<u8>) -> bool {
    &&& d.len() >= 32
    &&& 2 * blob_block_count(d) <= d.len() - 32
}

/// The grid dimensions a blob declares in its header.
pub open spec fn blob_size(d: Seq<u8>) -> Vec3i {
    Vec3i { x: i32_at(d, 0), y: i32_at(d, 4), z: i32_at(d, 8) }
}

/// The blob's header is consistent with the data model: the dimensions make
/// a valid grid and the declared code count is exactly their product.
pub open spec fn blob_consistent(d: Seq<u8>) -> bool {
    &&& valid_size(blob_size(d))
    &&& blob_block_count(d) == size_product(blob_size(d))
}

/// A stored code decodes to itself when it names a real block state and to
/// air otherwise: structure data favours lossy recovery over hard failure.
pub open spec fn decode_code(c: u16) -> u16 {
    if valid_block_code(c) {
        c
    } else {
        AIR
    }
}

/// Why a serialized blob was rejected. Only envelope damage is an error;
/// unknown block codes are not (they decode to air).
#[derive(Clone, Copy, PartialEq, Eq, Structural, Debug)]
pub enum DeserializeError {
    /// The blob is shorter than the fixed 32-byte header.
    TruncatedHeader,
    /// The header's dimensions make no valid grid, or its declared code
    /// count is not their product.
    InconsistentHeader,
    /// The header declares more block codes than the blob carries.
    TruncatedBlocks,
}

impl Structure {
    /// Serialize into the compact little-endian blob of `spec_serialize`.
    pub fn serialize(&self) -> (r: Vec<u8>)
        ensures
            r@ == spec_serialize(self.size, self.origin_pos, self.blocks@),
    {
        let mut out: Vec<u8> = Vec::new();
        push_i32_le(&mut out, self.size.x);
        push_i32_le(&mut out, self.size.y);
        push_i32_le(&mut out, self.size.z);
        push_i32_le(&mut out, self.origin_pos.x);
        push_i32_le(&mut out, self.origin_pos.y);
        push_i32_le(&mut out, self.origin_pos.z);
        push_u64_le(&mut out, self.blocks.len() as u64);
        let ghost header = out@;
        let mut i: usize = 0;
        while i < self.blocks.len()
            invariant
                i <= self.blocks@.len(),
                out@ == header + codes_le(self.blocks@.take(i as int)),
            decreases self.blocks@.len() - i,
        {
            push_u16_le(&mut out, self.blocks[i]);
            proof {
                assert(self.blocks@.take(i + 1).drop_last() =~= self.blocks@.take(i as int));
                assert(out@ == header + (codes_le(self.blocks@.take(i as int)) + u16_le(
                    self.blocks@[i as int],
                )));
            }
            i += 1;
        }
        proof {
            assert(self.blocks@.take(self.blocks@.len() as int) =~= self.blocks@);
        }
        out
    }

    /// Parse a blob produced by `serialize` (or by any encoder of the same
    /// layout). Envelope damage, and a header whose declared count does not
    /// match its dimensions, are hard failures; an unknown block code is
    /// replaced by air and parsing continues. A successful parse always
    /// yields a well-formed structure.
    pub fn deserialize(data: &[u8]) -> (r: Result<Structure, DeserializeError>)
        ensures
            r is Ok <==> blob_ok(data@) && blob_consistent(data@),
            r matches Ok(s) ==> {
                &&& s.wf()
                &&& s.size.x == i32_at(data@, 0)
                &&& s.size.y == i32_at(data@, 4)
                &&& s.size.z == i32_at(data@, 8)
                &&& s.origin_pos.x == i32_at(data@, 12)
                &&& s.origin_pos.y == i32_at(data@, 16)
                &&& s.origin_pos.z == i32_at(data@, 20)
                &&& s.blocks@.len() == blob_block_count(data@)
                &&& forall|j: int|
                    0 <= j < s.blocks@.len() ==> s.blocks@[j] == decode_code(
                        le16_at(data@, 32 + 2 * j),
                    )
            },
            r matches Err(e) ==> {
                &&& e == DeserializeError::TruncatedHeader <==> data@.len() < 32
                &&& e == DeserializeError::InconsistentHeader <==> data@.len() >= 32
                    && !blob_consistent(data@)
                &&& e == DeserializeError::TruncatedBlocks <==> data@.len() >= 32
                    && blob_consistent(data@) && !blob_ok(data@)
            },
    {
        if data.len() < 32 {
            return Err(DeserializeError::TruncatedHeader);
        }
        let sx = read_i32_le(data, 0);
        let sy = read_i32_le(data, 4);
        let sz = read_i32_le(data, 8);
        let ox = read_i32_le(data, 12);
        let oy = read_i32_le(data, 16);
        let oz = read_i32_le(data, 20);
        let count: u64 = read_u64_le(data, 24);
        if !(sx > 0 && sy > 0 && sz > 0) {
            return Err(DeserializeError::InconsistentHeader);
        }
        proof {
            assert(0 < (sx as i64) * (sy as i64) && (sx as i64) * (sy as i64)
                <= 0x4000_0000_0000_0000i64) by (nonlinear_arith)
                requires
                    0 < sx as i64 && (sx as i64) < 0x8000_0000i64,
                    0 < sy as i64 && (sy as i64) < 0x8000_0000i64,
            ;
        }
        let p1: i64 = sx as i64 * sy as i64;
        if p1 > i32::MAX as i64 {
            proof {
                assert((sx as i64) * (sy as i64) * (sz as i64) >= (sx as i64) * (sy as i64))
                    by (nonlinear_arith)
                    requires
                        0 < sx as i64,
                        0 < sy as i64,
                        0 < sz as i64,
                ;
            }
            return Err(DeserializeError::InconsistentHeader);
        }
        proof {
            assert(0 < p1 * (sz as i64) && p1 * (sz as i64) <= 0x4000_0000_0000_0000i64)
                by (nonlinear_arith)
                requires
                    0 < p1 <= 0x7fff_ffffi64,
                    0 < sz as i64 && (sz as i64) < 0x8000_0000i64,
            ;
        }
        let product: i64 = p1 * sz as i64;
        if product > i32::MAX as i64 || count != product as u64 {
            return Err(DeserializeError::InconsistentHeader);
        }
        let avail: u64 = (data.len() - 32) as u64;
        if count > avail / 2 {
            proof {
                lemma_fundamental_div_mod(avail as int, 2);
            }
            return Err(DeserializeError::TruncatedBlocks);
        }
        proof {
            lemma_fundamental_div_mod(avail as int, 2);
            assert(2 * (count as int) <= avail as int);
            assert(avail as int == data@.len() - 32);
            assert(count as int <= usize::MAX as int);
        }
        let n: usize = count as usize;
        proof {
            assert(n as int == count as int);
            assert(32 + 2 * (n as int) <= data@.len());
        }
        let mut blocks: Vec<u16> = Vec::new();
        let mut j: usize = 0;
        while j < n
            invariant
                n == blob_block_count(data@),
                data@.len() <= usize::MAX,
                32 + 2 * n <= data@.len(),
                j <= n,
                blocks@.len() == j,
                forall|k: int|
                    0 <= k < j ==> blocks@[k] == decode_code(le16_at(data@, 32 + 2 * k)),
            decreases n - j,
        {
            let c = read_u16_le(data, 32 + 2 * j);
            let b = if block_code_is_valid(c) {
                c
            } else {
                AIR
            };
            blocks.push(b);
            j += 1;
        }
        Ok(
            Structure {
                size: Vec3i { x: sx, y: sy, z: sz },
                origin_pos: Vec3i { x: ox, y: oy, z: oz },
                blocks,
            },
        )
    }
}

/// Append the little-endian bytes of a 16-bit value.
fn push_u16_le(v: &mut Vec<u8>, x: u16)
    ensures
        final(v)@ == old(v)@ + u16_le(x),
{
    v.push((x & 0xff) as u8);
    v.push(((x >> 8) & 0xff) as u8);
    proof {
        assert(v@ =~= old(v)@ + u16_le(x));
    }
}

/// Append the little-endian bytes of a 32-bit value.
fn push_u32_le(v: &mut Vec<u8>, x: u32)
    ensures
        final(v)@ == old(v)@ + u32_le(x),
{
    v.push((x & 0xff) as u8);
    v.push(((x >> 8) & 0xff) as u8);
    v.push(((x >> 16) & 0xff) as u8);
    v.push(((x >> 24) & 0xff) as u8);
    proof {
        assert(v@ =~= old(v)@ + u32_le(x));
    }
}

/// Append the little-endian bytes of a signed 32-bit value.
fn push_i32_le(v: &mut Vec<u8>, x: i32)
    ensures
        final(v)@ == old(v)@ + i32_le(x),
{
    push_u32_le(v, x as u32);
}

/// Append the little-endian bytes of a 64-bit value.
fn push_u64_le(v: &mut Vec<u8>, x: u64)
    ensures
        final(v)@ == old(v)@ + u64_le(x),
{
    v.push((x & 0xff) as u8);
    v.push(((x >> 8) & 0xff) as u8);
    v.push(((x >> 16) & 0xff) as u8);
    v.push(((x >> 24) & 0xff) as u8);
    v.push(((x >> 32) & 0xff) as u8);
    v.push(((x >> 40) & 0xff) as u8);
    v.push(((x >> 48) & 0xff) as u8);
    v.push(((x >> 56) & 0xff) as u8);
    proof {
        assert(v@ =~= old(v)@ + u64_le(x));
    }
}

/// Read the 16-bit little-endian value at byte offset `off`.
fn read_u16_le(data: &[u8], off: usize) -> (r: u16)
    requires
        off + 2 <= data@.len(),
    ensures
        r == le16_at(data@, off as int),
{
    (data[off] as u16) | ((data[off + 1] as u16) << 8)
}

/// Read the 32-bit little-endian value at byte offset `off`, as signed.
fn read_i32_le(data: &[u8], off: usize) -> (r: i32)
    requires
        off + 4 <= data@.len(),
    ensures
        r == i32_at(data@, off as int),
{
    let v: u32 = (data[off] as u32) | ((data[off + 1] as u32) << 8) | ((data[off + 2] as u32) << 16)
        | ((data[off + 3] as u32) << 24);
    v as i32
}

/// Read the 64-bit little-endian value at byte offset `off`.
fn read_u64_le(data: &[u8], off: usize) -> (r: u64)
    requires
        off + 8 <= data@.len(),
    ensures
        r == le64_at(data@, off as int),
{
    (data[off] as u64) | ((data[off + 1] as u64) << 8) | ((data[off + 2] as u64) << 16) | ((data[off
        + 3] as u64) << 24) | ((data[off + 4] as u64) << 32) | ((data[off + 5] as u64) << 40) | ((
    data[off + 6] as u64) << 48) | ((data[off + 7] as u64) << 56)
}

/// The encoded code array is two bytes per code.
pub proof fn lemma_codes_le_len(blocks: Seq<u16>)
    ensures
        codes_le(blocks).len() == 2 * blocks.len(),
    decreases blocks.len(),
{
    if blocks.len() > 0 {
        lemma_codes_le_len(blocks.drop_last());
    }
}

/// The two bytes at offset `2 * j` of the encoded code array are the
/// little-endian bytes of the j-th code.
pub proof fn lemma_codes_le_index(blocks: Seq<u16>, j: int)
    requires
        0 <= j < blocks.len(),
    ensures
        codes_le(blocks)[2 * j] == u16_le(blocks[j])[0],
        codes_le(blocks)[2 * j + 1] == u16_le(blocks[j])[1],
    decreases blocks.len(),
{
    lemma_codes_le_len(blocks.drop_last());
    if j < blocks.len() - 1 {
        lemma_codes_le_index(blocks.drop_last(), j);
    }
}

/// Reading back the little-endian bytes of a 16-bit value yields the value.
proof fn lemma_u16_le_round_trip(v: u16)
    ensures
        le16_at(u16_le(v), 0) == v,
{
    assert((((v & 0xff) as u8) as u16) | ((((v >> 8) & 0xff) as u8) as u16) << 8 == v)
        by (bit_vector);
}

/// Reading back the little-endian bytes of a signed 32-bit value yields the
/// value.
proof fn lemma_i32_le_round_trip(v: i32)
    ensures
        i32_at(i32_le(v), 0) == v,
{
    let u = v as u32;
    assert(((((u & 0xff) as u8) as u32) | ((((u >> 8) & 0xff) as u8) as u32) << 8 | ((((u >> 16)
        & 0xff) as u8) as u32) << 16 | ((((u >> 24) & 0xff) as u8) as u32) << 24) == u)
        by (bit_vector);
    assert((v as u32) as i32 == v) by (bit_vector);
}

/// Reading back the little-endian bytes of a 64-bit value yields the value.
proof fn lemma_u64_le_round_trip(v: u64)
    ensures
        le64_at(u64_le(v), 0) == v,
{
    assert(((((v & 0xff) as u8) as u64) | ((((v >> 8) & 0xff) as u8) as u64) << 8 | ((((v >> 16)
        & 0xff) as u8) as u64) << 16 | ((((v >> 24) & 0xff) as u8) as u64) << 24 | ((((v >> 32)
        & 0xff) as u8) as u64) << 32 | ((((v >> 40) & 0xff) as u8) as u64) << 40 | ((((v >> 48)
        & 0xff) as u8) as u64) << 48 | ((((v >> 56) & 0xff) as u8) as u64) << 56) == v)
        by (bit_vector);
}

/// Serialization round-trip: a serialized well-formed structure deserializes
/// to identical dimensions, anchor and block codes, provided every code names
/// a real block state (an invalid code would deliberately decode to air
/// instead; a malformed grid would deliberately fail the consistency check).
pub proof fn lemma_serialize_round_trip(size: Vec3i, origin: Vec3i, blocks: Seq<u16>)
    requires
        valid_size(size),
        blocks.len() == size_product(size),
        forall|j: int| 0 <= j < blocks.len() ==> valid_block_code(#[trigger] blocks[j]),
    ensures
        ({
            let d = spec_serialize(size, origin, blocks);
            &&& blob_ok(d)
            &&& blob_consistent(d)
            &&& i32_at(d, 0) == size.x
            &&& i32_at(d, 4) == size.y
            &&& i32_at(d, 8) == size.z
            &&& i32_at(d, 12) == origin.x
            &&& i32_at(d, 16) == origin.y
            &&& i32_at(d, 20) == origin.z
            &&& blob_block_count(d) == blocks.len()
            &&& forall|j: int|
                0 <= j < blocks.len() ==> decode_code(le16_at(d, 32 + 2 * j)) == blocks[j]
        }),
{
    let d = spec_serialize(size, origin, blocks);
    lemma_codes_le_len(blocks);
    assert(d.len() == 32 + 2 * blocks.len());
    assert(d.subrange(0, 4) =~= i32_le(size.x));
    assert(d.subrange(4, 8) =~= i32_le(size.y));
    assert(d.subrange(8, 12) =~= i32_le(size.z));
    assert(d.subrange(12, 16) =~= i32_le(origin.x));
    assert(d.subrange(16, 20) =~= i32_le(origin.y));
    assert(d.subrange(20, 24) =~= i32_le(origin.z));
    assert(d.subrange(24, 32) =~= u64_le(blocks.len() as u64));
    lemma_i32_le_round_trip(size.x);
    lemma_i32_le_round_trip(size.y);
    lemma_i32_le_round_trip(size.z);
    lemma_i32_le_round_trip(origin.x);
    lemma_i32_le_round_trip(origin.y);
    lemma_i32_le_round_trip(origin.z);
    lemma_u64_le_round_trip(blocks.len() as u64);
    assert(i32_at(d, 0) == size.x);
    assert(i32_at(d, 4) == size.y);
    assert(i32_at(d, 8) == size.z);
    assert(i32_at(d, 12) == origin.x);
    assert(i32_at(d, 16) == origin.y);
    assert(i32_at(d, 20) == origin.z);
    assert(blob_block_count(d) == blocks.len());
    assert forall|j: int| 0 <= j < blocks.len() implies decode_code(le16_at(d, 32 + 2 * j))
        == blocks[j] by {
        lemma_codes_le_index(blocks, j);
        assert(d[32 + 2 * j] == u16_le(blocks[j])[0]);
        assert(d[32 + 2 * j + 1] == u16_le(blocks[j])[1]);
        lemma_u16_le_round_trip(blocks[j]);
        assert(le16_at(d, 32 + 2 * j) == le16_at(u16_le(blocks[j]), 0));
    }
}

/// The row-major index of an in-bounds position lies inside the grid.
pub proof fn lemma_index_in_product(p: Vec3i, size: Vec3i)
    requires
        valid_size(size),
        pos_in_bounds(p, size),
    ensures
        0 <= spec_pos_to_index(p, size) < size_product(size),
{
    assert(0 <= p.x + p.y * size.x + p.z * (size.x * size.y) < (size.x as int) * (size.y as int)
        * (size.z as int)) by (nonlinear_arith)
        requires
            0 <= p.x < size.x,
            0 <= p.y < size.y,
            0 <= p.z < size.z,
    ;
}

/// Index bijection, one direction: recovering the position of index `i` and
/// re-indexing it yields `i` again, and the position lies in the grid.
pub proof fn lemma_index_bijection(i: int, size: Vec3i)
    requires
        valid_size(size),
        0 <= i < size_product(size),
    ensures
        pos_in_bounds(spec_index_to_pos(i, size), size),
        spec_pos_to_index(spec_index_to_pos(i, size), size) == i,
{
    let sx = size.x as int;
    let sy = size.y as int;
    let sz = size.z as int;
    lemma_fundamental_div_mod(i, sx);
    let x = i % sx;
    let q1 = i / sx;
    assert(0 <= x < sx) by (nonlinear_arith)
        requires
            0 < sx,
            x == i % sx,
    ;
    lemma_fundamental_div_mod(q1, sy);
    let y = q1 % sy;
    let q2 = q1 / sy;
    assert(0 <= y < sy) by (nonlinear_arith)
        requires
            0 < sy,
            y == q1 % sy,
    ;
    assert(i == (sx * sy) * q2 + (sx * y + x)) by (nonlinear_arith)
        requires
            i == sx * q1 + x,
            q1 == sy * q2 + y,
    ;
    assert(0 <= sx * y + x < sx * sy) by (nonlinear_arith)
        requires
            0 <= x < sx,
            0 <= y < sy,
            0 < sx,
            0 < sy,
    ;
    lemma_fundamental_div_mod_converse(i, sx * sy, q2, sx * y + x);
    assert(0 <= q2 < sz) by (nonlinear_arith)
        requires
            i == (sx * sy) * q2 + (sx * y + x),
            0 <= sx * y + x < sx * sy,
            0 <= i < sx * sy * sz,
            0 < sx,
            0 < sy,
            0 < sz,
    ;
    assert(spec_pos_to_index(spec_index_to_pos(i, size), size) == x + y * sx + q2 * (sx * sy));
    assert(x + y * sx + q2 * (sx * sy) == i) by (nonlinear_arith)
        requires
            i == (sx * sy) * q2 + (sx * y + x),
    ;
}

/// Index bijection, the other direction: indexing an in-bounds position and
/// mapping the index back yields the same position.
pub proof fn lemma_pos_bijection(p: Vec3i, size: Vec3i)
    requires
        valid_size(size),
        pos_in_bounds(p, size),
    ensures
        0 <= spec_pos_to_index(p, size) < size_product(size),
        spec_index_to_pos(spec_pos_to_index(p, size), size) == p,
{
    lemma_index_in_product(p, size);
    let sx = size.x as int;
    let sy = size.y as int;
    let i = spec_pos_to_index(p, size);
    assert(i == sx * (p.y + sy * p.z) + p.x) by (nonlinear_arith)
        requires
            i == p.x + p.y * sx + p.z * (sx * sy),
    ;
    lemma_fundamental_div_mod_converse(i, sx, p.y + sy * p.z, p.x as int);
    lemma_fundamental_div_mod_converse(p.y + sy * p.z, sy, p.z as int, p.y as int);
    assert(i == (sx * sy) * p.z + (sx * p.y + p.x)) by (nonlinear_arith)
        requires
            i == sx * (p.y + sy * p.z) + p.x,
    ;
    assert(0 <= sx * p.y + p.x < sx * sy) by (nonlinear_arith)
        requires
            0 <= p.x < sx,
            0 <= p.y < sy,
            0 < sx,
            0 < sy,
    ;
    lemma_fundamental_div_mod_converse(i, sx * sy, p.z as int, sx * p.y + p.x);
}

} // verus!
