//! The placement coordinator: per-layer state mapping chunks to the structure
//! instances that occupy them, the worklist of deferred placements, and the
//! two channels connecting the tick side to the worker pool.
//!
//! The tick side never blocks: it drains whatever results are ready and
//! re-queues work whose chunk is not available yet. Workers block on the job
//! channel and exit when it closes. A chunk buffer is owned by exactly one
//! side at a time: the world store, or the pipeline, never both.
use std::collections::HashMap;
use std::sync::Arc;

use vstd::map::*;
use vstd::prelude::*;

use crate::chunk::{chunk_key, chunk_key_of, ChunkColumn, ChunkLayer};
use crate::math::{round_down, size_product, ChunkPos, Vec3i};
use crate::reserved_layer::ReservedChunksLayer;
use crate::{corner_of, Structure};

verus! {

broadcast use vstd::std_specs::hash::group_hash_axioms, vstd::seq_lib::group_seq_properties;

/// Declares flume's `Sender` so channel endpoints can live in the
/// coordinator's fields; the value is opaque here.
#[verifier::external_type_specification]
#[verifier::external_body]
#[verifier::reject_recursive_types(T)]
pub struct ExSender<T>(flume::Sender<T>);

/// Declares flume's `Receiver`, as for `ExSender`.
#[verifier::external_type_specification]
#[verifier::external_body]
#[verifier::reject_recursive_types(T)]
pub struct ExReceiver<T>(flume::Receiver<T>);

/// One unit of deferred placement work: stamp `structure`, anchored at
/// `position`, into the column `chunk` that sits at `chunk_pos`. The column
/// is moved into the job, so the pipeline owns it exclusively.
pub struct Job {
    /// Shared, read-only source grid.
    pub structure: Arc<Structure>,
    /// Which chunk the column belongs to.
    pub chunk_pos: ChunkPos,
    /// The column being stamped; owned by the job while in flight.
    pub chunk: ChunkColumn,
    /// World position of the structure's anchor.
    pub position: Vec3i,
}

/// A finished job: the mutated column, ready to be reconciled back into the
/// world store.
pub struct JobResult {
    /// Which chunk the column belongs to.
    pub chunk_pos: ChunkPos,
    /// The stamped column; owned by the result until reconciled.
    pub chunk: ChunkColumn,
}

/// Relies on `flume::unbounded`: creates a connected sender/receiver pair of
/// an unbounded multi-producer multi-consumer channel.
#[verifier::external_body]
fn channel<T>() -> (r: (flume::Sender<T>, flume::Receiver<T>)) {
    flume::unbounded()
}

/// Relies on flume's `Sender::send`: the message is queued unless every
/// receiver is gone, in which case flume hands the same message back in the
/// error, which this wrapper returns.
#[verifier::external_body]
fn channel_send<T>(s: &flume::Sender<T>, msg: T) -> (r: Option<T>)
    ensures
        r matches Some(m) ==> m == msg,
{
    match s.send(msg) {
        Ok(()) => None,
        Err(flume::SendError(m)) => Some(m),
    }
}

/// Relies on flume's `Receiver::recv`: blocks until a message arrives
/// (`Some`) or every sender is gone (`None`). Which message arrives depends
/// on the other threads, so nothing more is promised.
#[verifier::external_body]
fn channel_recv<T>(r: &flume::Receiver<T>) -> (res: Option<T>) {
    r.recv().ok()
}

/// Relies on flume's `Receiver::drain`: removes and returns the messages
/// already queued, without blocking. Which messages are queued depends on
/// the other threads, so nothing more is promised.
#[verifier::external_body]
fn channel_drain<T>(r: &flume::Receiver<T>) -> (res: Vec<T>) {
    r.drain().collect()
}

/// The endpoints a worker thread works with: it receives jobs and sends
/// results. The host hands one (shared) copy to each worker thread.
pub struct ChunkWorkerState {
    /// Results go back to the coordinator here.
    pub sender: flume::Sender<JobResult>,
    /// Jobs arrive here.
    pub receiver: flume::Receiver<Job>,
}

/// Per-layer coordinator state: which instances occupy which chunk, the
/// worklist of deferred `(chunk, instance)` pairs, and the channel endpoints
/// toward the worker pool.
pub struct StructureLayer {
    /// For each chunk, the instances registered as occupying it, in
    /// registration order. Stored under packed chunk keys.
    pub structure_map: HashMap<u64, Vec<usize>>,
    /// Deferred placements, retried every tick.
    pub needs_update: Vec<(ChunkPos, usize)>,
    /// Job channel into the worker pool.
    pub sender: flume::Sender<Job>,
    /// Result channel out of the worker pool.
    pub receiver: flume::Receiver<JobResult>,
}

/// The chunk-coordinate view of the instance registry.
pub open spec fn smap_view(m: Map<u64, Vec<usize>>) -> Map<ChunkPos, Seq<usize>> {
    Map::new(
        |p: ChunkPos| m.contains_key(chunk_key(p)),
        |p: ChunkPos| m[chunk_key(p)]@,
    )
}

/// Distinct chunk coordinates never collide in the registry.
proof fn lemma_smap_key_ne(a: ChunkPos, b: ChunkPos)
    requires
        a != b,
    ensures
        chunk_key(a) != chunk_key(b),
{
    if chunk_key(a) == chunk_key(b) {
        crate::chunk::lemma_chunk_key_injective(a, b);
    }
}

impl StructureLayer {
    /// Which instances occupy which chunk, keyed by chunk coordinate.
    pub open spec fn smap(&self) -> Map<ChunkPos, Seq<usize>> {
        smap_view(self.structure_map@)
    }

    /// The deferred `(chunk, instance)` worklist.
    pub open spec fn pending(&self) -> Seq<(ChunkPos, usize)> {
        self.needs_update@
    }

    /// A fresh coordinator with empty state and a connected channel pair;
    /// the returned worker state is what the host's worker threads run on
    /// (`chunk_worker`). Workers exit when the coordinator is dropped.
    pub fn new() -> (r: (StructureLayer, ChunkWorkerState))
        ensures
            r.0.smap() == Map::<ChunkPos, Seq<usize>>::empty(),
            r.0.pending() == Seq::<(ChunkPos, usize)>::empty(),
    {
        let (layer_sender, worker_receiver) = channel::<Job>();
        let (worker_sender, layer_receiver) = channel::<JobResult>();
        let layer = StructureLayer {
            structure_map: HashMap::new(),
            needs_update: Vec::new(),
            sender: layer_sender,
            receiver: layer_receiver,
        };
        let state = ChunkWorkerState { sender: worker_sender, receiver: worker_receiver };
        proof {
            assert(layer.smap() =~= Map::<ChunkPos, Seq<usize>>::empty());
        }
        (layer, state)
    }

    /// Register `entity` as occupying `chunk`: appended to the chunk's list,
    /// after every instance registered earlier.
    pub fn register(&mut self, chunk: ChunkPos, entity: usize)
        ensures
            final(self).smap() == old(self).smap().insert(
                chunk,
                if old(self).smap().contains_key(chunk) {
                    old(self).smap()[chunk].push(entity)
                } else {
                    seq![entity]
                },
            ),
            final(self).pending() == old(self).pending(),
            final(self).sender == old(self).sender,
            final(self).receiver == old(self).receiver,
    {
        let key = chunk_key_of(chunk);
        let mut list: Vec<usize> = match self.structure_map.remove(&key) {
            Some(l) => l,
            None => Vec::new(),
        };
        list.push(entity);
        let ghost listsnap = list@;
        self.structure_map.insert(key, list);
        proof {
            assert_maps_equal!(self.smap(), old(self).smap().insert(chunk, listsnap), q => {
                if q != chunk {
                    lemma_smap_key_ne(q, chunk);
                }
            });
        }
    }

    /// The instances registered against `chunk`, in registration order.
    pub fn instances_at(&self, chunk: ChunkPos) -> (r: Option<&Vec<usize>>)
        ensures
            match r {
                Some(v) => self.smap().contains_key(chunk) && v@ == self.smap()[chunk],
                None => !self.smap().contains_key(chunk),
            },
    {
        let key = chunk_key_of(chunk);
        self.structure_map.get(&key)
    }
}

/// Why the structure instance's state machine defers or places immediately.
#[derive(Clone, Copy, PartialEq, Eq, Structural, Debug)]
pub enum StructureInstanceInitState {
    /// Place synchronously on the first tick and register every overlapped
    /// chunk, so the structure stays present across chunk reloads.
    KeepLoaded,
    /// Defer each overlapped chunk until the placement subsystem owns it.
    Unload,
    /// Terminal: the instance has been processed; it never re-enters a
    /// pending state.
    Initialized,
}

/// One placement of a structure into the world, with its lifecycle state.
#[derive(Clone, Copy, PartialEq, Eq, Structural, Debug)]
pub struct StructureInstance {
    /// Index of the source structure in the layer's source arena.
    pub source: usize,
    /// World position of the structure's anchor.
    pub position: Vec3i,
    /// Lifecycle state; transitions exactly once, to `Initialized`.
    pub init_state: StructureInstanceInitState,
    /// Index of the owning layer.
    pub layer: usize,
}

/// A shared, read-only source structure, referenced by instances.
pub struct StructureSource {
    /// The structure grid, shared with every job that stamps it.
    pub source: Arc<Structure>,
}

impl StructureInstance {
    /// A new pending instance; `keep_loaded` selects the immediate
    /// (`KeepLoaded`) or deferred (`Unload`) placement path.
    pub fn new(source: usize, layer: usize, position: Vec3i, keep_loaded: bool) -> (r:
        StructureInstance)
        ensures
            r.source == source,
            r.layer == layer,
            r.position == position,
            r.init_state == if keep_loaded {
                StructureInstanceInitState::KeepLoaded
            } else {
                StructureInstanceInitState::Unload
            },
    {
        StructureInstance {
            source,
            layer,
            position,
            init_state: if keep_loaded {
                StructureInstanceInitState::KeepLoaded
            } else {
                StructureInstanceInitState::Unload
            },
        }
    }
}

/// Chunk coordinates whose 16x16 column the store addresses without the
/// `16 * cp` arithmetic leaving `i32`. Every coordinate of an actual world
/// position satisfies this.
pub open spec fn chunk_pos_fits(cp: ChunkPos) -> bool {
    &&& -0x0800_0000 <= cp.x < 0x0800_0000
    &&& -0x0800_0000 <= cp.z < 0x0800_0000
}

/// The placement with minimum corner `corner` touches chunk `cp`: the
/// chunk's horizontal extent meets the structure's footprint.
pub open spec fn chunk_overlaps(corner: Vec3i, size: Vec3i, cp: ChunkPos) -> bool {
    &&& crate::math::chunk_coord_of(corner.x as int) <= cp.x <= crate::math::chunk_coord_of(
        corner.x + size.x - 1,
    )
    &&& crate::math::chunk_coord_of(corner.z as int) <= cp.z <= crate::math::chunk_coord_of(
        corner.z + size.z - 1,
    )
}

/// A chunk coordinate range test on one axis is exactly the existence of a
/// covered world coordinate in that chunk: `chunk_coord_of(lo) <= c <=
/// chunk_coord_of(hi)` holds if and only if some `v` in `[lo, hi]` lies in
/// chunk `c`.
proof fn lemma_axis_overlap(lo: int, hi: int, c: int)
    requires
        lo <= hi,
    ensures
        (crate::math::chunk_coord_of(lo) <= c <= crate::math::chunk_coord_of(hi)) <==> (exists|
            v: int,
        |
            lo <= v <= hi && #[trigger] crate::math::chunk_coord_of(v) == c),
{
    if crate::math::chunk_coord_of(lo) <= c <= crate::math::chunk_coord_of(hi) {
        let v = if 16 * c <= lo {
            lo
        } else {
            16 * c
        };
        crate::chunk::lemma_local_bounds(lo);
        crate::chunk::lemma_local_bounds(hi);
        crate::chunk::lemma_local_bounds(v);
        assert(lo <= v <= hi && crate::math::chunk_coord_of(v) == c);
    }
    if exists|v: int| lo <= v <= hi && #[trigger] crate::math::chunk_coord_of(v) == c {
        let v = choose|v: int| lo <= v <= hi && #[trigger] crate::math::chunk_coord_of(v) == c;
        vstd::arithmetic::div_mod::lemma_div_is_ordered(lo, v, 16);
        vstd::arithmetic::div_mod::lemma_div_is_ordered(v, hi, 16);
    }
}

/// The overlap test `chunk_overlaps` is exactly geometric: a chunk passes it
/// if and only if some cell of the placement's footprint lies in that
/// chunk's 16x16 horizontal extent.
pub proof fn lemma_chunk_overlaps_geometric(corner: Vec3i, size: Vec3i, cp: ChunkPos)
    requires
        0 < size.x,
        0 < size.z,
        corner.x + size.x <= i32::MAX,
        corner.z + size.z <= i32::MAX,
    ensures
        chunk_overlaps(corner, size, cp) <==> (exists|wx: int, wz: int|
            corner.x <= wx < corner.x + size.x && corner.z <= wz < corner.z + size.z
                && #[trigger] crate::math::chunk_coord_of(wx) == cp.x
                && #[trigger] crate::math::chunk_coord_of(wz) == cp.z),
{
    lemma_axis_overlap(corner.x as int, corner.x + size.x - 1, cp.x as int);
    lemma_axis_overlap(corner.z as int, corner.z + size.z - 1, cp.z as int);
    if chunk_overlaps(corner, size, cp) {
        let wx = choose|v: int|
            corner.x <= v <= corner.x + size.x - 1 && #[trigger] crate::math::chunk_coord_of(v)
                == cp.x;
        let wz = choose|v: int|
            corner.z <= v <= corner.z + size.z - 1 && #[trigger] crate::math::chunk_coord_of(v)
                == cp.z;
        assert(corner.x <= wx < corner.x + size.x && corner.z <= wz < corner.z + size.z
            && crate::math::chunk_coord_of(wx) == cp.x && crate::math::chunk_coord_of(wz) == cp.z);
    }
}

impl StructureInstance {
    /// Every chunk coordinate the placement of `source` at anchor `pos`
    /// touches, row by row, without duplicates.
    pub fn chunks(pos: Vec3i, source: &Structure) -> (r: Vec<ChunkPos>)
        requires
            source.wf(),
            source.placement_fits(pos),
        ensures
            forall|cp: ChunkPos| #[trigger]
                r@.contains(cp) <==> chunk_overlaps(
                    corner_of(pos, source.origin_pos),
                    source.size,
                    cp,
                ),
            r@.no_duplicates(),
            forall|k: int| 0 <= k < r@.len() ==> chunk_pos_fits(#[trigger] r@[k]),
    {
        let corner = Vec3i::new(
            pos.x - source.origin_pos.x,
            pos.y - source.origin_pos.y,
            pos.z - source.origin_pos.z,
        );
        let min_x = round_down(corner.x);
        let max_x = round_down(corner.x + (source.size.x - 1));
        let min_z = round_down(corner.z);
        let max_z = round_down(corner.z + (source.size.z - 1));
        let mut out: Vec<ChunkPos> = Vec::new();
        let mut cx = min_x;
        while cx <= max_x
            invariant
                min_x <= cx,
                cx <= max_x + 1,
                min_x as int == crate::math::chunk_coord_of(corner.x as int),
                max_x as int == crate::math::chunk_coord_of(corner.x + (source.size.x - 1)),
                min_z as int == crate::math::chunk_coord_of(corner.z as int),
                max_z as int == crate::math::chunk_coord_of(corner.z + (source.size.z - 1)),
                min_z <= max_z,
                -0x0800_0000 <= min_x && max_x < 0x0800_0000,
                -0x0800_0000 <= min_z && max_z < 0x0800_0000,
                forall|cp: ChunkPos| #[trigger]
                    out@.contains(cp) <==> (min_x <= cp.x < cx && min_z <= cp.z <= max_z),
                out@.no_duplicates(),
                forall|k: int| 0 <= k < out@.len() ==> chunk_pos_fits(#[trigger] out@[k]),
            decreases max_x + 1 - cx,
        {
            let mut cz = min_z;
            while cz <= max_z
                invariant
                    min_x <= cx <= max_x,
                    min_z <= cz,
                    cz <= max_z + 1,
                    min_z <= max_z,
                    -0x0800_0000 <= min_x && max_x < 0x0800_0000,
                    -0x0800_0000 <= min_z && max_z < 0x0800_0000,
                    forall|cp: ChunkPos| #[trigger]
                        out@.contains(cp) <==> ((min_x <= cp.x < cx && min_z <= cp.z <= max_z) || (
                        cp.x == cx && min_z <= cp.z < cz)),
                    out@.no_duplicates(),
                    forall|k: int| 0 <= k < out@.len() ==> chunk_pos_fits(#[trigger] out@[k]),
                decreases max_z + 1 - cz,
            {
                let next = ChunkPos::new(cx, cz);
                proof {
                    assert(!out@.contains(next));
                }
                out.push(next);
                cz += 1;
            }
            cx += 1;
        }
        out
    }
}

/// The world position of local cell `(x, y, z)` of the column at `cp`.
pub open spec fn chunk_cell_world(cp: ChunkPos, x: int, y: int, z: int) -> Vec3i {
    Vec3i { x: (16 * cp.x + x) as i32, y: y as i32, z: (16 * cp.z + z) as i32 }
}

/// What stamping structure `s` (corner at `corner`) into the column at `cp`
/// leaves at local cell `(x, y, z)`: the structure's block inside the
/// footprint, the previous content outside it.
pub open spec fn place_cell(
    s: Structure,
    corner: Vec3i,
    cp: ChunkPos,
    pre: Seq<u16>,
    x: int,
    y: int,
    z: int,
) -> u16 {
    let w = chunk_cell_world(cp, x, y, z);
    if crate::in_footprint(corner, s.size, w) {
        s.spec_block_at(crate::footprint_pos(corner, w))
    } else {
        pre[crate::chunk::local_index(x, y, z)]
    }
}

impl StructureInstance {
    /// Stamp the structure into one chunk column: clip the footprint against
    /// the column's 16x16 horizontal extent with min/max corners, copy the
    /// full structure height, and leave every cell outside the footprint
    /// untouched. By contract the caller pre-validates the vertical span;
    /// this is the workers' hot path.
    pub fn place_on_chunk(
        structure_pos: Vec3i,
        source: &Structure,
        chunk_pos: ChunkPos,
        chunk: &mut ChunkColumn,
    )
        requires
            source.wf(),
            old(chunk).wf(),
            source.placement_fits(structure_pos),
            chunk_pos_fits(chunk_pos),
            0 <= structure_pos.y - source.origin_pos.y,
            structure_pos.y - source.origin_pos.y + source.size.y <= old(chunk).height,
        ensures
            final(chunk).wf(),
            final(chunk).height == old(chunk).height,
            forall|x: int, y: int, z: int|
                0 <= x < 16 && 0 <= z < 16 && 0 <= y < old(chunk).height ==> #[trigger] final(chunk).spec_get(
                    x,
                    y,
                    z,
                ) == place_cell(
                    *source,
                    corner_of(structure_pos, source.origin_pos),
                    chunk_pos,
                    old(chunk).blocks@,
                    x,
                    y,
                    z,
                ),
    {
        let corner = Vec3i::new(
            structure_pos.x - source.origin_pos.x,
            structure_pos.y - source.origin_pos.y,
            structure_pos.z - source.origin_pos.z,
        );
        let base_x: i64 = 16 * (chunk_pos.x as i64);
        let base_z: i64 = 16 * (chunk_pos.z as i64);
        let lcx: i64 = corner.x as i64 - base_x;
        let lcz: i64 = corner.z as i64 - base_z;
        let x0: i64 = if lcx >= 0 {
            lcx
        } else {
            0
        };
        let x1: i64 = if lcx + source.size.x as i64 <= 16 {
            lcx + source.size.x as i64
        } else {
            16
        };
        let z0: i64 = if lcz >= 0 {
            lcz
        } else {
            0
        };
        let z1: i64 = if lcz + source.size.z as i64 <= 16 {
            lcz + source.size.z as i64
        } else {
            16
        };
        if x0 >= x1 || z0 >= z1 {
            return ;
        }
        let ghost gcorner = corner_of(structure_pos, source.origin_pos);
        let ghost pre = old(chunk).blocks@;
        let mut x: i64 = x0;
        while x < x1
            invariant
                source.wf(),
                chunk.wf(),
                source.placement_fits(structure_pos),
                chunk_pos_fits(chunk_pos),
                0 <= corner.y,
                corner.y + source.size.y <= chunk.height,
                chunk.height == old(chunk).height,
                corner == gcorner,
                base_x == 16 * chunk_pos.x,
                base_z == 16 * chunk_pos.z,
                lcx == corner.x - base_x,
                lcz == corner.z - base_z,
                x0 == if lcx >= 0 { lcx } else { 0 },
                x1 == if lcx + source.size.x <= 16 { lcx + source.size.x } else { 16 },
                z0 == if lcz >= 0 { lcz } else { 0 },
                z1 == if lcz + source.size.z <= 16 { lcz + source.size.z } else { 16 },
                x0 <= x <= x1,
                x0 < x1,
                z0 < z1,
                pre == old(chunk).blocks@,
                forall|cx: int, cy: int, cz: int|
                    0 <= cx < 16 && 0 <= cz < 16 && 0 <= cy < old(chunk).height ==> #[trigger] chunk.spec_get(
                        cx,
                        cy,
                        cz,
                    ) == (if crate::in_footprint(
                        gcorner,
                        source.size,
                        chunk_cell_world(chunk_pos, cx, cy, cz),
                    ) && cx < x {
                        place_cell(*source, gcorner, chunk_pos, pre, cx, cy, cz)
                    } else {
                        pre[crate::chunk::local_index(cx, cy, cz)]
                    }),
            decreases x1 - x,
        {
            let mut z: i64 = z0;
            while z < z1
                invariant
                    source.wf(),
                    chunk.wf(),
                    source.placement_fits(structure_pos),
                    chunk_pos_fits(chunk_pos),
                    0 <= corner.y,
                    corner.y + source.size.y <= chunk.height,
                    chunk.height == old(chunk).height,
                    corner == gcorner,
                    base_x == 16 * chunk_pos.x,
                    base_z == 16 * chunk_pos.z,
                    lcx == corner.x - base_x,
                    lcz == corner.z - base_z,
                    x0 == if lcx >= 0 { lcx } else { 0 },
                    x1 == if lcx + source.size.x <= 16 { lcx + source.size.x } else { 16 },
                    z0 == if lcz >= 0 { lcz } else { 0 },
                    z1 == if lcz + source.size.z <= 16 { lcz + source.size.z } else { 16 },
                    x0 <= x < x1,
                    z0 <= z <= z1,
                    z0 < z1,
                    pre == old(chunk).blocks@,
                    forall|cx: int, cy: int, cz: int|
                        0 <= cx < 16 && 0 <= cz < 16 && 0 <= cy < old(chunk).height ==> #[trigger] chunk.spec_get(
                            cx,
                            cy,
                            cz,
                        ) == (if crate::in_footprint(
                            gcorner,
                            source.size,
                            chunk_cell_world(chunk_pos, cx, cy, cz),
                        ) && (cx < x || (cx == x && cz < z)) {
                            place_cell(*source, gcorner, chunk_pos, pre, cx, cy, cz)
                        } else {
                            pre[crate::chunk::local_index(cx, cy, cz)]
                        }),
                decreases z1 - z,
            {
                let mut dy: i32 = 0;
                while dy < source.size.y
                    invariant
                        source.wf(),
                        chunk.wf(),
                        source.placement_fits(structure_pos),
                        chunk_pos_fits(chunk_pos),
                        0 <= corner.y,
                        corner.y + source.size.y <= chunk.height,
                        chunk.height == old(chunk).height,
                        corner == gcorner,
                        base_x == 16 * chunk_pos.x,
                        base_z == 16 * chunk_pos.z,
                        lcx == corner.x - base_x,
                        lcz == corner.z - base_z,
                        x0 == if lcx >= 0 { lcx } else { 0 },
                        x1 == if lcx + source.size.x <= 16 { lcx + source.size.x } else { 16 },
                        z0 == if lcz >= 0 { lcz } else { 0 },
                        z1 == if lcz + source.size.z <= 16 { lcz + source.size.z } else { 16 },
                        x0 <= x < x1,
                        z0 <= z < z1,
                        0 <= dy <= source.size.y,
                        pre == old(chunk).blocks@,
                        forall|cx: int, cy: int, cz: int|
                            0 <= cx < 16 && 0 <= cz < 16 && 0 <= cy < old(chunk).height
                                ==> #[trigger] chunk.spec_get(cx, cy, cz) == (if crate::in_footprint(
                                gcorner,
                                source.size,
                                chunk_cell_world(chunk_pos, cx, cy, cz),
                            ) && (cx < x || (cx == x && (cz < z || (cz == z && cy < corner.y
                                + dy)))) {
                                place_cell(*source, gcorner, chunk_pos, pre, cx, cy, cz)
                            } else {
                                pre[crate::chunk::local_index(cx, cy, cz)]
                            }),
                    decreases source.size.y - dy,
                {
                    let wy: i32 = corner.y + dy;
                    let spx: i64 = x + base_x - corner.x as i64;
                    let spz: i64 = z + base_z - corner.z as i64;
                    let sp = Vec3i::new(spx as i32, dy, spz as i32);
                    let code = source.block_at(sp);
                    let ghost before = *chunk;
                    chunk.set(x as u32, wy as u32, z as u32, code);
                    proof {
                        assert forall|cx: int, cy: int, cz: int|
                            0 <= cx < 16 && 0 <= cz < 16 && 0 <= cy < old(chunk).height implies #[trigger] chunk.spec_get(
                            cx,
                            cy,
                            cz,
                        ) == (if crate::in_footprint(
                            gcorner,
                            source.size,
                            chunk_cell_world(chunk_pos, cx, cy, cz),
                        ) && (cx < x || (cx == x && (cz < z || (cz == z && cy < corner.y + dy
                            + 1)))) {
                            place_cell(*source, gcorner, chunk_pos, pre, cx, cy, cz)
                        } else {
                            pre[crate::chunk::local_index(cx, cy, cz)]
                        }) by {
                            assert(before.spec_get(cx, cy, cz) == (if crate::in_footprint(
                                gcorner,
                                source.size,
                                chunk_cell_world(chunk_pos, cx, cy, cz),
                            ) && (cx < x || (cx == x && (cz < z || (cz == z && cy < corner.y
                                + dy)))) {
                                place_cell(*source, gcorner, chunk_pos, pre, cx, cy, cz)
                            } else {
                                pre[crate::chunk::local_index(cx, cy, cz)]
                            }));
                            if cx == x && cz == z && cy == wy {
                                assert(crate::footprint_pos(
                                    gcorner,
                                    chunk_cell_world(chunk_pos, cx, cy, cz),
                                ) == sp);
                            } else {
                                assert(crate::chunk::local_index(cx, cy, cz)
                                    != crate::chunk::local_index(x as int, wy as int, z as int));
                            }
                        }
                    }
                    dy += 1;
                }
                proof {
                    assert forall|cx: int, cy: int, cz: int|
                        0 <= cx < 16 && 0 <= cz < 16 && 0 <= cy < old(chunk).height implies #[trigger] chunk.spec_get(
                        cx,
                        cy,
                        cz,
                    ) == (if crate::in_footprint(
                        gcorner,
                        source.size,
                        chunk_cell_world(chunk_pos, cx, cy, cz),
                    ) && (cx < x || (cx == x && cz < z + 1)) {
                        place_cell(*source, gcorner, chunk_pos, pre, cx, cy, cz)
                    } else {
                        pre[crate::chunk::local_index(cx, cy, cz)]
                    }) by {
                        assert(chunk.spec_get(cx, cy, cz) == (if crate::in_footprint(
                            gcorner,
                            source.size,
                            chunk_cell_world(chunk_pos, cx, cy, cz),
                        ) && (cx < x || (cx == x && (cz < z || (cz == z && cy < corner.y
                            + source.size.y)))) {
                            place_cell(*source, gcorner, chunk_pos, pre, cx, cy, cz)
                        } else {
                            pre[crate::chunk::local_index(cx, cy, cz)]
                        }));
                    }
                }
                z += 1;
            }
            proof {
                assert forall|cx: int, cy: int, cz: int|
                    0 <= cx < 16 && 0 <= cz < 16 && 0 <= cy < old(chunk).height implies #[trigger] chunk.spec_get(
                    cx,
                    cy,
                    cz,
                ) == (if crate::in_footprint(
                    gcorner,
                    source.size,
                    chunk_cell_world(chunk_pos, cx, cy, cz),
                ) && cx < x + 1 {
                    place_cell(*source, gcorner, chunk_pos, pre, cx, cy, cz)
                } else {
                    pre[crate::chunk::local_index(cx, cy, cz)]
                }) by {
                    assert(chunk.spec_get(cx, cy, cz) == (if crate::in_footprint(
                        gcorner,
                        source.size,
                        chunk_cell_world(chunk_pos, cx, cy, cz),
                    ) && (cx < x || (cx == x && cz < z1)) {
                        place_cell(*source, gcorner, chunk_pos, pre, cx, cy, cz)
                    } else {
                        pre[crate::chunk::local_index(cx, cy, cz)]
                    }));
                }
            }
            x += 1;
        }
    }
}

/// Relies on flume's `Receiver::try_recv`: takes one already-queued message
/// without blocking, if any.
#[verifier::external_body]
fn channel_try_recv<T>(r: &flume::Receiver<T>) -> (res: Option<T>) {
    r.try_recv().ok()
}

/// Relies on `Arc::clone`: the returned handle refers to the very same
/// structure.
#[verifier::external_body]
fn share_structure(s: &Arc<Structure>) -> (r: Arc<Structure>)
    ensures
        r == *s,
{
    Arc::clone(s)
}

/// A job's geometry is sound: the structure and column are well formed, the
/// coordinates stay in `i32`, and the structure's full vertical span lies
/// inside the column.
pub open spec fn job_fits(
    source: Structure,
    chunk_pos: ChunkPos,
    chunk: ChunkColumn,
    position: Vec3i,
) -> bool {
    &&& source.wf()
    &&& chunk.wf()
    &&& source.placement_fits(position)
    &&& chunk_pos_fits(chunk_pos)
    &&& 0 <= position.y - source.origin_pos.y
    &&& position.y - source.origin_pos.y + source.size.y <= chunk.height
}

/// Check executably that the structure is well formed and that placing its
/// anchor at `position` keeps every cell coordinate inside `i32`: the
/// runnable counterpart of the init contract's precondition, so a host can
/// test what it is about to hand the tick.
pub fn placement_ok(source: &Structure, position: Vec3i) -> (r: bool)
    ensures
        r == (source.wf() && source.placement_fits(position)),
{
    let sx = source.size.x as i64;
    let sy = source.size.y as i64;
    let sz = source.size.z as i64;
    if !(sx > 0 && sy > 0 && sz > 0) {
        return false;
    }
    proof {
        assert(0 < sx * sy && sx * sy <= 0x4000_0000_0000_0000i64) by (nonlinear_arith)
            requires
                0 < sx < 0x8000_0000i64,
                0 < sy < 0x8000_0000i64,
        ;
    }
    let p1: i64 = sx * sy;
    if p1 > i32::MAX as i64 {
        proof {
            assert(sx * sy * sz >= sx * sy) by (nonlinear_arith)
                requires
                    sx > 0,
                    sy > 0,
                    sz > 0,
            ;
        }
        return false;
    }
    proof {
        assert(0 < p1 * sz && p1 * sz <= 0x4000_0000_0000_0000i64) by (nonlinear_arith)
            requires
                0 < p1 <= 0x7fff_ffffi64,
                0 < sz < 0x8000_0000i64,
        ;
    }
    let product: i64 = p1 * sz;
    if product > i32::MAX as i64 {
        return false;
    }
    if !(source.blocks.len() as u64 == product as u64) {
        return false;
    }
    let ox = source.origin_pos.x as i64;
    let oy = source.origin_pos.y as i64;
    let oz = source.origin_pos.z as i64;
    let px = position.x as i64;
    let py = position.y as i64;
    let pz = position.z as i64;
    if !(i32::MIN as i64 <= px - ox && i32::MIN as i64 <= py - oy && i32::MIN as i64 <= pz - oz
        && px - ox + sx <= i32::MAX as i64 && py - oy + sy <= i32::MAX as i64 && pz - oz + sz
        <= i32::MAX as i64) {
        return false;
    }
    proof {
        assert(product as int == size_product(source.size));
        assert(source.blocks@.len() == product as int);
        assert(source.placement_fits(position));
    }
    true
}

/// Check a job's geometry before stamping; workers run this on every job
/// they receive, since a channel carries no proof.
fn job_geometry_ok(source: &Structure, chunk_pos: ChunkPos, chunk: &ChunkColumn, position: Vec3i) -> (r:
    bool)
    ensures
        r == job_fits(*source, chunk_pos, *chunk, position),
{
    if !placement_ok(source, position) {
        return false;
    }
    if !(chunk.height <= crate::chunk::MAX_CHUNK_HEIGHT && chunk.blocks.len() as u64 == 256u64
        * chunk.height as u64) {
        return false;
    }
    if !(-0x0800_0000 <= chunk_pos.x && chunk_pos.x < 0x0800_0000 && -0x0800_0000 <= chunk_pos.z
        && chunk_pos.z < 0x0800_0000) {
        return false;
    }
    let oy = source.origin_pos.y as i64;
    let py = position.y as i64;
    let sy = source.size.y as i64;
    if !(0 <= py - oy && py - oy + sy <= chunk.height as i64) {
        return false;
    }
    true
}

/// One blocking worker step: wait for a job, stamp it into its column, and
/// send the mutated column back. Returns false when a channel has closed
/// and the worker should exit; a worker thread runs this in a loop. Jobs
/// are dispatched unexamined (out-of-range placement is the caller's
/// contract violation, per the data model's no-bounds-check policy), so a
/// job whose geometry is unsound passes through unchanged rather than
/// tearing the worker down.
pub fn chunk_worker(state: &ChunkWorkerState) -> (r: bool) {
    let job = match channel_recv(&state.receiver) {
        Some(j) => j,
        None => {
            return false;
        },
    };
    let Job { structure, chunk_pos, mut chunk, position } = job;
    if job_geometry_ok(&structure, chunk_pos, &chunk, position) {
        StructureInstance::place_on_chunk(position, &structure, chunk_pos, &mut chunk);
    }
    channel_send(&state.sender, JobResult { chunk_pos, chunk }).is_none()
}

/// One non-blocking worker step: stamp at most one queued job and send its
/// result back; reports whether a job was processed. Lets a host drive the
/// pipeline without dedicated worker threads. Unsound geometry passes
/// through unchanged, as in `chunk_worker`.
pub fn chunk_worker_step(state: &ChunkWorkerState) -> (r: bool) {
    let job = match channel_try_recv(&state.receiver) {
        Some(j) => j,
        None => {
            return false;
        },
    };
    let Job { structure, chunk_pos, mut chunk, position } = job;
    if job_geometry_ok(&structure, chunk_pos, &chunk, position) {
        StructureInstance::place_on_chunk(position, &structure, chunk_pos, &mut chunk);
    }
    let _undelivered = channel_send(&state.sender, JobResult { chunk_pos, chunk });
    true
}

/// A chunk the instance registers against immediately: it overlaps the
/// placement, and either the instance keeps its chunks loaded or the chunk
/// is already owned by the placement subsystem.
pub open spec fn registers_chunk(
    corner: Vec3i,
    size: Vec3i,
    keep_loaded: bool,
    reserved: Set<ChunkPos>,
    cp: ChunkPos,
) -> bool {
    chunk_overlaps(corner, size, cp) && (keep_loaded || reserved.contains(cp))
}

/// A chunk the instance defers: it overlaps the placement, but nothing owns
/// it yet, so placing is retried once the reservation appears.
pub open spec fn defers_chunk(
    corner: Vec3i,
    size: Vec3i,
    keep_loaded: bool,
    reserved: Set<ChunkPos>,
    cp: ChunkPos,
) -> bool {
    chunk_overlaps(corner, size, cp) && !keep_loaded && !reserved.contains(cp)
}

/// The registry holds `q`'s old list with `entity` appended (or a fresh
/// one-element list where no list existed).
pub open spec fn smap_appended_at(
    cur: Map<ChunkPos, Seq<usize>>,
    base: Map<ChunkPos, Seq<usize>>,
    q: ChunkPos,
    entity: usize,
) -> bool {
    cur.contains_key(q) && cur[q] == (if base.contains_key(q) {
        base[q].push(entity)
    } else {
        seq![entity]
    })
}

/// The registry is unchanged at `q`.
pub open spec fn smap_unchanged_at(
    cur: Map<ChunkPos, Seq<usize>>,
    base: Map<ChunkPos, Seq<usize>>,
    q: ChunkPos,
) -> bool {
    &&& cur.contains_key(q) <==> base.contains_key(q)
    &&& base.contains_key(q) ==> cur[q] == base[q]
}

/// Process one newly observed instance: fire its single `Pending* ->
/// Initialized` transition. `KeepLoaded` stamps the structure into the
/// world at once and registers every overlapped chunk; `Unload` registers
/// the overlapped chunks the subsystem already owns and defers the rest to
/// the worklist. An already-initialized instance is left untouched.
pub fn init_instance(
    instance: &mut StructureInstance,
    entity: usize,
    sources: &Vec<StructureSource>,
    structure_layer: &mut StructureLayer,
    chunk_layer: &mut ChunkLayer,
    reserved_layer: &ReservedChunksLayer,
)
    requires
        old(chunk_layer).wf(),
        old(instance).init_state != StructureInstanceInitState::Initialized ==> (old(instance).source < sources@.len() && (*sources@[old(instance).source as int].source).wf() && (
        *sources@[old(instance).source as int].source).placement_fits(old(instance).position)),
    ensures
        final(chunk_layer).wf(),
        final(instance).source == old(instance).source,
        final(instance).position == old(instance).position,
        final(instance).layer == old(instance).layer,
        forall|cp: ChunkPos| #[trigger]
            final(chunk_layer)@.contains_key(cp) <==> old(chunk_layer)@.contains_key(cp),
        forall|cp: ChunkPos| #[trigger]
            final(chunk_layer)@.contains_key(cp) ==> final(chunk_layer)@[cp].len() == old(chunk_layer)@[cp].len(),
        old(instance).init_state == StructureInstanceInitState::Initialized ==> *final(instance)
            == *old(instance) && final(chunk_layer)@ == old(chunk_layer)@ && final(structure_layer).smap() == old(structure_layer).smap() && final(structure_layer).pending() == old(structure_layer).pending(),
        old(instance).init_state != StructureInstanceInitState::Initialized ==> ({
            let src = *sources@[old(instance).source as int].source;
            let corner = corner_of(old(instance).position, src.origin_pos);
            let keep = old(instance).init_state == StructureInstanceInitState::KeepLoaded;
            &&& final(instance).init_state == StructureInstanceInitState::Initialized
            &&& (keep ==> forall|w: Vec3i| #[trigger]
                crate::chunk::layer_cell(final(chunk_layer)@, w) == crate::render_cell(
                    old(chunk_layer)@,
                    src,
                    corner,
                    w,
                ))
            &&& (!keep ==> final(chunk_layer)@ == old(chunk_layer)@)
            &&& (forall|cp: ChunkPos|
                registers_chunk(corner, src.size, keep, reserved_layer@, cp) ==> #[trigger] final(structure_layer).smap().contains_key(cp) && final(structure_layer).smap()[cp] == (if old(structure_layer).smap().contains_key(cp) {
                    old(structure_layer).smap()[cp].push(entity)
                } else {
                    seq![entity]
                }))
            &&& (forall|cp: ChunkPos|
                !registers_chunk(corner, src.size, keep, reserved_layer@, cp) ==> ((#[trigger] final(structure_layer).smap().contains_key(cp) <==> old(structure_layer).smap().contains_key(cp)) && (
                old(structure_layer).smap().contains_key(cp) ==> final(structure_layer).smap()[cp]
                    == old(structure_layer).smap()[cp])))
            &&& final(structure_layer).pending().len() >= old(structure_layer).pending().len()
            &&& (forall|k: int|
                0 <= k < old(structure_layer).pending().len() ==> #[trigger] final(structure_layer).pending()[k] == old(structure_layer).pending()[k])
            &&& (forall|k: int|
                old(structure_layer).pending().len() <= k < final(structure_layer).pending().len() ==> ((#[trigger] final(structure_layer).pending()[k]).1 == entity
                    && defers_chunk(
                    corner,
                    src.size,
                    keep,
                    reserved_layer@,
                    final(structure_layer).pending()[k].0,
                )))
            &&& (forall|cp: ChunkPos|
                #![trigger defers_chunk(corner, src.size, keep, reserved_layer@, cp)]
                defers_chunk(corner, src.size, keep, reserved_layer@, cp) ==> final(structure_layer).pending().contains((cp, entity)))
        }),
{
    let keep_loaded: bool = match instance.init_state {
        StructureInstanceInitState::KeepLoaded => true,
        StructureInstanceInitState::Unload => false,
        StructureInstanceInitState::Initialized => {
            return ;
        },
    };
    let source = &sources[instance.source];
    let ghost srca = sources@[old(instance).source as int].source;
    let ghost corner = corner_of(old(instance).position, (*srca).origin_pos);
    if keep_loaded {
        let src_ref: &Structure = &source.source;
        src_ref.render_to_layer(chunk_layer, instance.position);
    }
    let chunk_list = StructureInstance::chunks(instance.position, &source.source);
    let ghost pend0 = structure_layer.pending();
    let ghost smap0 = structure_layer.smap();
    let mut i: usize = 0;
    while i < chunk_list.len()
        invariant
            chunk_layer.wf(),
            i <= chunk_list@.len(),
            chunk_list@.no_duplicates(),
            forall|cp: ChunkPos| #[trigger]
                chunk_list@.contains(cp) <==> chunk_overlaps(corner, (*srca).size, cp),
            pend0 == old(structure_layer).pending(),
            smap0 == old(structure_layer).smap(),
            forall|j: int|
                0 <= j < i && (keep_loaded || reserved_layer@.contains(#[trigger] chunk_list@[j]))
                    ==> smap_appended_at(structure_layer.smap(), smap0, chunk_list@[j], entity),
            forall|j: int|
                0 <= j < i && !(keep_loaded || reserved_layer@.contains(#[trigger] chunk_list@[j]))
                    ==> smap_unchanged_at(structure_layer.smap(), smap0, chunk_list@[j]),
            forall|j: int|
                i <= j < chunk_list@.len() ==> smap_unchanged_at(
                    structure_layer.smap(),
                    smap0,
                    #[trigger] chunk_list@[j],
                ),
            forall|q: ChunkPos|
                !(#[trigger] chunk_list@.contains(q)) ==> smap_unchanged_at(
                    structure_layer.smap(),
                    smap0,
                    q,
                ),
            structure_layer.pending().len() >= pend0.len(),
            forall|k: int|
                0 <= k < pend0.len() ==> #[trigger] structure_layer.pending()[k] == pend0[k],
            forall|k: int|
                pend0.len() <= k < structure_layer.pending().len() ==> ((#[trigger] structure_layer.pending()[k]).1
                    == entity && defers_chunk(
                    corner,
                    (*srca).size,
                    keep_loaded,
                    reserved_layer@,
                    structure_layer.pending()[k].0,
                )),
            forall|j: int|
                0 <= j < i && defers_chunk(
                    corner,
                    (*srca).size,
                    keep_loaded,
                    reserved_layer@,
                    #[trigger] chunk_list@[j],
                ) ==> structure_layer.pending().contains((chunk_list@[j], entity)),
        decreases chunk_list@.len() - i,
    {
        let cp = chunk_list[i];
        let ghost pend_before = structure_layer.pending();
        let ghost smap_before = structure_layer.smap();
        if keep_loaded || reserved_layer.is_reserved(cp) {
            structure_layer.register(cp, entity);
            proof {
                assert(smap_unchanged_at(smap_before, smap0, cp));
                assert forall|j: int| 0 <= j < chunk_list@.len() && j != i implies chunk_list@[j]
                    != cp by {
                    assert(chunk_list@.no_duplicates());
                }
            }
        } else {
            structure_layer.needs_update.push((cp, entity));
            proof {
                assert(chunk_list@.contains(cp));
                assert(structure_layer.pending() == pend_before.push((cp, entity)));
                assert forall|k: int|
                    pend0.len() <= k < structure_layer.pending().len() implies ((
                #[trigger] structure_layer.pending()[k]).1 == entity && defers_chunk(
                    corner,
                    (*srca).size,
                    keep_loaded,
                    reserved_layer@,
                    structure_layer.pending()[k].0,
                )) by {
                    if k < pend_before.len() {
                        assert(structure_layer.pending()[k] == pend_before[k]);
                    } else {
                        assert(structure_layer.pending()[k] == (cp, entity));
                    }
                }
            }
        }
        i += 1;
    }
    proof {
        let size = (*srca).size;
        assert forall|cp: ChunkPos|
            registers_chunk(corner, size, keep_loaded, reserved_layer@, cp) implies #[trigger] structure_layer.smap().contains_key(
            cp,
        ) && structure_layer.smap()[cp] == (if smap0.contains_key(cp) {
            smap0[cp].push(entity)
        } else {
            seq![entity]
        }) by {
            assert(chunk_list@.contains(cp));
            let j = choose|j: int| 0 <= j < chunk_list@.len() && chunk_list@[j] == cp;
            assert(chunk_list@[j] == cp);
            assert(smap_appended_at(structure_layer.smap(), smap0, chunk_list@[j], entity));
        }
        assert forall|cp: ChunkPos|
            !registers_chunk(corner, size, keep_loaded, reserved_layer@, cp) implies ((
        #[trigger] structure_layer.smap().contains_key(cp) <==> smap0.contains_key(cp)) && (
        smap0.contains_key(cp) ==> structure_layer.smap()[cp] == smap0[cp])) by {
            if chunk_list@.contains(cp) {
                let j = choose|j: int| 0 <= j < chunk_list@.len() && chunk_list@[j] == cp;
                assert(chunk_list@[j] == cp);
                assert(smap_unchanged_at(structure_layer.smap(), smap0, chunk_list@[j]));
            } else {
                assert(smap_unchanged_at(structure_layer.smap(), smap0, cp));
            }
        }
        assert forall|cp: ChunkPos|
            #![trigger defers_chunk(corner, size, keep_loaded, reserved_layer@, cp)]
            defers_chunk(corner, size, keep_loaded, reserved_layer@, cp) implies structure_layer.pending().contains(
            (cp, entity),
        ) by {
            assert(chunk_list@.contains(cp));
            let j = choose|j: int| 0 <= j < chunk_list@.len() && chunk_list@[j] == cp;
            assert(chunk_list@[j] == cp);
        }
    }
    instance.init_state = StructureInstanceInitState::Initialized;
}

/// Instance `j` exists, belongs to the layer, and still awaits its one-time
/// initialization.
pub open spec fn pending_of_layer(
    instances: Seq<StructureInstance>,
    layer_id: usize,
    j: int,
) -> bool {
    &&& 0 <= j < instances.len()
    &&& instances[j].layer == layer_id
    &&& instances[j].init_state != StructureInstanceInitState::Initialized
}

/// The minimum corner of instance `j`'s placement.
pub open spec fn inst_corner(
    instances: Seq<StructureInstance>,
    sources: Seq<StructureSource>,
    j: int,
) -> Vec3i {
    corner_of(instances[j].position, (*sources[instances[j].source as int].source).origin_pos)
}

/// The grid dimensions of instance `j`'s source structure.
pub open spec fn inst_size(
    instances: Seq<StructureInstance>,
    sources: Seq<StructureSource>,
    j: int,
) -> Vec3i {
    (*sources[instances[j].source as int].source).size
}

/// Pending instance `j` of the layer registers against chunk `cp` when
/// initialized.
pub open spec fn inst_registers(
    instances: Seq<StructureInstance>,
    sources: Seq<StructureSource>,
    layer_id: usize,
    reserved: Set<ChunkPos>,
    j: int,
    cp: ChunkPos,
) -> bool {
    &&& pending_of_layer(instances, layer_id, j)
    &&& registers_chunk(
        inst_corner(instances, sources, j),
        inst_size(instances, sources, j),
        instances[j].init_state == StructureInstanceInitState::KeepLoaded,
        reserved,
        cp,
    )
}

/// Pending instance `j` of the layer defers chunk `cp` to the worklist when
/// initialized.
pub open spec fn inst_defers(
    instances: Seq<StructureInstance>,
    sources: Seq<StructureSource>,
    layer_id: usize,
    reserved: Set<ChunkPos>,
    j: int,
    cp: ChunkPos,
) -> bool {
    &&& pending_of_layer(instances, layer_id, j)
    &&& defers_chunk(
        inst_corner(instances, sources, j),
        inst_size(instances, sources, j),
        instances[j].init_state == StructureInstanceInitState::KeepLoaded,
        reserved,
        cp,
    )
}

/// Pending `KeepLoaded` instance `j` of the layer covers world position `w`.
pub open spec fn inst_covers(
    instances: Seq<StructureInstance>,
    sources: Seq<StructureSource>,
    layer_id: usize,
    j: int,
    w: Vec3i,
) -> bool {
    &&& pending_of_layer(instances, layer_id, j)
    &&& instances[j].init_state == StructureInstanceInitState::KeepLoaded
    &&& crate::in_footprint(inst_corner(instances, sources, j), inst_size(instances, sources, j), w)
}

/// The block instance `j` stamps at world position `w`.
pub open spec fn inst_block_at(
    instances: Seq<StructureInstance>,
    sources: Seq<StructureSource>,
    j: int,
    w: Vec3i,
) -> u16 {
    (*sources[instances[j].source as int].source).spec_block_at(
        crate::footprint_pos(inst_corner(instances, sources, j), w),
    )
}

/// Some pending `KeepLoaded` instance of the layer covers `w`, and the world
/// holds that instance's block there.
pub open spec fn placed_by_some(
    instances: Seq<StructureInstance>,
    sources: Seq<StructureSource>,
    layer_id: usize,
    m: Map<ChunkPos, Seq<u16>>,
    w: Vec3i,
) -> bool {
    exists|j: int|
        #[trigger] inst_covers(instances, sources, layer_id, j, w) && crate::chunk::layer_cell(
            m,
            w,
        ) == Some(inst_block_at(instances, sources, j, w))
}

/// Some instance among the first `upto` registers against `cp` this tick.
pub open spec fn registered_by_prefix(
    instances: Seq<StructureInstance>,
    sources: Seq<StructureSource>,
    layer_id: usize,
    reserved: Set<ChunkPos>,
    upto: int,
    cp: ChunkPos,
) -> bool {
    exists|j: int|
        0 <= j < upto && #[trigger] inst_registers(instances, sources, layer_id, reserved, j, cp)
}

/// Some pending `KeepLoaded` instance among the first `upto` covers `w`.
pub open spec fn covered_by_prefix(
    instances: Seq<StructureInstance>,
    sources: Seq<StructureSource>,
    layer_id: usize,
    upto: int,
    w: Vec3i,
) -> bool {
    exists|j: int| 0 <= j < upto && #[trigger] inst_covers(instances, sources, layer_id, j, w)
}

/// An instance that is skipped (wrong layer, or already initialized) moves
/// the batch frame facts from prefix `k` to prefix `k + 1` unchanged.
proof fn lemma_init_step_skipped(
    gi: Seq<StructureInstance>,
    sources: Seq<StructureSource>,
    layer_id: usize,
    reserved: Set<ChunkPos>,
    k0: int,
    cur_smap: Map<ChunkPos, Seq<usize>>,
    base_smap: Map<ChunkPos, Seq<usize>>,
    cur_world: Map<ChunkPos, Seq<u16>>,
    base_world: Map<ChunkPos, Seq<u16>>,
)
    requires
        !pending_of_layer(gi, layer_id, k0),
        forall|cp: ChunkPos|
            !registered_by_prefix(gi, sources, layer_id, reserved, k0, cp)
                ==> #[trigger] smap_unchanged_at(cur_smap, base_smap, cp),
        forall|w: Vec3i|
            !covered_by_prefix(gi, sources, layer_id, k0, w) ==> #[trigger] crate::chunk::layer_cell(
                cur_world,
                w,
            ) == crate::chunk::layer_cell(base_world, w),
        forall|w: Vec3i|
            #![trigger crate::chunk::layer_cell(cur_world, w)]
            covered_by_prefix(gi, sources, layer_id, k0, w) && crate::chunk::layer_cell(
                base_world,
                w,
            ) is Some ==> placed_by_some(gi, sources, layer_id, cur_world, w),
    ensures
        forall|cp: ChunkPos|
            !registered_by_prefix(gi, sources, layer_id, reserved, k0 + 1, cp)
                ==> #[trigger] smap_unchanged_at(cur_smap, base_smap, cp),
        forall|w: Vec3i|
            !covered_by_prefix(gi, sources, layer_id, k0 + 1, w) ==> #[trigger] crate::chunk::layer_cell(
                cur_world,
                w,
            ) == crate::chunk::layer_cell(base_world, w),
        forall|w: Vec3i|
            #![trigger crate::chunk::layer_cell(cur_world, w)]
            covered_by_prefix(gi, sources, layer_id, k0 + 1, w) && crate::chunk::layer_cell(
                base_world,
                w,
            ) is Some ==> placed_by_some(gi, sources, layer_id, cur_world, w),
{
    assert forall|cp: ChunkPos|
        !registered_by_prefix(gi, sources, layer_id, reserved, k0 + 1, cp) implies smap_unchanged_at(
        cur_smap,
        base_smap,
        cp,
    ) by {
        if registered_by_prefix(gi, sources, layer_id, reserved, k0, cp) {
            let j = choose|j: int|
                0 <= j < k0 && #[trigger] inst_registers(gi, sources, layer_id, reserved, j, cp);
            assert(inst_registers(gi, sources, layer_id, reserved, j, cp));
            assert(registered_by_prefix(gi, sources, layer_id, reserved, k0 + 1, cp));
        }
        assert(!registered_by_prefix(gi, sources, layer_id, reserved, k0, cp));
    }
    assert forall|w: Vec3i|
        !covered_by_prefix(gi, sources, layer_id, k0 + 1, w) implies #[trigger] crate::chunk::layer_cell(
            cur_world,
            w,
        ) == crate::chunk::layer_cell(base_world, w) by {
        if covered_by_prefix(gi, sources, layer_id, k0, w) {
            let j = choose|j: int|
                0 <= j < k0 && #[trigger] inst_covers(gi, sources, layer_id, j, w);
            assert(inst_covers(gi, sources, layer_id, j, w));
            assert(covered_by_prefix(gi, sources, layer_id, k0 + 1, w));
        }
        assert(!covered_by_prefix(gi, sources, layer_id, k0, w));
    }
    assert forall|w: Vec3i|
        (covered_by_prefix(gi, sources, layer_id, k0 + 1, w) && crate::chunk::layer_cell(
            base_world,
            w,
        ) is Some) implies placed_by_some(gi, sources, layer_id, cur_world, w) by {
        let jw = choose|j: int|
            0 <= j < k0 + 1 && #[trigger] inst_covers(gi, sources, layer_id, j, w);
        assert(!inst_covers(gi, sources, layer_id, k0, w));
        assert(jw < k0);
        assert(covered_by_prefix(gi, sources, layer_id, k0, w));
        assert(crate::chunk::layer_cell(cur_world, w) is Some || !(crate::chunk::layer_cell(
            cur_world,
            w,
        ) is Some));
    }
}

/// The per-tick init procedure for one layer: every pending instance of the
/// layer fires its lifecycle transition (`init_instance`); every other
/// instance is untouched. Lifting the per-instance contract to the batch:
/// every registering chunk's list gains its instance, the worklist keeps its
/// old entries and gains exactly the deferred pairs, and every loaded cell
/// covered by a pending `KeepLoaded` instance now holds a covering
/// instance's block while every other cell is untouched.
pub fn structure_init_system(
    instances: &mut Vec<StructureInstance>,
    sources: &Vec<StructureSource>,
    layer_id: usize,
    structure_layer: &mut StructureLayer,
    chunk_layer: &mut ChunkLayer,
    reserved_layer: &ReservedChunksLayer,
)
    requires
        old(chunk_layer).wf(),
        forall|k: int|
            0 <= k < old(instances)@.len() && (#[trigger] old(instances)@[k]).layer == layer_id
                && old(instances)@[k].init_state != StructureInstanceInitState::Initialized ==> (
            old(instances)@[k].source < sources@.len() && (*sources@[old(instances)@[k].source as int].source).wf() && (*sources@[old(instances)@[k].source as int].source).placement_fits(old(instances)@[k].position)),
    ensures
        final(chunk_layer).wf(),
        final(instances)@.len() == old(instances)@.len(),
        forall|k: int|
            0 <= k < old(instances)@.len() && (#[trigger] old(instances)@[k]).layer == layer_id
                ==> final(instances)@[k].init_state == StructureInstanceInitState::Initialized
                && final(instances)@[k].source == old(instances)@[k].source && final(instances)@[k].position == old(instances)@[k].position && final(instances)@[k].layer == old(instances)@[k].layer,
        forall|k: int|
            0 <= k < old(instances)@.len() && (#[trigger] old(instances)@[k]).layer != layer_id
                ==> final(instances)@[k] == old(instances)@[k],
        forall|j: int, cp: ChunkPos|
            #[trigger] inst_registers(old(instances)@, sources@, layer_id, reserved_layer@, j, cp)
                ==> final(structure_layer).smap().contains_key(cp) && final(structure_layer).smap()[cp].contains(j as usize),
        forall|cp: ChunkPos|
            !registered_by_prefix(
                old(instances)@,
                sources@,
                layer_id,
                reserved_layer@,
                old(instances)@.len() as int,
                cp,
            ) ==> #[trigger] smap_unchanged_at(
                final(structure_layer).smap(),
                old(structure_layer).smap(),
                cp,
            ),
        final(structure_layer).pending().len() >= old(structure_layer).pending().len(),
        forall|q: int|
            0 <= q < old(structure_layer).pending().len() ==> #[trigger] final(structure_layer).pending()[q] == old(structure_layer).pending()[q],
        forall|q: int|
            old(structure_layer).pending().len() <= q < final(structure_layer).pending().len()
                ==> inst_defers(
                old(instances)@,
                sources@,
                layer_id,
                reserved_layer@,
                (#[trigger] final(structure_layer).pending()[q]).1 as int,
                final(structure_layer).pending()[q].0,
            ),
        forall|j: int, cp: ChunkPos|
            #[trigger] inst_defers(old(instances)@, sources@, layer_id, reserved_layer@, j, cp)
                ==> final(structure_layer).pending().contains((cp, j as usize)),
        forall|cp: ChunkPos| #[trigger]
            final(chunk_layer)@.contains_key(cp) <==> old(chunk_layer)@.contains_key(cp),
        forall|cp: ChunkPos| #[trigger]
            final(chunk_layer)@.contains_key(cp) ==> final(chunk_layer)@[cp].len() == old(chunk_layer)@[cp].len(),
        forall|w: Vec3i|
            !covered_by_prefix(old(instances)@, sources@, layer_id, old(instances)@.len() as int, w)
                ==> #[trigger] crate::chunk::layer_cell(final(chunk_layer)@, w)
                == crate::chunk::layer_cell(old(chunk_layer)@, w),
        forall|w: Vec3i|
            #![trigger crate::chunk::layer_cell(final(chunk_layer)@, w)]
            covered_by_prefix(old(instances)@, sources@, layer_id, old(instances)@.len() as int, w)
                && crate::chunk::layer_cell(old(chunk_layer)@, w) is Some ==> placed_by_some(
                old(instances)@,
                sources@,
                layer_id,
                final(chunk_layer)@,
                w,
            ),
{
    let ghost gi = old(instances)@;
    let mut k: usize = 0;
    while k < instances.len()
        invariant
            chunk_layer.wf(),
            gi == old(instances)@,
            k <= instances@.len(),
            instances@.len() == gi.len(),
            forall|j: int|
                0 <= j < gi.len() && (#[trigger] gi[j]).layer == layer_id && gi[j].init_state
                    != StructureInstanceInitState::Initialized ==> (gi[j].source < sources@.len()
                    && (*sources@[gi[j].source as int].source).wf() && (*sources@[gi[j].source as int].source).placement_fits(gi[j].position)),
            forall|j: int|
                0 <= j < k && (#[trigger] gi[j]).layer == layer_id ==> instances@[j].init_state
                    == StructureInstanceInitState::Initialized && instances@[j].source == gi[j].source && instances@[j].position == gi[j].position && instances@[j].layer == gi[j].layer,
            forall|j: int|
                0 <= j < gi.len() && (#[trigger] gi[j]).layer != layer_id ==> instances@[j]
                    == gi[j],
            forall|j: int| k <= j < gi.len() ==> instances@[j] == gi[j],
            forall|j: int, cp: ChunkPos|
                (j < k && #[trigger] inst_registers(gi, sources@, layer_id, reserved_layer@, j, cp))
                    ==> structure_layer.smap().contains_key(cp) && structure_layer.smap()[cp].contains(j as usize),
            forall|cp: ChunkPos|
                !registered_by_prefix(gi, sources@, layer_id, reserved_layer@, k as int, cp)
                    ==> #[trigger] smap_unchanged_at(
                    structure_layer.smap(),
                    old(structure_layer).smap(),
                    cp,
                ),
            structure_layer.pending().len() >= old(structure_layer).pending().len(),
            forall|q: int|
                0 <= q < old(structure_layer).pending().len() ==> #[trigger] structure_layer.pending()[q] == old(structure_layer).pending()[q],
            forall|q: int|
                old(structure_layer).pending().len() <= q < structure_layer.pending().len()
                    ==> inst_defers(
                    gi,
                    sources@,
                    layer_id,
                    reserved_layer@,
                    (#[trigger] structure_layer.pending()[q]).1 as int,
                    structure_layer.pending()[q].0,
                ) && structure_layer.pending()[q].1 < k,
            forall|j: int, cp: ChunkPos|
                (j < k && #[trigger] inst_defers(gi, sources@, layer_id, reserved_layer@, j, cp))
                    ==> structure_layer.pending().contains((cp, j as usize)),
            forall|cp: ChunkPos| #[trigger]
                chunk_layer@.contains_key(cp) <==> old(chunk_layer)@.contains_key(cp),
            forall|cp: ChunkPos| #[trigger]
                chunk_layer@.contains_key(cp) ==> chunk_layer@[cp].len() == old(chunk_layer)@[cp].len(),
            forall|w: Vec3i|
                !covered_by_prefix(gi, sources@, layer_id, k as int, w)
                    ==> #[trigger] crate::chunk::layer_cell(chunk_layer@, w)
                    == crate::chunk::layer_cell(old(chunk_layer)@, w),
            forall|w: Vec3i|
                #![trigger crate::chunk::layer_cell(chunk_layer@, w)]
                covered_by_prefix(gi, sources@, layer_id, k as int, w) && crate::chunk::layer_cell(
                    old(chunk_layer)@,
                    w,
                ) is Some ==> placed_by_some(gi, sources@, layer_id, chunk_layer@, w),
        decreases instances@.len() - k,
    {
        let mut inst: StructureInstance = instances[k];
        let ghost inst0 = inst;
        let ghost smap_pre = structure_layer.smap();
        let ghost pend_pre = structure_layer.pending();
        let ghost world_pre = chunk_layer@;
        proof {
            assert(inst0 == gi[k as int]);
        }
        if inst.layer == layer_id {
            init_instance(&mut inst, k, sources, structure_layer, chunk_layer, reserved_layer);
            instances.set(k, inst);
            proof {
            if inst0.init_state
                != StructureInstanceInitState::Initialized {
                let srca = sources@[inst0.source as int].source;
                let corner = corner_of(inst0.position, (*srca).origin_pos);
                let size = (*srca).size;
                let keep = inst0.init_state == StructureInstanceInitState::KeepLoaded;
                assert(pending_of_layer(gi, layer_id, k as int));
                assert(inst_corner(gi, sources@, k as int) == corner);
                assert(inst_size(gi, sources@, k as int) == size);
                assert forall|j: int, cp: ChunkPos|
                    (j < k as int + 1 && #[trigger] inst_registers(
                        gi,
                        sources@,
                        layer_id,
                        reserved_layer@,
                        j,
                        cp,
                    )) implies structure_layer.smap().contains_key(cp)
                    && structure_layer.smap()[cp].contains(j as usize) by {
                    assert(registers_chunk(corner, size, keep, reserved_layer@, cp)
                        ==> structure_layer.smap().contains_key(cp));
                    assert(registers_chunk(
                        corner_of(
                            inst0.position,
                            (*sources@[inst0.source as int].source).origin_pos,
                        ),
                        (*sources@[inst0.source as int].source).size,
                        inst0.init_state == StructureInstanceInitState::KeepLoaded,
                        reserved_layer@,
                        cp,
                    ) ==> structure_layer.smap().contains_key(cp));
                    assert(registers_chunk(corner, size, keep, reserved_layer@, cp)
                        ==> structure_layer.smap().contains_key(cp) && structure_layer.smap()[cp]
                        == (if smap_pre.contains_key(cp) {
                        smap_pre[cp].push(k as usize)
                    } else {
                        seq![k as usize]
                    }));
                    assert(!registers_chunk(corner, size, keep, reserved_layer@, cp) ==> ((
                    structure_layer.smap().contains_key(cp) <==> smap_pre.contains_key(cp)) && (
                    smap_pre.contains_key(cp) ==> structure_layer.smap()[cp] == smap_pre[cp])));
                    if j == k as int {
                        assert(registers_chunk(corner, size, keep, reserved_layer@, cp));
                        if !smap_pre.contains_key(cp) {
                            assert(seq![k as usize][0] == k as usize);
                            assert(seq![k as usize].contains(k as usize));
                        }
                    } else {
                        assert(j < k as int);
                        assert(smap_pre.contains_key(cp) && smap_pre[cp].contains(j as usize));
                    }
                }
                assert forall|cp: ChunkPos|
                    !registered_by_prefix(
                        gi,
                        sources@,
                        layer_id,
                        reserved_layer@,
                        k as int + 1,
                        cp,
                    ) implies smap_unchanged_at(
                    structure_layer.smap(),
                    old(structure_layer).smap(),
                    cp,
                ) by {
                    assert(!inst_registers(gi, sources@, layer_id, reserved_layer@, k as int, cp));
                    if registered_by_prefix(gi, sources@, layer_id, reserved_layer@, k as int, cp) {
                        let j = choose|j: int|
                            0 <= j < k as int && #[trigger] inst_registers(
                                gi,
                                sources@,
                                layer_id,
                                reserved_layer@,
                                j,
                                cp,
                            );
                        assert(inst_registers(gi, sources@, layer_id, reserved_layer@, j, cp));
                        assert(registered_by_prefix(
                            gi,
                            sources@,
                            layer_id,
                            reserved_layer@,
                            k as int + 1,
                            cp,
                        ));
                    }
                    assert(!registered_by_prefix(gi, sources@, layer_id, reserved_layer@, k as int, cp));
                    assert(!registers_chunk(corner, size, keep, reserved_layer@, cp));
                    assert(smap_unchanged_at(smap_pre, old(structure_layer).smap(), cp));
                    assert((structure_layer.smap().contains_key(cp) <==> smap_pre.contains_key(cp))
                        && (smap_pre.contains_key(cp) ==> structure_layer.smap()[cp]
                        == smap_pre[cp]));
                }
                assert forall|q: int|
                    old(structure_layer).pending().len() <= q
                        < structure_layer.pending().len() implies inst_defers(
                    gi,
                    sources@,
                    layer_id,
                    reserved_layer@,
                    (#[trigger] structure_layer.pending()[q]).1 as int,
                    structure_layer.pending()[q].0,
                ) && structure_layer.pending()[q].1 < k as int + 1 by {
                    if q < pend_pre.len() {
                        assert(structure_layer.pending()[q] == pend_pre[q]);
                    } else {
                        assert(structure_layer.pending()[q].1 == k);
                        assert(defers_chunk(
                            corner,
                            size,
                            keep,
                            reserved_layer@,
                            structure_layer.pending()[q].0,
                        ));
                    }
                }
                assert forall|j: int, cp: ChunkPos|
                    (j < k as int + 1 && #[trigger] inst_defers(
                        gi,
                        sources@,
                        layer_id,
                        reserved_layer@,
                        j,
                        cp,
                    )) implies structure_layer.pending().contains((cp, j as usize)) by {
                    if j == k as int {
                        assert(defers_chunk(corner, size, keep, reserved_layer@, cp));
                        assert(structure_layer.pending().contains((cp, k as usize)));
                    } else {
                        assert(pend_pre.contains((cp, j as usize)));
                        let qi = choose|qi: int|
                            0 <= qi < pend_pre.len() && pend_pre[qi] == (cp, j as usize);
                        assert(structure_layer.pending()[qi] == pend_pre[qi]);
                    }
                }
                assert forall|w: Vec3i|
                    !covered_by_prefix(gi, sources@, layer_id, k as int + 1, w) implies crate::chunk::layer_cell(
                    chunk_layer@,
                    w,
                ) == crate::chunk::layer_cell(old(chunk_layer)@, w) by {
                    assert(!inst_covers(gi, sources@, layer_id, k as int, w));
                    if covered_by_prefix(gi, sources@, layer_id, k as int, w) {
                        let j = choose|j: int|
                            0 <= j < k as int && #[trigger] inst_covers(
                                gi,
                                sources@,
                                layer_id,
                                j,
                                w,
                            );
                        assert(inst_covers(gi, sources@, layer_id, j, w));
                        assert(covered_by_prefix(gi, sources@, layer_id, k as int + 1, w));
                    }
                    assert(!covered_by_prefix(gi, sources@, layer_id, k as int, w));
                    assert(crate::chunk::layer_cell(world_pre, w) == crate::chunk::layer_cell(
                        old(chunk_layer)@,
                        w,
                    ));
                    if keep {
                        assert(!crate::in_footprint(corner, size, w));
                        assert(crate::chunk::layer_cell(chunk_layer@, w) == crate::render_cell(
                            world_pre,
                            *srca,
                            corner,
                            w,
                        ));
                    }
                }
                assert forall|w: Vec3i|
                    (covered_by_prefix(gi, sources@, layer_id, k as int + 1, w)
                        && crate::chunk::layer_cell(old(chunk_layer)@, w) is Some) implies placed_by_some(
                    gi,
                    sources@,
                    layer_id,
                    chunk_layer@,
                    w,
                ) by {
                    let cpw = crate::chunk::chunk_pos_of(w);
                    assert(world_pre.contains_key(cpw) <==> old(chunk_layer)@.contains_key(cpw));
                    if world_pre.contains_key(cpw) {
                        assert(world_pre[cpw].len() == old(chunk_layer)@[cpw].len());
                    }
                    assert(crate::chunk::layer_cell(world_pre, w) is Some);
                    if keep && crate::in_footprint(corner, size, w) {
                        assert(crate::chunk::layer_cell(chunk_layer@, w) == crate::render_cell(
                            world_pre,
                            *srca,
                            corner,
                            w,
                        ));
                        assert(inst_covers(gi, sources@, layer_id, k as int, w));
                        assert(inst_block_at(gi, sources@, k as int, w) == (*srca).spec_block_at(
                            crate::footprint_pos(corner, w),
                        ));
                        assert(crate::chunk::layer_cell(chunk_layer@, w) == Some(
                            inst_block_at(gi, sources@, k as int, w),
                        ));
                    } else {
                        assert(!inst_covers(gi, sources@, layer_id, k as int, w));
                        let jw = choose|j: int|
                            0 <= j < k as int + 1 && #[trigger] inst_covers(
                                gi,
                                sources@,
                                layer_id,
                                j,
                                w,
                            );
                        assert(inst_covers(gi, sources@, layer_id, jw, w));
                        assert(jw < k as int);
                        assert(covered_by_prefix(gi, sources@, layer_id, k as int, w));
                        assert(placed_by_some(gi, sources@, layer_id, world_pre, w));
                        if keep {
                            assert(crate::chunk::layer_cell(chunk_layer@, w) == crate::render_cell(
                                world_pre,
                                *srca,
                                corner,
                                w,
                            ));
                        }
                        assert(crate::chunk::layer_cell(chunk_layer@, w)
                            == crate::chunk::layer_cell(world_pre, w));
                        let j1 = choose|j: int|
                            #[trigger] inst_covers(gi, sources@, layer_id, j, w)
                                && crate::chunk::layer_cell(world_pre, w) == Some(
                                inst_block_at(gi, sources@, j, w),
                            );
                        assert(inst_covers(gi, sources@, layer_id, j1, w)
                            && crate::chunk::layer_cell(chunk_layer@, w) == Some(
                            inst_block_at(gi, sources@, j1, w),
                        ));
                    }
                }
            } else {
                assert(!pending_of_layer(gi, layer_id, k as int));
                lemma_init_step_skipped(
                    gi,
                    sources@,
                    layer_id,
                    reserved_layer@,
                    k as int,
                    structure_layer.smap(),
                    old(structure_layer).smap(),
                    chunk_layer@,
                    old(chunk_layer)@,
                );
            }
            }
        } else {
            proof {
                assert(!pending_of_layer(gi, layer_id, k as int));
                lemma_init_step_skipped(
                    gi,
                    sources@,
                    layer_id,
                    reserved_layer@,
                    k as int,
                    structure_layer.smap(),
                    old(structure_layer).smap(),
                    chunk_layer@,
                    old(chunk_layer)@,
                );
            }
        }
        k += 1;
    }
}

/// The worker pool's channels are closed; dispatching after shutdown is a
/// coordinator lifecycle bug, surfaced to the caller.
#[derive(Clone, Copy, PartialEq, Eq, Structural, Debug)]
pub struct PipelineClosed;

/// Reconcile one worker result into the world: install the column if its
/// chunk is still reserved (displacing a column already there is a
/// non-fatal anomaly, reported in the return value so the host may log it);
/// drop it silently if the reservation was cleared while the job was in
/// flight — the deliberate lossy-cancellation policy.
pub fn apply_result(
    chunk_layer: &mut ChunkLayer,
    reserved_layer: &ReservedChunksLayer,
    result: JobResult,
) -> (replaced: bool)
    requires
        old(chunk_layer).wf(),
    ensures
        final(chunk_layer).wf(),
        result.chunk.wf() && reserved_layer@.contains(result.chunk_pos) ==> final(chunk_layer)@
            == old(chunk_layer)@.insert(result.chunk_pos, result.chunk.blocks@) && replaced == old(chunk_layer)@.contains_key(result.chunk_pos),
        !(result.chunk.wf() && reserved_layer@.contains(result.chunk_pos)) ==> final(chunk_layer)@
            == old(chunk_layer)@ && !replaced,
{
    if !reserved_layer.is_reserved(result.chunk_pos) {
        return false;
    }
    if !(result.chunk.height <= crate::chunk::MAX_CHUNK_HEIGHT && result.chunk.blocks.len() as u64
        == 256u64 * result.chunk.height as u64) {
        return false;
    }
    let prev = chunk_layer.insert_chunk(result.chunk_pos, result.chunk);
    prev.is_some()
}

/// The per-tick reconcile procedure: drain every finished result into the
/// world (dropping those whose reservation is gone), then retry the
/// deferred worklist: entries whose chunk is no longer reserved, or whose
/// instance or source is gone, are dropped; entries whose chunk is reserved
/// but not loaded are kept for the next tick; and entries whose chunk is
/// reserved and loaded have the column moved out of the world and
/// dispatched to the workers, which own it until the result returns. On
/// success the returned count says how many results displaced a column
/// that was already present — the non-fatal anomaly of the data model,
/// surfaced so the host can log it.
pub fn structure_update_system(
    instances: &Vec<StructureInstance>,
    sources: &Vec<StructureSource>,
    structure_layer: &mut StructureLayer,
    chunk_layer: &mut ChunkLayer,
    reserved_layer: &ReservedChunksLayer,
) -> (r: Result<usize, PipelineClosed>)
    requires
        old(chunk_layer).wf(),
    ensures
        final(chunk_layer).wf(),
        final(structure_layer).smap() == old(structure_layer).smap(),
        old(structure_layer).pending().len() == 0 ==> r is Ok,
        // every kept worklist entry is reserved, names a live instance, and
        // waits for a chunk that is indeed not loaded
        forall|k: int|
            0 <= k < final(structure_layer).pending().len() ==> {
                let e = #[trigger] final(structure_layer).pending()[k];
                reserved_layer@.contains(e.0) && live_entry(instances@, sources@, e.1) && !final(chunk_layer)@.contains_key(e.0)
            },
        // a reserved pair with a live instance never leaves its chunk behind
        // in the store: the column was dispatched (or is still awaited)
        r is Ok ==> forall|j: int|
            0 <= j < old(structure_layer).pending().len() ==> {
                let e = #[trigger] old(structure_layer).pending()[j];
                (reserved_layer@.contains(e.0) && live_entry(instances@, sources@, e.1)) ==> !final(chunk_layer)@.contains_key(e.0)
            },
        // the store gains only chunks whose reservation still stands
        // (drained results; a cleared reservation drops the result)
        forall|cp: ChunkPos|
            !old(chunk_layer)@.contains_key(cp) && #[trigger] final(chunk_layer)@.contains_key(cp)
                ==> reserved_layer@.contains(cp),
        // and loses only chunks some reserved worklist pair asked to place
        forall|cp: ChunkPos|
            old(chunk_layer)@.contains_key(cp) && !(#[trigger] final(chunk_layer)@.contains_key(
                cp,
            )) ==> exists|j: int|
                0 <= j < old(structure_layer).pending().len() && (#[trigger] old(structure_layer).pending()[j]).0 == cp && reserved_layer@.contains(cp),
{
    let mut anomalies: usize = 0;
    let mut results = channel_drain(&structure_layer.receiver);
    while results.len() > 0
        invariant
            chunk_layer.wf(),
            anomalies <= usize::MAX,
            forall|cp: ChunkPos| #[trigger]
                old(chunk_layer)@.contains_key(cp) ==> chunk_layer@.contains_key(cp),
            forall|cp: ChunkPos|
                #[trigger] chunk_layer@.contains_key(cp) && !old(chunk_layer)@.contains_key(cp)
                    ==> reserved_layer@.contains(cp),
        decreases results@.len(),
    {
        let result = results.pop().unwrap();
        let replaced = apply_result(chunk_layer, reserved_layer, result);
        if replaced && anomalies < usize::MAX {
            anomalies += 1;
        }
    }
    let ghost middrain = chunk_layer@;
    let mut work: Vec<(ChunkPos, usize)> = Vec::new();
    core::mem::swap(&mut work, &mut structure_layer.needs_update);
    proof {
        assert(work@ == old(structure_layer).pending());
        assert(structure_layer.pending() =~= Seq::<(ChunkPos, usize)>::empty());
    }
    let mut idx: usize = 0;
    let ghost work0 = work@;
    while idx < work.len()
        invariant
            chunk_layer.wf(),
            work@ == work0,
            work0 == old(structure_layer).pending(),
            idx <= work@.len(),
            structure_layer.smap() == old(structure_layer).smap(),
            forall|cp: ChunkPos| #[trigger]
                old(chunk_layer)@.contains_key(cp) ==> middrain.contains_key(cp),
            forall|cp: ChunkPos|
                #[trigger] middrain.contains_key(cp) && !old(chunk_layer)@.contains_key(cp)
                    ==> reserved_layer@.contains(cp),
            forall|cp: ChunkPos| #[trigger]
                chunk_layer@.contains_key(cp) ==> middrain.contains_key(cp),
            forall|cp: ChunkPos|
                #[trigger] middrain.contains_key(cp) && !chunk_layer@.contains_key(cp)
                    ==> exists|j: int|
                    0 <= j < idx && (#[trigger] work0[j]).0 == cp && reserved_layer@.contains(cp),
            forall|j: int|
                0 <= j < idx ==> {
                    let e = #[trigger] work0[j];
                    (reserved_layer@.contains(e.0) && live_entry(instances@, sources@, e.1))
                        ==> !chunk_layer@.contains_key(e.0)
                },
            forall|k: int|
                0 <= k < structure_layer.pending().len() ==> {
                    let e = #[trigger] structure_layer.pending()[k];
                    reserved_layer@.contains(e.0) && live_entry(instances@, sources@, e.1)
                        && !chunk_layer@.contains_key(e.0)
                },
        decreases work@.len() - idx,
    {
        let (chunk_pos, entity) = work[idx];
        idx += 1;
        let ghost pend0 = structure_layer.pending();
        let ghost store0 = chunk_layer@;
        let step = process_pending_entry(
            chunk_pos,
            entity,
            instances,
            sources,
            &structure_layer.sender,
            &mut structure_layer.needs_update,
            chunk_layer,
            reserved_layer,
        );
        proof {
            assert forall|k: int| 0 <= k < structure_layer.pending().len() implies {
                let e = #[trigger] structure_layer.pending()[k];
                reserved_layer@.contains(e.0) && live_entry(instances@, sources@, e.1)
                    && !chunk_layer@.contains_key(e.0)
            } by {
                if k < pend0.len() {
                    assert(structure_layer.pending()[k] == pend0[k]);
                } else {
                    assert(structure_layer.pending()[k] == (chunk_pos, entity));
                }
            }
        }
        if step.is_err() {
            proof {
                assert(chunk_layer@ == store0);
            }
            return Err(PipelineClosed);
        }
    }
    Ok(anomalies)
}

/// The worklist entry points at an instance that exists and whose source
/// structure exists: a dangling reference of either kind is a stale entry,
/// handled best effort by dropping it.
pub open spec fn live_entry(
    instances: Seq<StructureInstance>,
    sources: Seq<StructureSource>,
    entity: usize,
) -> bool {
    &&& entity < instances.len()
    &&& instances[entity as int].source < sources.len()
}

/// Retry one deferred `(chunk, instance)` pair, exactly as the reconcile
/// step asks: a pair whose reservation is gone is dropped, and so is a
/// stale instance or source reference, best effort; a reserved but unloaded chunk is kept
/// on the worklist for the next tick; a reserved and loaded chunk has its
/// column moved out of the world and dispatched to the workers. A dispatch
/// attempt against a closed pipeline is the error, and the column goes back
/// into the world so no buffer is lost.
pub fn process_pending_entry(
    chunk_pos: ChunkPos,
    entity: usize,
    instances: &Vec<StructureInstance>,
    sources: &Vec<StructureSource>,
    sender: &flume::Sender<Job>,
    requeue: &mut Vec<(ChunkPos, usize)>,
    chunk_layer: &mut ChunkLayer,
    reserved_layer: &ReservedChunksLayer,
) -> (r: Result<(), PipelineClosed>)
    requires
        old(chunk_layer).wf(),
    ensures
        final(chunk_layer).wf(),
        !(reserved_layer@.contains(chunk_pos) && live_entry(instances@, sources@, entity)) ==> (
        final(chunk_layer)@ == old(chunk_layer)@ && final(requeue)@ == old(requeue)@ && r is Ok),
        reserved_layer@.contains(chunk_pos) && live_entry(instances@, sources@, entity) && !old(chunk_layer)@.contains_key(chunk_pos) ==> (final(chunk_layer)@ == old(chunk_layer)@ && final(requeue)@ == old(requeue)@.push((chunk_pos, entity)) && r is Ok),
        reserved_layer@.contains(chunk_pos) && live_entry(instances@, sources@, entity) && old(chunk_layer)@.contains_key(chunk_pos) ==> (final(requeue)@ == old(requeue)@ && (r is Ok ==> final(chunk_layer)@ == old(chunk_layer)@.remove(chunk_pos)) && (r is Err ==> final(chunk_layer)@ == old(chunk_layer)@)),
{
    if !reserved_layer.is_reserved(chunk_pos) {
        return Ok(());
    }
    if entity >= instances.len() {
        return Ok(());
    }
    if instances[entity].source >= sources.len() {
        return Ok(());
    }
    let position = instances[entity].position;
    let source_idx = instances[entity].source;
    if !chunk_layer.contains_chunk(chunk_pos) {
        requeue.push((chunk_pos, entity));
        return Ok(());
    }
    let chunk = chunk_layer.remove_chunk(chunk_pos).unwrap();
    let structure = share_structure(&sources[source_idx].source);
    match channel_send(sender, Job { structure, chunk_pos, chunk, position }) {
        None => Ok(()),
        Some(job) => {
            chunk_layer.insert_chunk(chunk_pos, job.chunk);
            proof {
                assert(chunk_layer@ =~= old(chunk_layer)@);
            }
            Err(PipelineClosed)
        },
    }
}

} // verus!
