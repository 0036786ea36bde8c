use std::sync::Arc;

use structure_placement::chunk::{ChunkColumn, ChunkLayer};
use structure_placement::math::{ChunkPos, Vec3i};
use structure_placement::reserved_layer::ReservedChunksLayer;
use structure_placement::structure_layer::{
    chunk_worker_step, structure_init_system, structure_update_system, StructureInstance,
    StructureLayer, StructureSource,
};
use structure_placement::{Structure, AIR};

const STONE: u16 = 1;

fn flat_structure(sx: i32, sy: i32, sz: i32, code: u16) -> Structure {
    Structure {
        size: Vec3i::new(sx, sy, sz),
        origin_pos: Vec3i::new(0, 0, 0),
        blocks: vec![code; (sx * sy * sz) as usize],
    }
}

#[test]
fn chunk_column_get_set() {
    let mut col = ChunkColumn::with_height(4);
    assert_eq!(col.get(3, 2, 15), AIR);
    col.set(3, 2, 15, 7);
    assert_eq!(col.get(3, 2, 15), 7);
    assert_eq!(col.get(3, 2, 14), AIR);
}

#[test]
fn chunk_layer_stores_and_reads_columns() {
    let mut world = ChunkLayer::new();
    assert!(world.block(Vec3i::new(1, 0, 1)).is_none());
    assert!(world.insert_chunk(ChunkPos::new(0, 0), ChunkColumn::with_height(4)).is_none());
    assert_eq!(world.block(Vec3i::new(1, 0, 1)), Some(AIR));
    assert!(world.set_block(Vec3i::new(1, 0, 1), 9));
    assert_eq!(world.block(Vec3i::new(1, 0, 1)), Some(9));
    // out of the column's height, and outside the loaded chunk
    assert!(!world.set_block(Vec3i::new(1, 4, 1), 9));
    assert!(!world.set_block(Vec3i::new(-1, 0, 1), 9));
    let col = world.remove_chunk(ChunkPos::new(0, 0)).unwrap();
    assert_eq!(col.get(1, 0, 1), 9);
    assert!(world.block(Vec3i::new(1, 0, 1)).is_none());
}

#[test]
fn reservation_is_pure_membership() {
    let mut reserved = ReservedChunksLayer::new();
    let p = ChunkPos::new(-3, 7);
    assert!(!reserved.is_reserved(p));
    reserved.set_reserved(p, true);
    assert!(reserved.is_reserved(p));
    assert!(!reserved.is_reserved(ChunkPos::new(7, -3)));
    reserved.set_reserved(p, false);
    assert!(!reserved.is_reserved(p));
}

#[test]
fn place_on_chunk_clips_to_the_column() {
    // anchor at (8, 0, 8): footprint covers cells 8..24 on both axes,
    // so chunk (0, 0) receives its 8..16 corner only
    let s = flat_structure(16, 2, 16, STONE);
    let mut col = ChunkColumn::with_height(4);
    StructureInstance::place_on_chunk(Vec3i::new(8, 0, 8), &s, ChunkPos::new(0, 0), &mut col);
    assert_eq!(col.get(8, 0, 8), STONE);
    assert_eq!(col.get(15, 1, 15), STONE);
    assert_eq!(col.get(7, 0, 8), AIR);
    assert_eq!(col.get(8, 0, 7), AIR);
    assert_eq!(col.get(8, 2, 8), AIR);
    // the neighbouring chunk receives the other corner
    let mut col = ChunkColumn::with_height(4);
    StructureInstance::place_on_chunk(Vec3i::new(8, 0, 8), &s, ChunkPos::new(1, 1), &mut col);
    assert_eq!(col.get(0, 0, 0), STONE);
    assert_eq!(col.get(7, 1, 7), STONE);
    assert_eq!(col.get(8, 0, 0), AIR);
}

#[test]
fn keep_loaded_places_synchronously_without_workers() {
    // scenario: a 16x1x16 structure placed exactly at a chunk boundary
    let (mut layer, workers) = StructureLayer::new();
    let mut world = ChunkLayer::new();
    let reserved = ReservedChunksLayer::new();
    world.insert_chunk(ChunkPos::new(0, 0), ChunkColumn::with_height(4));
    let sources = vec![StructureSource { source: Arc::new(flat_structure(16, 1, 16, STONE)) }];
    let mut instances = vec![StructureInstance::new(0, 0, Vec3i::new(0, 0, 0), true)];

    structure_init_system(&mut instances, &sources, 0, &mut layer, &mut world, &reserved);

    for &(x, z) in &[(0, 0), (15, 15), (7, 8)] {
        assert_eq!(world.block(Vec3i::new(x, 0, z)), Some(STONE));
    }
    // no job was ever handed to the worker pool
    assert!(!chunk_worker_step(&workers));
    // the instance is registered against its chunk for reloads
    assert_eq!(layer.instances_at(ChunkPos::new(0, 0)), Some(&vec![0usize]));
    assert_eq!(layer.needs_update.len(), 0);
}

#[test]
fn deferred_placement_waits_for_reservation_and_load() {
    // scenario: keepLoaded = false over an unreserved chunk
    let (mut layer, workers) = StructureLayer::new();
    let mut world = ChunkLayer::new();
    let mut reserved = ReservedChunksLayer::new();
    let sources = vec![StructureSource { source: Arc::new(flat_structure(16, 1, 16, STONE)) }];
    let mut instances = vec![StructureInstance::new(0, 0, Vec3i::new(0, 0, 0), false)];

    structure_init_system(&mut instances, &sources, 0, &mut layer, &mut world, &reserved);
    assert_eq!(layer.needs_update.len(), 1);
    assert!(world.block(Vec3i::new(0, 0, 0)).is_none());

    // reserved, but the chunk is not loaded yet: entry is kept for next tick
    reserved.set_reserved(ChunkPos::new(0, 0), true);
    structure_update_system(&instances, &sources, &mut layer, &mut world, &reserved).unwrap();
    assert_eq!(layer.needs_update.len(), 1);

    // reserved and loaded: the column is moved into the pipeline
    world.insert_chunk(ChunkPos::new(0, 0), ChunkColumn::with_height(4));
    structure_update_system(&instances, &sources, &mut layer, &mut world, &reserved).unwrap();
    assert_eq!(layer.needs_update.len(), 0);
    assert!(world.block(Vec3i::new(0, 0, 0)).is_none(), "column is owned by the pipeline");

    assert!(chunk_worker_step(&workers));
    structure_update_system(&instances, &sources, &mut layer, &mut world, &reserved).unwrap();
    assert_eq!(world.block(Vec3i::new(0, 0, 0)), Some(STONE));
    assert_eq!(world.block(Vec3i::new(15, 0, 15)), Some(STONE));
}

#[test]
fn deferred_placement_dropped_when_reservation_clears() {
    let (mut layer, _workers) = StructureLayer::new();
    let mut world = ChunkLayer::new();
    let mut reserved = ReservedChunksLayer::new();
    let sources = vec![StructureSource { source: Arc::new(flat_structure(16, 1, 16, STONE)) }];
    let mut instances = vec![StructureInstance::new(0, 0, Vec3i::new(0, 0, 0), false)];

    structure_init_system(&mut instances, &sources, 0, &mut layer, &mut world, &reserved);
    assert_eq!(layer.needs_update.len(), 1);

    // the reservation comes and goes before the chunk ever loads
    reserved.set_reserved(ChunkPos::new(0, 0), true);
    reserved.set_reserved(ChunkPos::new(0, 0), false);
    world.insert_chunk(ChunkPos::new(0, 0), ChunkColumn::with_height(4));
    structure_update_system(&instances, &sources, &mut layer, &mut world, &reserved).unwrap();
    assert_eq!(layer.needs_update.len(), 0, "entry silently dropped");
    assert_eq!(world.block(Vec3i::new(0, 0, 0)), Some(AIR), "never applied");
}

#[test]
fn many_instances_drain_through_the_pipeline() {
    // several instances spanning more chunks than any worker count
    let (mut layer, workers) = StructureLayer::new();
    let mut world = ChunkLayer::new();
    let mut reserved = ReservedChunksLayer::new();
    let sources = vec![StructureSource { source: Arc::new(flat_structure(32, 1, 32, STONE)) }];
    let anchors = [Vec3i::new(0, 0, 0), Vec3i::new(64, 0, 0), Vec3i::new(128, 0, 0)];
    let mut instances: Vec<StructureInstance> =
        anchors.iter().map(|&p| StructureInstance::new(0, 0, p, false)).collect();

    structure_init_system(&mut instances, &sources, 0, &mut layer, &mut world, &reserved);
    assert_eq!(layer.needs_update.len(), 12);

    let mut all_chunks: Vec<ChunkPos> = Vec::new();
    for base in [0, 4, 8] {
        for cx in base..base + 2 {
            for cz in 0..2 {
                all_chunks.push(ChunkPos::new(cx, cz));
            }
        }
    }
    for &cp in &all_chunks {
        reserved.set_reserved(cp, true);
        world.insert_chunk(cp, ChunkColumn::with_height(4));
    }
    structure_update_system(&instances, &sources, &mut layer, &mut world, &reserved).unwrap();
    assert_eq!(layer.needs_update.len(), 0);
    // every column is owned by exactly one side: all twelve are in flight
    for &cp in &all_chunks {
        assert!(world.block(Vec3i::new(cp.x * 16, 0, cp.z * 16)).is_none());
    }
    let mut processed = 0;
    while chunk_worker_step(&workers) {
        processed += 1;
    }
    assert_eq!(processed, 12);
    structure_update_system(&instances, &sources, &mut layer, &mut world, &reserved).unwrap();
    for &cp in &all_chunks {
        assert_eq!(world.block(Vec3i::new(cp.x * 16, 0, cp.z * 16)), Some(STONE));
        assert_eq!(world.block(Vec3i::new(cp.x * 16 + 15, 0, cp.z * 16 + 15)), Some(STONE));
    }
}

#[test]
fn instance_state_machine_fires_once() {
    let (mut layer, _workers) = StructureLayer::new();
    let mut world = ChunkLayer::new();
    let reserved = ReservedChunksLayer::new();
    let sources = vec![StructureSource { source: Arc::new(flat_structure(4, 1, 4, STONE)) }];
    let mut instances = vec![StructureInstance::new(0, 0, Vec3i::new(0, 0, 0), true)];
    world.insert_chunk(ChunkPos::new(0, 0), ChunkColumn::with_height(4));

    structure_init_system(&mut instances, &sources, 0, &mut layer, &mut world, &reserved);
    assert_eq!(layer.instances_at(ChunkPos::new(0, 0)), Some(&vec![0usize]));
    // a second tick does not re-register or re-place anything
    structure_init_system(&mut instances, &sources, 0, &mut layer, &mut world, &reserved);
    assert_eq!(layer.instances_at(ChunkPos::new(0, 0)), Some(&vec![0usize]));
}

#[test]
fn placement_checker_matches_the_contract() {
    let good = flat_structure(4, 1, 4, STONE);
    assert!(structure_placement::structure_layer::placement_ok(&good, Vec3i::new(0, 0, 0)));
    // wrong block-array length is not well formed
    let bad = Structure {
        size: Vec3i::new(2, 1, 2),
        origin_pos: Vec3i::new(0, 0, 0),
        blocks: vec![STONE; 3],
    };
    assert!(!structure_placement::structure_layer::placement_ok(&bad, Vec3i::new(0, 0, 0)));
    // a placement whose far corner leaves i32 is refused
    assert!(!structure_placement::structure_layer::placement_ok(
        &good,
        Vec3i::new(i32::MAX - 1, 0, 0)
    ));
}

#[test]
fn stale_worklist_entry_is_dropped() {
    let (mut layer, _workers) = StructureLayer::new();
    let mut world = ChunkLayer::new();
    let mut reserved = ReservedChunksLayer::new();
    let sources = vec![StructureSource { source: Arc::new(flat_structure(16, 1, 16, STONE)) }];
    let mut instances = vec![StructureInstance::new(0, 0, Vec3i::new(0, 0, 0), false)];
    structure_init_system(&mut instances, &sources, 0, &mut layer, &mut world, &reserved);
    assert_eq!(layer.needs_update.len(), 1);
    reserved.set_reserved(ChunkPos::new(0, 0), true);
    world.insert_chunk(ChunkPos::new(0, 0), ChunkColumn::with_height(4));
    // the instance vanishes before reconcile: the entry is dropped, best effort
    instances.clear();
    structure_update_system(&instances, &sources, &mut layer, &mut world, &reserved).unwrap();
    assert_eq!(layer.needs_update.len(), 0);
    assert_eq!(world.block(Vec3i::new(0, 0, 0)), Some(AIR));
}
