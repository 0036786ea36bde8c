use structure_placement::math::{intersection, round_down, Vec2i, Vec3i};
use structure_placement::structure_layer::StructureInstance;
use structure_placement::Structure;

#[test]
fn chunk_rounding_floors_toward_negative_infinity() {
    assert_eq!(round_down(-1), -1);
    assert_eq!(round_down(-16), -1);
    assert_eq!(round_down(-17), -2);
    assert_eq!(round_down(16), 1);
    assert_eq!(round_down(0), 0);
    assert_eq!(round_down(15), 0);
}

#[test]
fn intersection_of_overlapping_rectangles() {
    let (corner, size) = intersection(
        Vec2i::new(0, 0),
        Vec2i::new(10, 10),
        Vec2i::new(4, 6),
        Vec2i::new(10, 10),
    );
    assert_eq!((corner.x, corner.y), (4, 6));
    assert_eq!((size.x, size.y), (6, 4));
}

#[test]
fn intersection_of_disjoint_rectangles_is_not_positive() {
    let (_, size) = intersection(
        Vec2i::new(0, 0),
        Vec2i::new(4, 4),
        Vec2i::new(10, 0),
        Vec2i::new(4, 4),
    );
    assert!(size.x <= 0);
    let (_, size) = intersection(
        Vec2i::new(0, 0),
        Vec2i::new(4, 4),
        Vec2i::new(0, -9),
        Vec2i::new(4, 4),
    );
    assert!(size.y <= 0);
}

#[test]
fn overlapped_chunks_of_a_placement() {
    let s = Structure {
        size: Vec3i::new(17, 1, 16),
        origin_pos: Vec3i::new(0, 0, 0),
        blocks: vec![1u16; 17 * 16],
    };
    let chunks = StructureInstance::chunks(Vec3i::new(0, 0, 0), &s);
    // x spans cells 0..16 (chunks 0 and 1), z spans cells 0..15 (chunk 0)
    let mut got: Vec<(i32, i32)> = chunks.iter().map(|c| (c.x, c.z)).collect();
    got.sort();
    assert_eq!(got, vec![(0, 0), (1, 0)]);

    let chunks = StructureInstance::chunks(Vec3i::new(-1, 0, -1), &s);
    let mut got: Vec<(i32, i32)> = chunks.iter().map(|c| (c.x, c.z)).collect();
    got.sort();
    assert_eq!(got, vec![(-1, -1), (-1, 0), (0, -1), (0, 0)]);
}
