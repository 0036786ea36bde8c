use structure_placement::math::Vec3i;
use structure_placement::{DeserializeError, Structure, AIR};

fn flat_structure(size: Vec3i, origin: Vec3i, code: u16) -> Structure {
    let n = (size.x * size.y * size.z) as usize;
    Structure { size, origin_pos: origin, blocks: vec![code; n] }
}

#[test]
fn index_round_trip_small_grid() {
    let size = Vec3i::new(3, 4, 5);
    for i in 0..60 {
        let p = Structure::index_to_pos(i, size);
        assert_eq!(Structure::pos_to_index(p, size), i);
    }
}

#[test]
fn index_mapping_is_row_major() {
    let size = Vec3i::new(3, 4, 5);
    assert_eq!(Structure::pos_to_index(Vec3i::new(0, 0, 0), size), 0);
    assert_eq!(Structure::pos_to_index(Vec3i::new(1, 0, 0), size), 1);
    assert_eq!(Structure::pos_to_index(Vec3i::new(0, 1, 0), size), 3);
    assert_eq!(Structure::pos_to_index(Vec3i::new(0, 0, 1), size), 12);
    assert_eq!(Structure::pos_to_index(Vec3i::new(2, 3, 4), size), 59);
    let p = Structure::index_to_pos(59, size);
    assert_eq!((p.x, p.y, p.z), (2, 3, 4));
}

#[test]
fn block_at_reads_the_grid() {
    let size = Vec3i::new(2, 2, 2);
    let mut s = flat_structure(size, Vec3i::new(0, 0, 0), 1);
    s.blocks[5] = 9;
    let p = Structure::index_to_pos(5, size);
    assert_eq!(s.block_at(p), 9);
    assert_eq!(s.block_at(Vec3i::new(0, 0, 0)), 1);
}

#[test]
fn serialize_round_trip_preserves_everything() {
    let size = Vec3i::new(2, 3, 2);
    let mut s = flat_structure(size, Vec3i::new(1, -2, 3), 5);
    s.blocks[0] = 0;
    s.blocks[7] = 42;
    let blob = s.serialize();
    let back = Structure::deserialize(&blob).unwrap();
    assert_eq!(back.size, s.size);
    assert_eq!(back.origin_pos, s.origin_pos);
    assert_eq!(back.blocks, s.blocks);
}

#[test]
fn serialize_matches_bincode_layout() {
    let size = Vec3i::new(2, 1, 2);
    let s = Structure {
        size,
        origin_pos: Vec3i::new(-1, 0, 7),
        blocks: vec![1u16, 2, 3, 4],
    };
    let blob = s.serialize();
    let expected =
        bincode::serialize(&((2i32, 1i32, 2i32), (-1i32, 0i32, 7i32), vec![1u16, 2, 3, 4]))
            .unwrap();
    assert_eq!(blob, expected);
}

#[test]
fn corrupt_code_decodes_to_air() {
    let size = Vec3i::new(2, 1, 1);
    let s = Structure { size, origin_pos: Vec3i::new(0, 0, 0), blocks: vec![5u16, 0xFFFF] };
    let blob = s.serialize();
    let back = Structure::deserialize(&blob).unwrap();
    assert_eq!(back.blocks[0], 5);
    assert_eq!(back.blocks[1], AIR);
}

#[test]
fn truncated_header_is_rejected() {
    match Structure::deserialize(&[0u8; 31]) {
        Err(e) => assert_eq!(e, DeserializeError::TruncatedHeader),
        Ok(_) => panic!("expected an envelope failure"),
    }
}

#[test]
fn truncated_block_array_is_rejected() {
    let s = flat_structure(Vec3i::new(2, 2, 2), Vec3i::new(0, 0, 0), 1);
    let mut blob = s.serialize();
    blob.truncate(blob.len() - 1);
    match Structure::deserialize(&blob) {
        Err(e) => assert_eq!(e, DeserializeError::TruncatedBlocks),
        Ok(_) => panic!("expected an envelope failure"),
    }
}

#[test]
fn trailing_bytes_are_tolerated() {
    let s = flat_structure(Vec3i::new(1, 1, 1), Vec3i::new(0, 0, 0), 3);
    let mut blob = s.serialize();
    blob.push(0xAB);
    let back = Structure::deserialize(&blob).unwrap();
    assert_eq!(back.blocks, vec![3u16]);
}

#[test]
fn inconsistent_block_count_is_rejected() {
    // a 2x2x2 header that declares only 3 codes: spec sec 6 makes the count
    // the size product, so this is a hard failure
    let s = Structure {
        size: Vec3i::new(2, 2, 2),
        origin_pos: Vec3i::new(0, 0, 0),
        blocks: vec![1u16, 2, 3],
    };
    let blob = s.serialize();
    match Structure::deserialize(&blob) {
        Err(e) => assert_eq!(e, DeserializeError::InconsistentHeader),
        Ok(_) => panic!("expected a consistency failure"),
    }
}

#[test]
fn non_positive_dimension_is_rejected() {
    let s = Structure {
        size: Vec3i::new(0, 1, 1),
        origin_pos: Vec3i::new(0, 0, 0),
        blocks: vec![],
    };
    let blob = s.serialize();
    match Structure::deserialize(&blob) {
        Err(e) => assert_eq!(e, DeserializeError::InconsistentHeader),
        Ok(_) => panic!("expected a consistency failure"),
    }
}
