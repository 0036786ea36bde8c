//! Integer vector types, chunk-coordinate rounding and 2D rectangle
//! intersection: the geometry underneath structure placement.
use vstd::prelude::*;

verus! {

/// A 3-component integer vector (block positions, grid sizes, anchor offsets).
#[derive(Clone, Copy, PartialEq, Eq, Structural, Debug)]
pub struct Vec3i {
    pub x: i32,
    pub y: i32,
    pub z: i32,
}

impl Vec3i {
    pub fn new(x: i32, y: i32, z: i32) -> (r: Vec3i)
        ensures
            r == (Vec3i { x, y, z }),
    {
        Vec3i { x, y, z }
    }
}

/// A 2-component integer vector (horizontal rectangle corners and sizes).
#[derive(Clone, Copy, PartialEq, Eq, Structural, Debug)]
pub struct Vec2i {
    pub x: i32,
    pub y: i32,
}

impl Vec2i {
    pub fn new(x: i32, y: i32) -> (r: Vec2i)
        ensures
            r == (Vec2i { x, y }),
    {
        Vec2i { x, y }
    }
}

/// The coordinate of a 16x16 horizontal chunk column.
#[derive(Clone, Copy, PartialEq, Eq, Structural, Debug)]
pub struct ChunkPos {
    pub x: i32,
    pub z: i32,
}

impl ChunkPos {
    pub fn new(x: i32, z: i32) -> (r: ChunkPos)
        ensures
            r == (ChunkPos { x, z }),
    {
        ChunkPos { x, z }
    }
}

/// The number of cells in a grid of dimensions `size`.
pub open spec fn size_product(size: Vec3i) -> int {
    (size.x as int) * (size.y as int) * (size.z as int)
}

/// Grid dimensions are strictly positive per axis and small enough that every
/// row-major index fits in an `i32`.
pub open spec fn valid_size(size: Vec3i) -> bool {
    &&& 0 < size.x
    &&& 0 < size.y
    &&& 0 < size.z
    &&& size_product(size) <= i32::MAX
}

/// `p` lies inside a grid of dimensions `size`.
pub open spec fn pos_in_bounds(p: Vec3i, size: Vec3i) -> bool {
    &&& 0 <= p.x < size.x
    &&& 0 <= p.y < size.y
    &&& 0 <= p.z < size.z
}

/// The chunk coordinate covering world coordinate `v`: the floor of `v / 16`.
/// Note `int` division by a positive divisor already rounds toward negative
/// infinity.
pub open spec fn chunk_coord_of(v: int) -> int {
    v / 16
}

/// Floor-divide a world coordinate by the chunk width of 16. Truncating
/// division would round toward zero and give the wrong chunk for negative
/// coordinates.
pub fn round_down(v: i32) -> (r: i32)
    ensures
        r as int == chunk_coord_of(v as int),
        16 * (r as int) <= v as int && (v as int) < 16 * (r as int) + 16,
{
    if v >= 0 {
        let q: u32 = (v as u32) / 16;
        assert((v as u32) as int == v as int);
        assert(16 * (q as int) <= v as int && (v as int) < 16 * (q as int) + 16);
        q as i32
    } else {
        let neg: u64 = (-(v as i64)) as u64;
        let q: u64 = (neg + 15) / 16;
        proof {
            let n = neg as int;
            assert(1 <= n && n <= 0x8000_0000);
            assert(16 * (q as int) - 16 < n && n <= 16 * (q as int));
        }
        (-(q as i64)) as i32
    }
}

/// The smaller of two mathematical integers.
pub open spec fn min_i(a: int, b: int) -> int {
    if a <= b {
        a
    } else {
        b
    }
}

/// The larger of two mathematical integers.
pub open spec fn max_i(a: int, b: int) -> int {
    if a >= b {
        a
    } else {
        b
    }
}

/// `p` lies inside the axis-aligned rectangle with the given corner and size.
pub open spec fn rect_contains(corner: Vec2i, size: Vec2i, px: int, py: int) -> bool {
    &&& corner.x <= px < corner.x + size.x
    &&& corner.y <= py < corner.y + size.y
}

/// Intersect two axis-aligned rectangles, each given as a minimum corner and
/// a size. Returns the corner and size of the overlap; a non-positive size
/// component means the rectangles do not overlap.
pub fn intersection(a_corner: Vec2i, a_size: Vec2i, b_corner: Vec2i, b_size: Vec2i) -> (r: (
    Vec2i,
    Vec2i,
))
    requires
        i32::MIN <= a_corner.x + a_size.x && a_corner.x + a_size.x <= i32::MAX,
        i32::MIN <= a_corner.y + a_size.y && a_corner.y + a_size.y <= i32::MAX,
        i32::MIN <= b_corner.x + b_size.x && b_corner.x + b_size.x <= i32::MAX,
        i32::MIN <= b_corner.y + b_size.y && b_corner.y + b_size.y <= i32::MAX,
    ensures
        r.0.x as int == max_i(a_corner.x as int, b_corner.x as int),
        r.0.y as int == max_i(a_corner.y as int, b_corner.y as int),
        min_i(a_corner.x + a_size.x, b_corner.x + b_size.x) - r.0.x >= i32::MIN ==> r.0.x + r.1.x
            == min_i(a_corner.x + a_size.x, b_corner.x + b_size.x),
        min_i(a_corner.y + a_size.y, b_corner.y + b_size.y) - r.0.y >= i32::MIN ==> r.0.y + r.1.y
            == min_i(a_corner.y + a_size.y, b_corner.y + b_size.y),
        forall|px: int, py: int|
            #[trigger] rect_contains(r.0, r.1, px, py) <==> (rect_contains(
                a_corner,
                a_size,
                px,
                py,
            ) && rect_contains(b_corner, b_size, px, py)),
{
    let a_far_x: i64 = a_corner.x as i64 + a_size.x as i64;
    let a_far_y: i64 = a_corner.y as i64 + a_size.y as i64;
    let b_far_x: i64 = b_corner.x as i64 + b_size.x as i64;
    let b_far_y: i64 = b_corner.y as i64 + b_size.y as i64;
    let res_x: i32 = if a_corner.x >= b_corner.x {
        a_corner.x
    } else {
        b_corner.x
    };
    let res_y: i32 = if a_corner.y >= b_corner.y {
        a_corner.y
    } else {
        b_corner.y
    };
    let far_x: i64 = if a_far_x <= b_far_x {
        a_far_x
    } else {
        b_far_x
    };
    let far_y: i64 = if a_far_y <= b_far_y {
        a_far_y
    } else {
        b_far_y
    };
    let size_x: i64 = far_x - res_x as i64;
    let size_y: i64 = far_y - res_y as i64;
    let size_x: i32 = if size_x < i32::MIN as i64 {
        i32::MIN
    } else {
        size_x as i32
    };
    let size_y: i32 = if size_y < i32::MIN as i64 {
        i32::MIN
    } else {
        size_y as i32
    };
    (Vec2i { x: res_x, y: res_y }, Vec2i { x: size_x, y: size_y })
}

} // verus!
