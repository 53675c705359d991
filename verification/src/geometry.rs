//! Rectangles in the compositor's global logical space.

use vstd::prelude::*;

verus! {

/// A rectangle in the global logical space.
#[derive(Clone, Copy, Debug, PartialEq, Eq, Structural)]
pub struct Region {
    /// Left edge.
    pub x: i32,
    /// Top edge.
    pub y: i32,
    /// Width.
    pub w: u32,
    /// Height.
    pub h: u32,
}

/// The 32-bit unsigned number that keeps the low 32 bits of `v`.
pub open spec fn low_u32(v: int) -> u32 {
    (v % 0x1_0000_0000) as u32
}

/// The 32-bit signed number that keeps the low 32 bits of `v`.
pub open spec fn low_i32(v: int) -> i32 {
    if v % 0x1_0000_0000 < 0x8000_0000 {
        (v % 0x1_0000_0000) as i32
    } else {
        (v % 0x1_0000_0000 - 0x1_0000_0000) as i32
    }
}

/// Keeps the low 32 bits of a 64-bit number, as a signed number.
pub fn signed_low(v: i64) -> (low: i32)
    ensures
        low == low_i32(v as int),
{
    let low: i32 = v as i32;
    assert(v % 0x1_0000_0000 < 0x8000_0000 ==> low == v % 0x1_0000_0000) by (bit_vector)
        requires
            low == v as i32,
    ;
    assert(v % 0x1_0000_0000 >= 0x8000_0000 ==> low == v % 0x1_0000_0000 - 0x1_0000_0000)
        by (bit_vector)
        requires
            low == v as i32,
    ;
    low
}

/// Keeps the low 32 bits of a 64-bit number, as an unsigned number.
pub fn unsigned_low(v: u64) -> (low: u32)
    ensures
        low == low_u32(v as int),
{
    let low: u32 = v as u32;
    assert(low == v % 0x1_0000_0000) by (bit_vector)
        requires
            low == v as u32,
    ;
    low
}

/// Keeps the low 32 bits of a signed 64-bit number, as an unsigned number.
pub fn unsigned_low_of_signed(v: i64) -> (low: u32)
    ensures
        low == low_u32(v as int),
{
    let low: u32 = v as u32;
    assert(low == v % 0x1_0000_0000) by (bit_vector)
        requires
            low == v as u32,
    ;
    low
}

/// Whether `v` is one of the `len` places from `start` on.
pub open spec fn in_span(v: i32, start: i32, len: u32) -> bool {
    start <= v < start + len
}

/// Whether the point lies in the rectangle: at or past its left and top edges, and before its
/// right and bottom ones.
pub open spec fn point_inside(r: Region, x: i32, y: i32) -> bool {
    in_span(x, r.x, r.w) && in_span(y, r.y, r.h)
}

/// Whether `(x, y)` falls inside a logical region.
pub fn contains(r: &Region, x: i32, y: i32) -> (inside: bool)
    ensures
        inside == point_inside(*r, x, y),
{
    x >= r.x && (x as i64) < r.x as i64 + r.w as i64 && y >= r.y && (y as i64) < r.y as i64
        + r.h as i64
}

/// Numbers that fit into 32 bits are kept as they are.
pub proof fn law_low_bits_keep_what_fits(v: int)
    ensures
        i32::MIN <= v <= i32::MAX ==> low_i32(v) == v,
        0 <= v <= u32::MAX ==> low_u32(v) == v,
{
}

/// A rectangle contains its left and top edges and not its right and bottom ones: its own
/// corner where it has an extent, and nothing where it has none.
pub proof fn law_region_is_half_open(r: Region, x: i32, y: i32)
    ensures
        point_inside(r, x, y) <==> r.x <= x < r.x + r.w && r.y <= y < r.y + r.h,
        point_inside(r, r.x, r.y) <==> r.w > 0 && r.h > 0,
        r.w == 0 || r.h == 0 ==> !point_inside(r, x, y),
{
}

/// Whatever the number, the low 32 bits differ from it by a multiple of what 32 bits count.
pub proof fn law_low_bits_are_congruent(v: int)
    ensures
        (low_i32(v) - v) % 0x1_0000_0000 == 0,
        (low_u32(v) - v) % 0x1_0000_0000 == 0,
{
}

/// A region and its neighbour to the right, with no gap between them, share no point, and
/// together contain what a region of their joint width contains.
pub proof fn law_regions_add_up(x: i32, y: i32, w: u32, more: u32, h: u32, px: i32, py: i32)
    requires
        x + w <= i32::MAX,
        w + more <= u32::MAX,
    ensures
        ({
            let left = point_inside(Region { x, y, w, h }, px, py);
            let right = point_inside(Region { x: (x + w) as i32, y, w: more, h }, px, py);
            &&& !(left && right)
            &&& left || right <==> point_inside(Region { x, y, w: (w + more) as u32, h }, px, py)
        }),
{
}

/// Signed or not, the low 32 bits are the same bits.
pub proof fn law_signed_low_bits_are_the_low_bits(v: int)
    ensures
        low_u32(low_i32(v) as int) == low_u32(v),
{
}

} // verus!
