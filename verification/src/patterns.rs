use vstd::prelude::*;

verus! {

/// Whether an integer is even. The procedural patterns are piecewise
/// constant in `floor(coordinate) mod 2`, so the choice between their two
/// colors comes down to the parity of a floored coordinate.
pub open spec fn is_even(n: int) -> bool {
    n % 2 == 0
}

/// Whether a striped pattern shows its first color at a point whose
/// pattern-space x coordinate has the given floor: stripes alternate along
/// x, with the first color on the even-numbered unit intervals.
pub fn striped_uses_first(x_floor: i64) -> (r: bool)
    ensures
        r == is_even(x_floor as int),
{
    x_floor % 2 == 0
}

/// Whether a checker pattern shows its first color at a point whose
/// pattern-space coordinates have the given floors: the cells alternate in
/// every axis, so the choice follows the parity of the floors' sum.
pub fn checker_uses_first(x_floor: i64, y_floor: i64, z_floor: i64) -> (r: bool)
    requires
        -0x1000_0000_0000_0000 <= x_floor <= 0x1000_0000_0000_0000,
        -0x1000_0000_0000_0000 <= y_floor <= 0x1000_0000_0000_0000,
        -0x1000_0000_0000_0000 <= z_floor <= 0x1000_0000_0000_0000,
    ensures
        r == is_even(x_floor + y_floor + z_floor),
{
    (x_floor + y_floor + z_floor) % 2 == 0
}

/// Whether a ring pattern shows its first color at a point whose distance
/// from the pattern's y axis has the given floor: concentric rings in the
/// x–z plane alternate outward, with the first color on the even-numbered
/// rings. A distance is never negative.
pub fn ring_uses_first(radius_floor: i64) -> (r: bool)
    requires
        radius_floor >= 0,
    ensures
        r == is_even(radius_floor as int),
{
    radius_floor % 2 == 0
}

} // verus!
