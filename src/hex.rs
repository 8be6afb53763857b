//! Hexagonal geometry: directions, relative angles, steps between cells and
//! wrap-around of coordinates on a toroidal grid.
use vstd::prelude::*;
use vstd::arithmetic::div_mod::{lemma_mod_add_multiples_vanish, lemma_mod_sub_multiples_vanish, lemma_small_mod};

verus! {

/// Number of directions on the hexagonal wheel.
pub const DIRECTIONS: u8 = 6;

/// Column offset of one step towards direction `d` (0..6, clockwise from +Y).
pub open spec fn dir_dx(d: int) -> int {
    if d == 0 {
        0
    } else if d == 1 || d == 2 {
        1
    } else if d == 3 {
        0
    } else {
        -1
    }
}

/// Row offset of one step towards direction `d`.
pub open spec fn dir_dy(d: int) -> int {
    if d == 0 || d == 5 {
        1
    } else if d == 1 || d == 4 {
        0
    } else {
        -1
    }
}

/// The direction reached by rotating `d` clockwise by `a` sixths of a turn.
pub open spec fn rotated(d: int, a: int) -> int {
    (d + a) % 6
}

/// Relies on hex2d's `Direction + Angle` (with `Direction::from_int`,
/// `Angle::from_int` and `Direction::to_int`): the sum of the two indices
/// taken modulo six.
#[verifier::external_body]
pub(crate) fn rotate(dir: u8, angle: u8) -> (r: u8)
    requires
        dir < 6,
        angle < 6,
    ensures
        r as int == rotated(dir as int, angle as int),
        r < 6,
{
    let d = hex2d::Direction::from_int(dir as i8) + hex2d::Angle::from_int(angle as i8);
    d.to_int::<i8>() as u8
}

/// Relies on hex2d's `Coordinate + Direction`: the coordinate moved by the
/// direction's unit offset.
#[verifier::external_body]
pub(crate) fn step(x: i32, y: i32, dir: u8) -> (r: (i32, i32))
    requires
        dir < 6,
        -0x4000_0000 <= x < 0x4000_0000,
        -0x4000_0000 <= y < 0x4000_0000,
    ensures
        r.0 == x + dir_dx(dir as int),
        r.1 == y + dir_dy(dir as int),
{
    let c = hex2d::Coordinate::new(x, y) + hex2d::Direction::from_int(dir as i8);
    (c.x, c.y)
}

/// Brings `v`, at most one grid length out of range, back into `0..n`.
pub fn wrap_coord(v: i32, n: usize) -> (r: usize)
    requires
        0 < n <= 0x4000_0000,
        -(n as int) <= v < 2 * n,
    ensures
        r as int == v as int % n as int,
        r < n,
{
    proof {
        lemma_mod_add_multiples_vanish(v as int, n as int);
        lemma_mod_sub_multiples_vanish(v as int, n as int);
    }
    if v < 0 {
        let r = (v + n as i32) as usize;
        proof {
            lemma_small_mod(r as nat, n as nat);
        }
        r
    } else if v as usize >= n {
        let r = (v - n as i32) as usize;
        proof {
            lemma_small_mod(r as nat, n as nat);
        }
        r
    } else {
        proof {
            lemma_small_mod(v as nat, n as nat);
        }
        v as usize
    }
}

} // verus!
