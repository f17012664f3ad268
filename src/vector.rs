use vstd::arithmetic::div_mod::{
    lemma_div_multiples_vanish_fancy, lemma_fundamental_div_mod, lemma_mod_bound, lemma_mod_multiples_vanish,
};
use vstd::prelude::*;

verus! {

/// An integer 3-vector: a voxel position, a chunk coordinate or a unit step.
#[derive(Copy, Clone, Debug, PartialEq, Eq, Structural)]
pub struct Vec3i {
    pub x: i32,
    pub y: i32,
    pub z: i32,
}

impl Vec3i {
    pub fn new(x: i32, y: i32, z: i32) -> (r: Vec3i)
        ensures
            r == (Vec3i { x, y, z }),
    {
        Vec3i { x, y, z }
    }
}

/// Shifting by a multiple of `m` shifts the quotient and keeps the remainder.
pub(crate) proof fn lemma_shifted_div_mod(v: int, a: int, m: int)
    requires
        m > 0,
    ensures
        (m * a + v) / m == a + v / m,
        (m * a + v) % m == v % m,
{
    lemma_mod_multiples_vanish(a, v, m);
    lemma_fundamental_div_mod(v, m);
    lemma_mod_bound(v, m);
    assert(m * a + v == m * (a + v / m) + v % m) by (nonlinear_arith)
        requires
            v == m * (v / m) + v % m,
    ;
    lemma_div_multiples_vanish_fancy(a + v / m, v % m, m);
}

} // verus!
