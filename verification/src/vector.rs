//! Three- and four-component fixed-point vectors.

use vstd::prelude::*;
use crate::fixed::{
    abs_int, clamp32, div_toward_zero, div_trunc, isqrt, lemma_product_bound, ratio, sat_add,
    sat_sub, saturate, scale_ratio, sqrt_floor, ONE,
};

verus! {

/// A point or a direction in world space.
#[derive(Clone, Copy, Debug, PartialEq, Eq, Structural)]
pub struct Vec3 {
    pub x: i32,
    pub y: i32,
    pub z: i32,
}

/// A three-component vector with one extra scalar: a flag on a shape or a
/// query point, a depth or a travel fraction on an event.
#[derive(Clone, Copy, Debug, PartialEq, Eq, Structural)]
pub struct Vec4 {
    pub x: i32,
    pub y: i32,
    pub z: i32,
    pub w: i32,
}

/// The scalar that stores `x` after saturation.
pub open spec fn sat(x: int) -> i32 {
    clamp32(x) as i32
}

impl Vec3 {
    pub open spec fn zero_spec() -> Vec3 {
        Vec3 { x: 0, y: 0, z: 0 }
    }

    /// The exact dot product, in squared raw units.
    pub open spec fn dot_spec(self, o: Vec3) -> int {
        self.x * o.x + self.y * o.y + self.z * o.z
    }

    /// The exact squared length, in squared raw units.
    pub open spec fn length_sq_spec(self) -> int {
        self.dot_spec(self)
    }

    /// The length rounded down to a whole raw unit.
    pub open spec fn length_spec(self) -> int {
        sqrt_floor(self.length_sq_spec())
    }

    pub open spec fn plus_spec(self, o: Vec3) -> Vec3 {
        Vec3 { x: sat(self.x + o.x), y: sat(self.y + o.y), z: sat(self.z + o.z) }
    }

    pub open spec fn minus_spec(self, o: Vec3) -> Vec3 {
        Vec3 { x: sat(self.x - o.x), y: sat(self.y - o.y), z: sat(self.z - o.z) }
    }

    pub open spec fn negated_spec(self) -> Vec3 {
        Vec3 { x: sat(-self.x), y: sat(-self.y), z: sat(-self.z) }
    }

    /// Every component multiplied by `num / den`.
    pub open spec fn scaled_spec(self, num: int, den: int) -> Vec3 {
        Vec3 {
            x: ratio(self.x as int, num, den) as i32,
            y: ratio(self.y as int, num, den) as i32,
            z: ratio(self.z as int, num, den) as i32,
        }
    }

    /// The vector of length one in the same direction; zero stays zero, and
    /// so does a vector shorter than one raw unit.
    pub open spec fn normalized_spec(self) -> Vec3 {
        let len = self.length_spec();
        if len == 0 {
            Vec3::zero_spec()
        } else {
            self.scaled_spec(ONE as int, len)
        }
    }

    /// The vector shortened to length `cap` where it is longer.
    pub open spec fn capped_spec(self, cap: int) -> Vec3 {
        let len = self.length_spec();
        if len > cap {
            self.scaled_spec(cap, len)
        } else {
            self
        }
    }

    /// What is left of the vector after its component along `n` is removed.
    /// `n` need not have length one; a zero `n` removes nothing.
    pub open spec fn slide_spec(self, n: Vec3) -> Vec3 {
        let nn = n.length_sq_spec();
        let vn = self.dot_spec(n);
        if nn == 0 {
            self
        } else {
            Vec3 {
                x: sat(self.x - div_trunc(n.x * vn, nn)),
                y: sat(self.y - div_trunc(n.y * vn, nn)),
                z: sat(self.z - div_trunc(n.z * vn, nn)),
            }
        }
    }

    pub proof fn lemma_dot_bound(self, o: Vec3)
        ensures
            -3 * 0x4000_0000_0000_0000 <= self.dot_spec(o) <= 3 * 0x4000_0000_0000_0000,
    {
        lemma_product_bound(self.x as int, o.x as int, 0x8000_0000, 0x8000_0000);
        lemma_product_bound(self.y as int, o.y as int, 0x8000_0000, 0x8000_0000);
        lemma_product_bound(self.z as int, o.z as int, 0x8000_0000, 0x8000_0000);
    }

    pub proof fn lemma_length_sq_nonneg(self)
        ensures
            0 <= self.length_sq_spec() <= 3 * 0x4000_0000_0000_0000,
            self.length_sq_spec() == 0 <==> self == Vec3::zero_spec(),
    {
        self.lemma_dot_bound(self);
        assert(self.x * self.x >= 0 && (self.x * self.x == 0 <==> self.x == 0))
            by (nonlinear_arith);
        assert(self.y * self.y >= 0 && (self.y * self.y == 0 <==> self.y == 0))
            by (nonlinear_arith);
        assert(self.z * self.z >= 0 && (self.z * self.z == 0 <==> self.z == 0))
            by (nonlinear_arith);
    }

    #[verifier::when_used_as_spec(zero_spec)]
    pub fn zero() -> (r: Vec3)
        ensures
            r == Vec3::zero_spec(),
    {
        Vec3 { x: 0, y: 0, z: 0 }
    }

    pub fn new(x: i32, y: i32, z: i32) -> (r: Vec3)
        ensures
            r == (Vec3 { x, y, z }),
    {
        Vec3 { x, y, z }
    }

    pub fn dot(self, o: Vec3) -> (r: i128)
        ensures
            r as int == self.dot_spec(o),
    {
        proof {
            lemma_product_bound(self.x as int, o.x as int, 0x8000_0000, 0x8000_0000);
            lemma_product_bound(self.y as int, o.y as int, 0x8000_0000, 0x8000_0000);
            lemma_product_bound(self.z as int, o.z as int, 0x8000_0000, 0x8000_0000);
        }
        let a: i128 = (self.x as i128) * (o.x as i128);
        let b: i128 = (self.y as i128) * (o.y as i128);
        let c: i128 = (self.z as i128) * (o.z as i128);
        a + b + c
    }

    pub fn length_sq(self) -> (r: u64)
        ensures
            r as int == self.length_sq_spec(),
    {
        proof {
            self.lemma_length_sq_nonneg();
        }
        let d: i128 = self.dot(self);
        d as u64
    }

    pub fn length(self) -> (r: i64)
        ensures
            r as int == self.length_spec(),
            0 <= r <= 0xffff_ffff,
    {
        let r: u64 = isqrt(self.length_sq());
        r as i64
    }

    pub fn plus(self, o: Vec3) -> (r: Vec3)
        ensures
            r == self.plus_spec(o),
    {
        Vec3 { x: sat_add(self.x, o.x), y: sat_add(self.y, o.y), z: sat_add(self.z, o.z) }
    }

    pub fn minus(self, o: Vec3) -> (r: Vec3)
        ensures
            r == self.minus_spec(o),
    {
        Vec3 { x: sat_sub(self.x, o.x), y: sat_sub(self.y, o.y), z: sat_sub(self.z, o.z) }
    }

    pub fn negated(self) -> (r: Vec3)
        ensures
            r == self.negated_spec(),
    {
        Vec3 { x: sat_sub(0, self.x), y: sat_sub(0, self.y), z: sat_sub(0, self.z) }
    }

    pub fn scaled(self, num: i64, den: i64) -> (r: Vec3)
        requires
            den > 0,
        ensures
            r == self.scaled_spec(num as int, den as int),
    {
        Vec3 {
            x: scale_ratio(self.x, num, den),
            y: scale_ratio(self.y, num, den),
            z: scale_ratio(self.z, num, den),
        }
    }

    pub fn normalized(self) -> (r: Vec3)
        ensures
            r == self.normalized_spec(),
    {
        let len: i64 = self.length();
        if len == 0 {
            Vec3::zero()
        } else {
            self.scaled(ONE as i64, len)
        }
    }

    pub fn capped(self, cap: i32) -> (r: Vec3)
        requires
            cap >= 0,
        ensures
            r == self.capped_spec(cap as int),
    {
        let len: i64 = self.length();
        if len > cap as i64 {
            self.scaled(cap as i64, len)
        } else {
            self
        }
    }

    pub fn slide(self, n: Vec3) -> (r: Vec3)
        ensures
            r == self.slide_spec(n),
    {
        let nn: i128 = n.dot(n);
        let vn: i128 = self.dot(n);
        proof {
            n.lemma_length_sq_nonneg();
            self.lemma_dot_bound(n);
        }
        if nn == 0 {
            self
        } else {
            Vec3 {
                x: remove_along(self.x, n.x, vn, nn),
                y: remove_along(self.y, n.y, vn, nn),
                z: remove_along(self.z, n.z, vn, nn),
            }
        }
    }
}

/// One component of `Vec3::slide`: `a` less the share `c * vn / nn`.
fn remove_along(a: i32, c: i32, vn: i128, nn: i128) -> (r: i32)
    requires
        nn > 0,
        -3 * 0x4000_0000_0000_0000 <= vn <= 3 * 0x4000_0000_0000_0000,
    ensures
        r == sat(a - div_trunc(c * vn, nn as int)),
{
    proof {
        lemma_product_bound(c as int, vn as int, 0x8000_0000, 0xc000_0000_0000_0000);
    }
    let p: i128 = (c as i128) * vn;
    let q: i128 = div_toward_zero(p, nn);
    proof {
        lemma_div_trunc_bound(p as int, nn as int);
    }
    saturate(a as i128 - q)
}

/// Dividing by a positive number does not increase the magnitude.
pub proof fn lemma_div_trunc_bound(a: int, b: int)
    by (nonlinear_arith)
    requires
        b > 0,
    ensures
        abs_int(div_trunc(a, b)) <= abs_int(a),
        a >= 0 ==> div_trunc(a, b) >= 0,
        a <= 0 ==> div_trunc(a, b) <= 0,
{
}

impl Vec4 {
    pub open spec fn zero_spec() -> Vec4 {
        Vec4 { x: 0, y: 0, z: 0, w: 0 }
    }

    /// The first three components.
    pub open spec fn xyz_spec(self) -> Vec3 {
        Vec3 { x: self.x, y: self.y, z: self.z }
    }

    /// A point or normal with its fourth component.
    pub open spec fn from_vec3_spec(v: Vec3, w: i32) -> Vec4 {
        Vec4 { x: v.x, y: v.y, z: v.z, w }
    }

    #[verifier::when_used_as_spec(zero_spec)]
    pub fn zero() -> (r: Vec4)
        ensures
            r == Vec4::zero_spec(),
    {
        Vec4 { x: 0, y: 0, z: 0, w: 0 }
    }

    pub fn new(x: i32, y: i32, z: i32, w: i32) -> (r: Vec4)
        ensures
            r == (Vec4 { x, y, z, w }),
    {
        Vec4 { x, y, z, w }
    }

    #[verifier::when_used_as_spec(xyz_spec)]
    pub fn xyz(self) -> (r: Vec3)
        ensures
            r == self.xyz_spec(),
    {
        Vec3 { x: self.x, y: self.y, z: self.z }
    }

    #[verifier::when_used_as_spec(from_vec3_spec)]
    pub fn from_vec3(v: Vec3, w: i32) -> (r: Vec4)
        ensures
            r == Vec4::from_vec3_spec(v, w),
    {
        Vec4 { x: v.x, y: v.y, z: v.z, w }
    }
}

} // verus!
