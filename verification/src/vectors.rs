//! 2D vector math over plain integer coordinates.

use vstd::prelude::*;

verus! {

/// A pair (x, y) of one numeric type. An immutable value type with no
/// invariant beyond the numeric range of `T`.
#[derive(Clone, Copy, PartialEq, Eq, Structural, Debug, Hash)]
pub struct Vec2<T> {
    pub x: T,
    pub y: T,
}

impl<T> Vec2<T> {
    pub fn new(x: T, y: T) -> (r: Self)
        ensures
            r.x == x,
            r.y == y,
    {
        Vec2 { x, y }
    }
}

/// A product of two values in the signed 32-bit range stays well inside the
/// signed 128-bit range.
proof fn lemma_i32_mul_bound(a: int, b: int)
    by (nonlinear_arith)
    requires
        -0x8000_0000 <= a <= 0x7FFF_FFFF,
        -0x8000_0000 <= b <= 0x7FFF_FFFF,
    ensures
        -0x4000_0000_0000_0000 <= a * b <= 0x4000_0000_0000_0000,
{
}

impl Vec2<i32> {
    /// Component-wise sum.
    pub fn add(self, other: Self) -> (r: Self)
        requires
            i32::MIN <= self.x + other.x <= i32::MAX,
            i32::MIN <= self.y + other.y <= i32::MAX,
        ensures
            r.x == self.x + other.x,
            r.y == self.y + other.y,
    {
        Vec2 { x: self.x + other.x, y: self.y + other.y }
    }

    /// Component-wise difference.
    pub fn sub(self, other: Self) -> (r: Self)
        requires
            i32::MIN <= self.x - other.x <= i32::MAX,
            i32::MIN <= self.y - other.y <= i32::MAX,
        ensures
            r.x == self.x - other.x,
            r.y == self.y - other.y,
    {
        Vec2 { x: self.x - other.x, y: self.y - other.y }
    }

    /// Component-wise scaling.
    pub fn scale(self, k: i32) -> (r: Self)
        requires
            i32::MIN <= self.x * k <= i32::MAX,
            i32::MIN <= self.y * k <= i32::MAX,
        ensures
            r.x == self.x * k,
            r.y == self.y * k,
    {
        Vec2 { x: self.x * k, y: self.y * k }
    }

    /// Dot product, computed exactly in a wide integer.
    pub fn dot(self, other: Self) -> (r: i128)
        ensures
            r == self.x * other.x + self.y * other.y,
    {
        proof {
            lemma_i32_mul_bound(self.x as int, other.x as int);
            lemma_i32_mul_bound(self.y as int, other.y as int);
        }
        self.x as i128 * other.x as i128 + self.y as i128 * other.y as i128
    }

    /// 2D cross product (the z-component of the 3D cross product), computed
    /// exactly in a wide integer.
    pub fn cross(self, other: Self) -> (r: i128)
        ensures
            r == self.x * other.y - self.y * other.x,
    {
        proof {
            lemma_i32_mul_bound(self.x as int, other.y as int);
            lemma_i32_mul_bound(self.y as int, other.x as int);
        }
        self.x as i128 * other.y as i128 - self.y as i128 * other.x as i128
    }

    /// Squared length, computed exactly in a wide integer.
    pub fn len_sq(self) -> (r: i128)
        ensures
            r == self.x * self.x + self.y * self.y,
    {
        proof {
            lemma_i32_mul_bound(self.x as int, self.x as int);
            lemma_i32_mul_bound(self.y as int, self.y as int);
        }
        self.x as i128 * self.x as i128 + self.y as i128 * self.y as i128
    }

    /// Component-wise absolute value.
    pub fn abs(self) -> (r: Self)
        requires
            self.x != i32::MIN,
            self.y != i32::MIN,
        ensures
            r.x == if self.x < 0 { -self.x } else { self.x as int },
            r.y == if self.y < 0 { -self.y } else { self.y as int },
    {
        Vec2 {
            x: if self.x < 0 { -self.x } else { self.x },
            y: if self.y < 0 { -self.y } else { self.y },
        }
    }
}

impl Vec2<u32> {
    /// The same extent as a pair of signed coordinates.
    pub fn as_i32(self) -> (r: Vec2<i32>)
        requires
            self.x <= i32::MAX,
            self.y <= i32::MAX,
        ensures
            r.x == self.x,
            r.y == self.y,
    {
        Vec2 { x: self.x as i32, y: self.y as i32 }
    }
}

} // verus!
