//! Geometry value records.
//!
//! The parser only constructs these records; it never mutates them after
//! construction. The scalar type is generic so that the same records can
//! carry parsed literal values or machine integers.

use vstd::prelude::*;

verus! {

/// Square-root operation for scalar types.
///
/// Each scalar type states its own precondition and the relation between the
/// argument and the returned root.
pub trait Sqrt: Sized {
    spec fn sqrt_req(self) -> bool;

    spec fn sqrt_post(self, r: Self) -> bool;

    fn sqrt(self) -> (r: Self)
        requires
            self.sqrt_req(),
        ensures
            self.sqrt_post(r),
    ;
}

#[derive(Debug, Clone, PartialEq)]
pub struct Vector2<T> {
    pub x: T,
    pub y: T,
}

#[derive(Debug, Clone, PartialEq)]
pub struct Vector3<T> {
    pub x: T,
    pub y: T,
    pub z: T,
}

pub type Vector2i = Vector2<i64>;

pub type Vector3i = Vector3<i64>;

/// The vector type the scene embedding computes with. The verifier takes
/// no floating point, so in this library the scalar is fixed to the 64-bit
/// integer: the square root, length and normalization below carry exact
/// integer contracts, and an embedding that wants machine floats
/// instantiates `Vector3` with its own scalar outside the library.
pub type Vector3f = Vector3<i64>;

impl<T> Vector3<T> {
    pub fn new(x: T, y: T, z: T) -> (v: Vector3<T>)
        ensures
            v == (Vector3 { x, y, z }),
    {
        Vector3 { x, y, z }
    }
}

#[derive(Debug, Clone, PartialEq)]
pub struct Point2<T> {
    pub x: T,
    pub y: T,
}

pub type Point2i = Point2<i64>;

#[derive(Debug, Clone, PartialEq)]
pub struct Point3<T> {
    pub x: T,
    pub y: T,
    pub z: T,
}

pub type Point3i = Point3<i64>;

#[derive(Debug, Clone, PartialEq)]
pub struct Normal3<T> {
    pub x: T,
    pub y: T,
    pub z: T,
}

pub type Normal3i = Normal3<i64>;

/// The integer square root: the largest `r` with `r * r <= x`.
pub open spec fn is_int_sqrt(x: int, r: int) -> bool {
    r >= 0 && r * r <= x && x < (r + 1) * (r + 1)
}

/// Division truncated toward zero, as machine division computes it.
pub open spec fn trunc_div(a: int, b: int) -> int {
    if a >= 0 {
        a / b
    } else {
        -((-a) / b)
    }
}

/// Binary search for the integer square root.
fn isqrt_i64(x: i64) -> (r: i64)
    requires
        x >= 0,
    ensures
        is_int_sqrt(x as int, r as int),
{
    if x == 0 {
        return 0;
    }
    let mut lo: i64 = 0;
    let mut hi: i64 = 3037000500;
    proof {
        assert((3037000500int) * 3037000500int > i64::MAX);
    }
    while lo + 1 < hi
        invariant
            0 <= lo < hi <= 3037000500,
            (lo as int) * (lo as int) <= x,
            (x as int) < (hi as int) * (hi as int),
        decreases hi - lo,
    {
        let mid = lo + (hi - lo) / 2;
        proof {
            assert(lo < mid < hi);
            assert((mid as int) * (mid as int) <= 3037000499int * 3037000499int)
                by (nonlinear_arith)
                requires
                    0 <= mid <= 3037000499int,
            ;
            assert(3037000499int * 3037000499int < i64::MAX);
        }
        let mm = mid * mid;
        if mm <= x {
            lo = mid;
        } else {
            hi = mid;
        }
    }
    lo
}

impl Sqrt for i64 {
    open spec fn sqrt_req(self) -> bool {
        self >= 0
    }

    open spec fn sqrt_post(self, r: Self) -> bool {
        is_int_sqrt(self as int, r as int)
    }

    fn sqrt(self) -> (r: Self) {
        isqrt_i64(self)
    }
}

/// The squared length of an integer vector, as an unbounded integer.
pub open spec fn spec_length_squared(v: Vector3f) -> int {
    (v.x as int) * (v.x as int) + (v.y as int) * (v.y as int) + (v.z as int) * (v.z as int)
}

impl Vector3f {
    /// The squared Euclidean length.
    pub fn length_squared(&self) -> (r: i64)
        requires
            spec_length_squared(*self) <= i64::MAX,
        ensures
            r as int == spec_length_squared(*self),
    {
        proof {
            assert((self.x as int) * (self.x as int) >= 0 && (self.y as int) * (self.y as int)
                >= 0 && (self.z as int) * (self.z as int) >= 0) by (nonlinear_arith);
        }
        self.x * self.x + self.y * self.y + self.z * self.z
    }

    /// The Euclidean length, rounded down to the integer square root of the
    /// squared length.
    pub fn length(&self) -> (r: i64)
        requires
            spec_length_squared(*self) <= i64::MAX,
        ensures
            is_int_sqrt(spec_length_squared(*self), r as int),
    {
        let sq = self.length_squared();
        proof {
            assert(spec_length_squared(*self) >= 0) by (nonlinear_arith);
        }
        sq.sqrt()
    }

    /// The vector scaled down by its length, componentwise, with machine
    /// division truncated toward zero.
    pub fn normalize(&self) -> (v: Vector3f)
        requires
            spec_length_squared(*self) <= i64::MAX,
            spec_length_squared(*self) > 0,
        ensures
            exists|l: int|
                #[trigger] is_int_sqrt(spec_length_squared(*self), l) && v.x as int == trunc_div(
                    self.x as int,
                    l,
                ) && v.y as int == trunc_div(self.y as int, l) && v.z as int == trunc_div(
                    self.z as int,
                    l,
                ),
    {
        let len = self.length();
        proof {
            assert(len >= 1) by {
                assert(len >= 0 && (len as int + 1) * (len as int + 1) > spec_length_squared(
                    *self,
                ));
                if len == 0 {
                    assert((0int + 1) * (0int + 1) == 1);
                }
            }
        }
        let vx = self.x / len;
        let vy = self.y / len;
        let vz = self.z / len;
        proof {
            assert(vx as int == trunc_div(self.x as int, len as int));
            assert(vy as int == trunc_div(self.y as int, len as int));
            assert(vz as int == trunc_div(self.z as int, len as int));
        }
        Vector3 { x: vx, y: vy, z: vz }
    }
}

} // verus!
