use vstd::prelude::*;

pub mod raycasting;
pub mod shape;

verus! {

#[derive(Debug, Clone, Copy, PartialEq, Eq, Structural)]
pub enum Axis {
    X,
    Y,
    Z,
}

#[derive(Debug, Clone, Copy, PartialEq, Eq, Structural)]
pub enum Direction {
    Up,
    Right,
    Down,
    Left,
}

#[derive(Debug, Clone, Copy, PartialEq, Eq, Structural)]
pub enum TriangularDirection {
    Left,
    Right,
    Down,
}

/// A vector of three signed integers.
#[derive(Debug, Default, Clone, Copy, PartialEq, Eq, Structural, Hash)]
pub struct IVec3 {
    pub x: i32,
    pub y: i32,
    pub z: i32,
}

/// A vector of two signed integers.
#[derive(Debug, Default, Clone, Copy, PartialEq, Eq, Structural, Hash)]
pub struct IVec2 {
    pub x: i32,
    pub y: i32,
}

/// A vector of two unsigned integers.
#[derive(Debug, Default, Clone, Copy, PartialEq, Eq, Structural, Hash)]
pub struct UVec2 {
    pub x: u32,
    pub y: u32,
}

/// A vector of three unsigned integers.
#[derive(Debug, Default, Clone, Copy, PartialEq, Eq, Structural, Hash)]
pub struct UVec3 {
    pub x: u32,
    pub y: u32,
    pub z: u32,
}

impl IVec3 {
    pub fn new(x: i32, y: i32, z: i32) -> (r: Self)
        ensures
            r == (IVec3 { x, y, z }),
    {
        IVec3 { x, y, z }
    }

    /// The vector as a tuple, the form in which it keys hash collections.
    pub open spec fn key(self) -> (i32, i32, i32) {
        (self.x, self.y, self.z)
    }

    pub fn to_key(&self) -> (r: (i32, i32, i32))
        ensures
            r == self.key(),
    {
        (self.x, self.y, self.z)
    }

    pub open spec fn from_key(k: (i32, i32, i32)) -> IVec3 {
        IVec3 { x: k.0, y: k.1, z: k.2 }
    }

    /// The sum of the three components.
    pub open spec fn spec_element_sum(self) -> int {
        self.x + self.y + self.z
    }

    pub fn element_sum(&self) -> (r: i32)
        requires
            i32::MIN <= self.x + self.y <= i32::MAX,
            i32::MIN <= self.spec_element_sum() <= i32::MAX,
        ensures
            r == self.spec_element_sum(),
    {
        self.x + self.y + self.z
    }
}

impl IVec2 {
    pub fn new(x: i32, y: i32) -> (r: Self)
        ensures
            r == (IVec2 { x, y }),
    {
        IVec2 { x, y }
    }
}

impl UVec2 {
    pub fn new(x: u32, y: u32) -> (r: Self)
        ensures
            r == (UVec2 { x, y }),
    {
        UVec2 { x, y }
    }
}

/// Division truncating towards zero, as Rust's `/` on signed integers does.
pub open spec fn trunc_div(x: int, d: int) -> int
    recommends
        d > 0,
{
    if x >= 0 {
        x / d
    } else {
        -((-x) / d)
    }
}

/// The remainder that goes with `trunc_div`: it has the sign of `x`.
pub open spec fn trunc_rem(x: int, d: int) -> int
    recommends
        d > 0,
{
    if x >= 0 {
        x % d
    } else {
        -((-x) % d)
    }
}

pub proof fn lemma_trunc_div_rem(x: int, d: int)
    requires
        d > 0,
    ensures
        x == d * trunc_div(x, d) + trunc_rem(x, d),
        -d < trunc_rem(x, d) < d,
        x >= 0 ==> 0 <= trunc_rem(x, d),
        x < 0 ==> trunc_rem(x, d) <= 0,
        x >= 0 ==> trunc_div(x, d) >= 0,
        x < 0 ==> trunc_div(x, d) <= 0,
        x >= 0 ==> trunc_div(x, d) <= x,
        x < 0 ==> trunc_div(x, d) >= x,
{
    if x >= 0 {
        vstd::arithmetic::div_mod::lemma_fundamental_div_mod(x, d);
        vstd::arithmetic::div_mod::lemma_div_pos_is_pos(x, d);
        vstd::arithmetic::div_mod::lemma_div_is_ordered_by_denominator(x, 1, d);
    } else {
        vstd::arithmetic::div_mod::lemma_fundamental_div_mod(-x, d);
        vstd::arithmetic::div_mod::lemma_div_pos_is_pos(-x, d);
        vstd::arithmetic::div_mod::lemma_div_is_ordered_by_denominator(-x, 1, d);
        let q = (-x) / d;
        assert(d * (-q) == -(d * q)) by (nonlinear_arith);
    }
}

/// `x / d` on `i32`, which truncates towards zero.
pub fn i32_div(x: i32, d: i32) -> (r: i32)
    requires
        d > 0,
    ensures
        r == trunc_div(x as int, d as int),
{
    proof {
        lemma_trunc_div_rem(x as int, d as int);
    }
    x.checked_div(d).unwrap()
}

/// `x % d` on `i32`, which has the sign of `x`.
pub fn i32_rem(x: i32, d: i32) -> (r: i32)
    requires
        d > 0,
    ensures
        r == trunc_rem(x as int, d as int),
{
    proof {
        lemma_trunc_div_rem(x as int, d as int);
    }
    x.checked_rem(d).unwrap()
}

} // verus!
