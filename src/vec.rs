use vstd::prelude::*;

verus! {

/// A two-component vector.
#[derive(Clone, Copy, Debug)]
pub struct Vec2<T> {
    pub x: T,
    pub y: T,
}

/// A three-component vector.
#[derive(Clone, Copy, Debug)]
pub struct Vec3<T> {
    pub x: T,
    pub y: T,
    pub z: T,
}

/// A four-component (homogeneous) vector.
#[derive(Clone, Copy, Debug)]
pub struct Vec4<T> {
    pub x: T,
    pub y: T,
    pub z: T,
    pub w: T,
}

/// `v` limited to `hi` from above and then to `lo` from below; when the
/// bounds cross, `lo` wins.
pub open spec fn clamp_int(v: int, lo: int, hi: int) -> int {
    let upper = if v < hi { v } else { hi };
    if lo > upper { lo } else { upper }
}

/// Whether `v` is representable as an `i128`.
pub open spec fn fits_i128(v: int) -> bool {
    i128::MIN <= v <= i128::MAX
}

/// Every product and difference computed by `cross` fits in an `i128`.
pub open spec fn cross_fits(a: Vec3<i128>, b: Vec3<i128>) -> bool {
    &&& fits_i128(a.y * b.z) &&& fits_i128(a.z * b.y) &&& fits_i128(a.y * b.z - a.z * b.y)
    &&& fits_i128(a.z * b.x) &&& fits_i128(a.x * b.z) &&& fits_i128(a.z * b.x - a.x * b.z)
    &&& fits_i128(a.x * b.y) &&& fits_i128(a.y * b.x) &&& fits_i128(a.x * b.y - a.y * b.x)
}

/// Every product and partial sum computed by `dot` fits in an `i128`.
pub open spec fn dot_fits(a: Vec3<i128>, b: Vec3<i128>) -> bool {
    &&& fits_i128(a.x * b.x) &&& fits_i128(a.y * b.y) &&& fits_i128(a.z * b.z)
    &&& fits_i128(a.x * b.x + a.y * b.y)
    &&& fits_i128(a.x * b.x + a.y * b.y + a.z * b.z)
}

impl Vec2<i32> {
    /// Clamps each component into the box spanned by `min` and `max`.
    pub fn clamp(&self, min: &Vec2<i32>, max: &Vec2<i32>) -> (r: Vec2<i32>)
        ensures
            r.x == clamp_int(self.x as int, min.x as int, max.x as int),
            r.y == clamp_int(self.y as int, min.y as int, max.y as int),
    {
        let ux = if self.x < max.x { self.x } else { max.x };
        let uy = if self.y < max.y { self.y } else { max.y };
        Vec2 {
            x: if min.x > ux { min.x } else { ux },
            y: if min.y > uy { min.y } else { uy },
        }
    }
}

impl<T: Copy> Vec3<T> {
    /// The first two components.
    pub fn xy(&self) -> (r: Vec2<T>)
        ensures
            r.x == self.x,
            r.y == self.y,
    {
        Vec2 { x: self.x, y: self.y }
    }
}

impl Vec3<i128> {
    /// The cross product `self × other`.
    pub fn cross(self, other: Vec3<i128>) -> (r: Vec3<i128>)
        requires
            cross_fits(self, other),
        ensures
            r.x == self.y * other.z - self.z * other.y,
            r.y == self.z * other.x - self.x * other.z,
            r.z == self.x * other.y - self.y * other.x,
    {
        Vec3 {
            x: self.y * other.z - self.z * other.y,
            y: self.z * other.x - self.x * other.z,
            z: self.x * other.y - self.y * other.x,
        }
    }

    /// The dot product `self · other`.
    pub fn dot(self, other: Vec3<i128>) -> (r: i128)
        requires
            dot_fits(self, other),
        ensures
            r == self.x * other.x + self.y * other.y + self.z * other.z,
    {
        self.x * other.x + self.y * other.y + self.z * other.z
    }
}

impl<T: Copy> Vec4<T> {
    /// The first two components.
    pub fn xy(&self) -> (r: Vec2<T>)
        ensures
            r.x == self.x,
            r.y == self.y,
    {
        Vec2 { x: self.x, y: self.y }
    }
}

} // verus!
