use vstd::prelude::*;

verus! {

/// The value of `base + delta` clamped into `0..=max`.
pub open spec fn clamp_sum(base: int, delta: int, max: int) -> int {
    if base + delta < 0 {
        0
    } else if base + delta > max {
        max
    } else {
        base + delta
    }
}

/// A saturated sum stays in `0..=max`, and is the plain sum whenever that
/// lies in the range; otherwise it is the bound on the side it left by.
pub proof fn lemma_clamp_sum(base: int, delta: int, max: int)
    requires
        0 <= max,
    ensures
        0 <= clamp_sum(base, delta, max) <= max,
        0 <= base + delta <= max ==> clamp_sum(base, delta, max) == base + delta,
        base + delta < 0 ==> clamp_sum(base, delta, max) == 0,
        base + delta > max ==> clamp_sum(base, delta, max) == max,
{
}

/// Addition of a signed offset to an unsigned number that saturates at
/// zero and at the type's maximum instead of overflowing.
pub trait SaturatingAdd<T>: Sized {
    /// The mathematical result of `self + rhs`, saturated into `Self`'s range.
    spec fn sat_add_spec(self, rhs: T) -> Self;

    fn sat_add(self, rhs: T) -> (r: Self)
        ensures
            r == self.sat_add_spec(rhs),
    ;

    fn sat_add_assign(&mut self, rhs: T)
        ensures
            *final(self) == old(self).sat_add_spec(rhs),
    ;
}

impl SaturatingAdd<i32> for u32 {
    open spec fn sat_add_spec(self, rhs: i32) -> u32 {
        clamp_sum(self as int, rhs as int, u32::MAX as int) as u32
    }

    fn sat_add(self, rhs: i32) -> (r: u32) {
        if rhs < 0 {
            let magnitude: u32 = (0i64 - rhs as i64) as u32;
            self.saturating_sub(magnitude)
        } else {
            self.saturating_add(rhs as u32)
        }
    }

    fn sat_add_assign(&mut self, rhs: i32) {
        if rhs < 0 {
            let magnitude: u32 = (0i64 - rhs as i64) as u32;
            *self = self.saturating_sub(magnitude);
        } else {
            *self = self.saturating_add(rhs as u32);
        }
    }
}

impl SaturatingAdd<i32> for usize {
    open spec fn sat_add_spec(self, rhs: i32) -> usize {
        clamp_sum(self as int, rhs as int, usize::MAX as int) as usize
    }

    fn sat_add(self, rhs: i32) -> (r: usize) {
        if rhs < 0 {
            let magnitude: usize = (0i64 - rhs as i64) as usize;
            self.saturating_sub(magnitude)
        } else {
            self.saturating_add(rhs as usize)
        }
    }

    fn sat_add_assign(&mut self, rhs: i32) {
        if rhs < 0 {
            let magnitude: usize = (0i64 - rhs as i64) as usize;
            *self = self.saturating_sub(magnitude);
        } else {
            *self = self.saturating_add(rhs as usize);
        }
    }
}

impl SaturatingAdd<i32> for u64 {
    open spec fn sat_add_spec(self, rhs: i32) -> u64 {
        clamp_sum(self as int, rhs as int, u64::MAX as int) as u64
    }

    fn sat_add(self, rhs: i32) -> (r: u64) {
        if rhs < 0 {
            let magnitude: u64 = (0i64 - rhs as i64) as u64;
            self.saturating_sub(magnitude)
        } else {
            self.saturating_add(rhs as u64)
        }
    }

    fn sat_add_assign(&mut self, rhs: i32) {
        if rhs < 0 {
            let magnitude: u64 = (0i64 - rhs as i64) as u64;
            *self = self.saturating_sub(magnitude);
        } else {
            *self = self.saturating_add(rhs as u64);
        }
    }
}

/// Adding `d` to a `u32` gives the plain sum while that fits in `u32`,
/// zero below and `u32::MAX` above.
pub proof fn lemma_sat_add_u32(a: u32, d: i32)
    ensures
        0 <= a + d <= u32::MAX ==> a.sat_add_spec(d) == a + d,
        a + d < 0 ==> a.sat_add_spec(d) == 0,
        a + d > u32::MAX ==> a.sat_add_spec(d) == u32::MAX,
{
}

/// Adding `d` to a `usize` gives the plain sum while that fits in `usize`,
/// zero below and `usize::MAX` above.
pub proof fn lemma_sat_add_usize(a: usize, d: i32)
    ensures
        0 <= a + d <= usize::MAX ==> a.sat_add_spec(d) == a + d,
        a + d < 0 ==> a.sat_add_spec(d) == 0,
        a + d > usize::MAX ==> a.sat_add_spec(d) == usize::MAX,
{
}

/// Adding `d` to a `u64` gives the plain sum while that fits in `u64`,
/// zero below and `u64::MAX` above.
pub proof fn lemma_sat_add_u64(a: u64, d: i32)
    ensures
        0 <= a + d <= u64::MAX ==> a.sat_add_spec(d) == a + d,
        a + d < 0 ==> a.sat_add_spec(d) == 0,
        a + d > u64::MAX ==> a.sat_add_spec(d) == u64::MAX,
{
}

/// Adding an offset and then its negation gives the start back whenever the
/// first sum did not saturate.
pub proof fn lemma_sat_add_u64_undo(a: u64, d: i32)
    requires
        0 <= a + d <= u64::MAX,
        d > i32::MIN,
    ensures
        (a.sat_add_spec(d)).sat_add_spec(-d as i32) == a,
{
}

} // verus!
