//! Positions in a core, which wrap around at the core size.

use vstd::arithmetic::div_mod::{lemma_fundamental_div_mod, lemma_mod_multiples_vanish, lemma_small_mod};
use vstd::prelude::*;

verus! {

/// A position in a core of a given size; its value is always less than the core size.
#[derive(Copy, Clone, Debug, PartialEq, Eq, Structural)]
pub struct Offset {
    value: u32,
    core_size: u32,
}

/// `value` wrapped into `0..core_size` (Euclidean remainder).
pub open spec fn wrap(value: int, core_size: int) -> int {
    value % core_size
}

impl Offset {
    /// The position, always in `0..core_size()`.
    pub closed spec fn pos(self) -> nat {
        self.value as nat
    }

    /// The size of the core this offset is in.
    pub closed spec fn size(self) -> nat {
        self.core_size as nat
    }

    /// The size is valid (positive as an `i32`) and the position is within it.
    pub closed spec fn wf(self) -> bool {
        0 < self.core_size <= i32::MAX && self.value < self.core_size
    }

    pub proof fn lemma_wf(self)
        requires
            self.wf(),
        ensures
            0 < self.size() <= i32::MAX,
            self.pos() < self.size(),
    {
    }

    /// Two offsets are equal exactly when their positions and sizes are.
    pub proof fn lemma_ext_equal(self, other: Offset)
        ensures
            (self.pos() == other.pos() && self.size() == other.size()) <==> self == other,
    {
    }

    /// An offset of `value` wrapped into a core of `core_size`.
    pub fn new(value: i32, core_size: u32) -> (res: Offset)
        requires
            0 < core_size <= i32::MAX,
        ensures
            res.wf(),
            res.size() == core_size,
            res.pos() == wrap(value as int, core_size as int),
            res == offset_at(value as int, core_size as nat),
    {
        let mut result = Offset { value: 0, core_size };
        result.set_value(value);
        proof {
            let c = offset_at(value as int, core_size as nat);
            assert(result.wf() && result.size() == core_size && result.pos() == wrap(value as int, core_size as int));
            result.lemma_ext_equal(c);
        }
        result
    }

    /// The position of this offset.
    pub fn value(&self) -> (res: u32)
        ensures
            res == self.pos(),
    {
        self.value
    }

    /// The size of the core this offset is in.
    pub fn core_size(&self) -> (res: u32)
        ensures
            res == self.size(),
    {
        self.core_size
    }

    /// Sets the position to `value` wrapped into the core.
    pub fn set_value(&mut self, value: i32)
        requires
            0 < old(self).size() <= i32::MAX,
        ensures
            final(self).wf(),
            final(self).size() == old(self).size(),
            final(self).pos() == wrap(value as int, old(self).size() as int),
    {
        let cs = self.core_size as i32;
        let r = value % cs;
        let v = if r < 0 {
            r + cs
        } else {
            r
        };
        proof {
            if value < 0 {
                lemma_negative_rem(value as int, cs as int);
            }
        }
        self.value = v as u32;
    }

    /// This offset moved forward by `rhs` (which may be negative).
    pub fn add_i32(self, rhs: i32) -> (res: Offset)
        requires
            self.wf(),
            self.pos() + rhs <= i32::MAX,
        ensures
            res.wf(),
            res.size() == self.size(),
            res.pos() == wrap(self.pos() + rhs, self.size() as int),
    {
        let value = (self.value as i32) + rhs;
        Offset::new(value, self.core_size)
    }

    /// This offset moved back by `rhs` (which may be negative).
    pub fn sub_i32(self, rhs: i32) -> (res: Offset)
        requires
            self.wf(),
            self.pos() - rhs >= i32::MIN,
            self.pos() - rhs <= i32::MAX,
        ensures
            res.wf(),
            res.size() == self.size(),
            res.pos() == wrap(self.pos() - rhs, self.size() as int),
    {
        let value = (self.value as i32) - rhs;
        Offset::new(value, self.core_size)
    }

    /// This offset moved by `delta` (which may be negative), wrapped into the core.
    pub fn moved(self, delta: i64) -> (res: Offset)
        requires
            self.wf(),
            -0x1_0000_0000_0000 <= delta <= 0x1_0000_0000_0000,
        ensures
            res.wf(),
            res.size() == self.size(),
            res.pos() == wrap(self.pos() + delta, self.size() as int),
            res == moved_offset(self, delta as int),
    {
        let cs = self.core_size as i64;
        let t = (self.value as i64) + delta;
        let r = t % cs;
        let v = if r < 0 {
            r + cs
        } else {
            r
        };
        proof {
            if t < 0 {
                lemma_negative_rem(t as int, cs as int);
            }
        }
        let res = Offset { value: v as u32, core_size: self.core_size };
        proof {
            let c = moved_offset(self, delta as int);
            assert(res.wf() && res.size() == self.size() && res.pos() == wrap(self.pos() + delta, self.size() as int));
            res.lemma_ext_equal(c);
        }
        res
    }

    /// The sum of two offsets in the same core.
    pub fn add_offset(self, rhs: Offset) -> (res: Offset)
        requires
            self.wf(),
            rhs.wf(),
            self.size() == rhs.size(),
            self.pos() + rhs.pos() <= i32::MAX,
        ensures
            res.wf(),
            res.size() == self.size(),
            res.pos() == wrap((self.pos() + rhs.pos()) as int, self.size() as int),
    {
        proof {
            self.lemma_wf();
            rhs.lemma_wf();
        }
        self.add_i32(rhs.value as i32)
    }
}

/// The offset holding `value` wrapped into a core of `size` cells.
pub open spec fn offset_at(value: int, size: nat) -> Offset {
    choose|r: Offset| r.wf() && r.size() == size && r.pos() == wrap(value, size as int)
}

/// The offset `o` moved by `delta`, wrapped into its core.
pub open spec fn moved_offset(o: Offset, delta: int) -> Offset {
    choose|r: Offset| r.wf() && r.size() == o.size() && r.pos() == wrap(o.pos() + delta, o.size() as int)
}

/// Some offset is `o` moved by `delta`, so [`moved_offset`] is one.
proof fn lemma_moved_exists(o: Offset, delta: int)
    requires
        o.wf(),
    ensures
        moved_offset(o, delta).wf(),
        moved_offset(o, delta).size() == o.size(),
        moved_offset(o, delta).pos() == wrap(o.pos() + delta, o.size() as int),
{
    let n = o.core_size as int;
    let w = Offset { value: ((o.value as int + delta) % n) as u32, core_size: o.core_size };
    assert(w.wf() && w.size() == o.size() && w.pos() == wrap(o.pos() + delta, o.size() as int));
}

/// Moving an offset by `delta` and then back by `-delta` gives the offset back.
pub proof fn law_move_back(o: Offset, delta: int)
    requires
        o.wf(),
    ensures
        moved_offset(moved_offset(o, delta), -delta) == o,
{
    let n = o.size() as int;
    let m1 = moved_offset(o, delta);
    lemma_moved_exists(o, delta);
    let m2 = moved_offset(m1, -delta);
    lemma_moved_exists(m1, -delta);
    vstd::arithmetic::div_mod::lemma_add_mod_noop_right(-delta, o.pos() + delta, n);
    assert(-delta + (o.pos() + delta) == o.pos() as int);
    lemma_small_mod(o.pos(), n as nat);
    m2.lemma_ext_equal(o);
}

/// Moving an offset by a whole number of laps around the core leaves it where it is.
pub proof fn law_move_full_laps(o: Offset, laps: int)
    requires
        o.wf(),
    ensures
        moved_offset(o, laps * o.size()) == o,
{
    let n = o.size() as int;
    lemma_moved_exists(o, laps * n);
    lemma_mod_multiples_vanish(laps, o.pos() as int, n);
    assert(o.pos() + laps * n == n * laps + o.pos()) by (nonlinear_arith);
    lemma_small_mod(o.pos(), n as nat);
    moved_offset(o, laps * n).lemma_ext_equal(o);
}

/// Rust's truncating remainder of a negative dividend, shifted up by the
/// divisor when negative, is the Euclidean remainder.
proof fn lemma_negative_rem(value: int, cs: int)
    requires
        cs > 0,
        value < 0,
    ensures
        ({
            let r = -((-value) % cs);
            (if r < 0 { r + cs } else { r }) == value % cs
        }),
{
    let m = -value;
    let k = m % cs;
    let q = m / cs;
    lemma_fundamental_div_mod(m, cs);
    if k > 0 {
        assert(value == cs * (-(q + 1)) + (cs - k)) by (nonlinear_arith)
            requires
                m == cs * q + k,
                value == -m,
        ;
        lemma_mod_multiples_vanish(-(q + 1), cs - k, cs);
        lemma_small_mod((cs - k) as nat, cs as nat);
    } else {
        assert(value == cs * (-q) + 0) by (nonlinear_arith)
            requires
                m == cs * q + k,
                value == -m,
                k == 0,
        ;
        lemma_mod_multiples_vanish(-q, 0, cs);
    }
}

} // verus!
