use vstd::prelude::*;
use crate::wire::{le_bytes, push_le};

verus! {

pub const MICROS_PER_SEC: usize = 1_000_000;

/// A point in time as whole seconds and the microseconds past them.
#[derive(Clone, Copy, Debug, PartialEq, Eq, Structural)]
pub struct TimeVal {
    pub sec: usize,
    pub usec: usize,
}

/// `a` is no later than `b`, comparing seconds, then microseconds.
pub open spec fn time_le(a: TimeVal, b: TimeVal) -> bool {
    a.sec < b.sec || (a.sec == b.sec && a.usec <= b.usec)
}

/// Width in bytes of a machine word in task memory.
pub const WORD_BYTES: usize = 8;

/// How a `TimeVal` lies in task memory: seconds, then microseconds, each
/// a little-endian word.
pub open spec fn time_val_bytes(t: TimeVal) -> Seq<u8> {
    le_bytes(t.sec as nat, WORD_BYTES as nat) + le_bytes(t.usec as nat, WORD_BYTES as nat)
}

impl TimeVal {
    pub open spec fn spec_from_us(us: usize) -> TimeVal {
        TimeVal { sec: us / MICROS_PER_SEC, usec: us % MICROS_PER_SEC }
    }

    /// The time `us` microseconds after the clock's origin.
    pub fn from_us(us: usize) -> (r: TimeVal)
        ensures
            r == TimeVal::spec_from_us(us),
            r.usec < MICROS_PER_SEC,
            r.sec * MICROS_PER_SEC + r.usec == us,
    {
        TimeVal { sec: us / MICROS_PER_SEC, usec: us % MICROS_PER_SEC }
    }

    /// The bytes that stand for this value in task memory.
    pub fn to_bytes(&self) -> (r: Vec<u8>)
        ensures
            r@ == time_val_bytes(*self),
    {
        let mut out: Vec<u8> = Vec::new();
        push_le(&mut out, self.sec as u64, WORD_BYTES);
        push_le(&mut out, self.usec as u64, WORD_BYTES);
        assert(out@ =~= time_val_bytes(*self));
        out
    }
}

/// A later clock reading never gives an earlier `TimeVal`.
pub proof fn lemma_time_monotonic(a: usize, b: usize)
    requires
        a <= b,
    ensures
        time_le(TimeVal::spec_from_us(a), TimeVal::spec_from_us(b)),
{
    let ta = TimeVal::spec_from_us(a);
    let tb = TimeVal::spec_from_us(b);
    assert(ta.sec <= tb.sec) by (nonlinear_arith)
        requires
            a <= b,
            ta.sec == a / 1_000_000usize,
            tb.sec == b / 1_000_000usize,
    {
        vstd::arithmetic::div_mod::lemma_div_is_ordered(a as int, b as int, 1_000_000int);
    }
}

} // verus!
