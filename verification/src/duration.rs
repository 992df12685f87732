use vstd::prelude::*;

verus! {

/// Number of nanoseconds in one second.
pub const NANOS_PER_SEC: u32 = 1_000_000_000;

/// A span of time: whole seconds plus a sub-second part in nanoseconds.
#[derive(Debug, Clone, Copy, PartialEq, Eq)]
pub struct Duration {
    secs: u64,
    nanos: u32,
}

impl Duration {
    #[verifier::type_invariant]
    spec fn well_formed(self) -> bool {
        self.nanos < NANOS_PER_SEC
    }

    /// Total length of the span in nanoseconds.
    pub closed spec fn total_nanos(self) -> nat {
        (self.secs as nat) * 1_000_000_000 + (self.nanos as nat)
    }

    /// Total length in whole microseconds (truncating).
    pub open spec fn spec_micros(self) -> nat {
        self.total_nanos() / 1000
    }

    /// The empty span.
    pub fn zero() -> (d: Duration)
        ensures
            d.total_nanos() == 0,
    {
        Duration { secs: 0, nanos: 0 }
    }

    pub fn from_secs(secs: u64) -> (d: Duration)
        ensures
            d.total_nanos() == secs * 1_000_000_000,
    {
        Duration { secs, nanos: 0 }
    }

    pub fn from_millis(millis: u64) -> (d: Duration)
        ensures
            d.total_nanos() == millis * 1_000_000,
    {
        let secs = millis / 1000;
        let rem = millis % 1000;
        let d = Duration { secs, nanos: (rem as u32) * 1_000_000 };
        assert(d.total_nanos() == millis * 1_000_000) by (nonlinear_arith)
            requires
                secs == millis / 1000,
                rem == millis % 1000,
                d.total_nanos() == secs * 1_000_000_000 + rem * 1_000_000,
        ;
        d
    }

    pub fn from_micros(micros: u64) -> (d: Duration)
        ensures
            d.total_nanos() == micros * 1000,
    {
        let secs = micros / 1_000_000;
        let rem = micros % 1_000_000;
        let d = Duration { secs, nanos: (rem as u32) * 1000 };
        assert(d.total_nanos() == micros * 1000) by (nonlinear_arith)
            requires
                secs == micros / 1_000_000,
                rem == micros % 1_000_000,
                d.total_nanos() == secs * 1_000_000_000 + rem * 1000,
        ;
        d
    }

    pub fn from_nanos(nanos: u64) -> (d: Duration)
        ensures
            d.total_nanos() == nanos,
    {
        let secs = nanos / 1_000_000_000;
        let rem = nanos % 1_000_000_000;
        let d = Duration { secs, nanos: rem as u32 };
        assert(d.total_nanos() == nanos) by (nonlinear_arith)
            requires
                secs == nanos / 1_000_000_000,
                rem == nanos % 1_000_000_000,
                d.total_nanos() == secs * 1_000_000_000 + rem,
        ;
        d
    }

    pub fn is_zero(&self) -> (b: bool)
        ensures
            b == (self.total_nanos() == 0),
    {
        self.secs == 0 && self.nanos == 0
    }

    pub fn as_secs(&self) -> (s: u64)
        ensures
            s == self.total_nanos() / 1_000_000_000,
    {
        proof {
            use_type_invariant(self);
        }
        let s = self.secs;
        let n = self.nanos;
        assert(s == self.total_nanos() / 1_000_000_000) by (nonlinear_arith)
            requires
                n < 1_000_000_000,
                self.total_nanos() == s * 1_000_000_000 + n,
        ;
        s
    }

    pub fn as_micros(&self) -> (m: u128)
        ensures
            m == self.spec_micros(),
    {
        proof {
            use_type_invariant(self);
        }
        let s = self.secs;
        let n = self.nanos;
        let m = (s as u128) * 1_000_000 + ((n / 1000) as u128);
        assert(m == self.total_nanos() / 1000) by (nonlinear_arith)
            requires
                n < 1_000_000_000,
                self.total_nanos() == s * 1_000_000_000 + n,
                m == s * 1_000_000 + n / 1000,
        ;
        m
    }

    pub fn as_millis(&self) -> (m: u128)
        ensures
            m == self.total_nanos() / 1_000_000,
    {
        proof {
            use_type_invariant(self);
        }
        let s = self.secs;
        let n = self.nanos;
        let m = (s as u128) * 1000 + ((n / 1_000_000) as u128);
        assert(m == self.total_nanos() / 1_000_000) by (nonlinear_arith)
            requires
                n < 1_000_000_000,
                self.total_nanos() == s * 1_000_000_000 + n,
                m == s * 1000 + n / 1_000_000,
        ;
        m
    }

    pub fn as_nanos(&self) -> (m: u128)
        ensures
            m == self.total_nanos(),
            m < 0x1_0000_0000_0000_0000 * 1_000_000_000,
    {
        proof { use_type_invariant(self); }
        assert((self.secs as u128) * 1_000_000_000 <= 0xffff_ffff_ffff_ffff * 1_000_000_000) by (nonlinear_arith)
            requires self.secs <= 0xffff_ffff_ffff_ffff;
        (self.secs as u128) * 1_000_000_000 + (self.nanos as u128)
    }
}

} // verus!
