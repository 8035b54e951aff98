//! Interest flags and the readiness events that the kernel reports.
use vstd::prelude::*;

verus! {

/// Bit that asks for, or reports, readiness for reading (`EPOLLIN`).
pub const READABLE: u32 = 0x0000_0001;

/// Bit that asks for, or reports, readiness for writing (`EPOLLOUT`).
pub const WRITABLE: u32 = 0x0000_0004;

/// Bit that asks for edge-triggered notification (`EPOLLET`).
pub const EDGE_TRIGGERED: u32 = 0x8000_0000;

/// All the bits that are epoll flags with a name.
pub const NAMED: u32 = 0xf000_27df;

/// Whether every bit of `bits` is an epoll flag with a name.
pub open spec fn named(bits: u32) -> bool {
    bits & !NAMED == 0
}

/// A set of epoll flags: what a descriptor is watched for, or what a
/// readiness event reports. A set holds named flags only, and its bits are
/// handed to the kernel as they are.
#[derive(Clone, Copy, Debug, PartialEq, Eq, Structural)]
pub struct Interest {
    bits: u32,
}

impl View for Interest {
    type V = u32;

    closed spec fn view(&self) -> u32 {
        self.bits
    }
}

impl Interest {
    #[verifier::type_invariant]
    spec fn holds_named_flags_only(self) -> bool {
        named(self.bits)
    }

    /// Whether every bit of `mask` is set.
    pub open spec fn has(self, mask: u32) -> bool {
        self@ & mask == mask
    }

    /// The set with exactly the given bits, if each of them is a named flag.
    pub fn from_bits(bits: u32) -> (r: Option<Interest>)
        ensures
            match r {
                Some(flags) => named(bits) && flags@ == bits,
                None => !named(bits),
            },
    {
        if bits & !NAMED == 0 {
            Some(Interest { bits })
        } else {
            None
        }
    }

    /// The bits of the set.
    pub fn bits(&self) -> (r: u32)
        ensures
            r == self@,
            named(r),
    {
        proof {
            use_type_invariant(self);
        }
        self.bits
    }

    /// Interest in readiness for reading.
    pub fn readable() -> (r: Interest)
        ensures
            r@ == READABLE,
    {
        assert(0x1u32 & !0xf000_27dfu32 == 0) by (bit_vector);
        Interest { bits: READABLE }
    }

    /// Interest in readiness for writing.
    pub fn writable() -> (r: Interest)
        ensures
            r@ == WRITABLE,
    {
        assert(0x4u32 & !0xf000_27dfu32 == 0) by (bit_vector);
        Interest { bits: WRITABLE }
    }

    /// The modifier that turns level-triggered notification into
    /// edge-triggered notification.
    pub fn edge_triggered() -> (r: Interest)
        ensures
            r@ == EDGE_TRIGGERED,
    {
        assert(0x8000_0000u32 & !0xf000_27dfu32 == 0) by (bit_vector);
        Interest { bits: EDGE_TRIGGERED }
    }

    /// The flags of `self` together with those of `other`.
    pub fn union(self, other: Interest) -> (r: Interest)
        ensures
            r@ == self@ | other@,
    {
        let (a, b) = (self.bits(), other.bits());
        assert(a & !0xf000_27dfu32 == 0 && b & !0xf000_27dfu32 == 0 ==> (a | b) & !0xf000_27dfu32
            == 0) by (bit_vector);
        Interest { bits: a | b }
    }

    /// Whether the readable bit is set.
    pub fn is_readable(&self) -> (r: bool)
        ensures
            r == self.has(READABLE),
    {
        self.bits & READABLE == READABLE
    }

    /// Whether the writable bit is set.
    pub fn is_writable(&self) -> (r: bool)
        ensures
            r == self.has(WRITABLE),
    {
        self.bits & WRITABLE == WRITABLE
    }
}

} // verus!
