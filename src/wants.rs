use vstd::prelude::*;
use crate::head::ParsedMessage;

verus! {

/// Extra flags that a parsed message "wants": an expect-continue handshake,
/// or a protocol upgrade.
#[derive(Clone, Copy, Debug)]
pub struct Wants(pub u8);

impl Wants {
    /// The raw bits of the flag set.
    pub open spec fn bits(self) -> u8 {
        self.0
    }

    /// Whether the expect-continue flag is set.
    pub open spec fn expects(self) -> bool {
        self.0 & 1u8 == 1u8
    }

    /// Whether the upgrade flag is set.
    pub open spec fn upgrades(self) -> bool {
        self.0 & 2u8 == 2u8
    }

    /// No flag set.
    pub fn empty() -> (r: Wants)
        ensures
            r.bits() == 0,
    {
        Wants(0)
    }

    /// The expect-continue flag alone.
    pub fn expect() -> (r: Wants)
        ensures
            r.bits() == 1,
    {
        Wants(1)
    }

    /// The upgrade flag alone.
    pub fn upgrade() -> (r: Wants)
        ensures
            r.bits() == 2,
    {
        Wants(2)
    }

    /// The union of both flag sets.
    pub fn add(self, other: Wants) -> (r: Wants)
        ensures
            r.bits() == self.bits() | other.bits(),
    {
        Wants(self.0 | other.0)
    }

    /// Whether every flag of `other` is set in `self`.
    pub fn contains(&self, other: Wants) -> (r: bool)
        ensures
            r == (self.bits() & other.bits() == other.bits()),
    {
        (self.0 & other.0) == other.0
    }
}

impl<T> ParsedMessage<T> {
    /// The handshakes that the message asks the connection to perform.
    pub fn wants(&self) -> (r: Wants)
        ensures
            r.bits() == (if self.expect_continue { 1u8 } else { 0u8 }) | (if self.wants_upgrade {
                2u8
            } else {
                0u8
            }),
    {
        let mut w = Wants::empty();
        if self.expect_continue {
            w = w.add(Wants::expect());
        }
        if self.wants_upgrade {
            w = w.add(Wants::upgrade());
        }
        proof {
            assert(0u8 | 1u8 == 1u8) by (bit_vector);
            assert(0u8 | 2u8 == 2u8) by (bit_vector);
            assert(0u8 | 0u8 == 0u8) by (bit_vector);
            assert(1u8 | 0u8 == 1u8) by (bit_vector);
        }
        w
    }
}

/// Adding a flag set makes it contained, and keeps what was there.
pub proof fn lemma_add_contains(a: Wants, b: Wants)
    ensures
        (a.bits() | b.bits()) & b.bits() == b.bits(),
        (a.bits() | b.bits()) & a.bits() == a.bits(),
{
    let x = a.bits();
    let y = b.bits();
    assert((x | y) & y == y) by (bit_vector);
    assert((x | y) & x == x) by (bit_vector);
}

} // verus!
