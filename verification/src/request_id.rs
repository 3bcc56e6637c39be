use vstd::prelude::*;

verus! {

/// A host-allocated packet identifier in `1..=999`.
#[derive(Clone, Copy, Debug, PartialEq, Eq, Structural)]
pub struct RequestId(u16);

impl RequestId {
    pub const MIN: u16 = 1;

    pub const MAX: u16 = 999;

    /// Number of distinct identifiers.
    pub const COUNT: usize = 999;

    #[verifier::type_invariant]
    closed spec fn in_range(self) -> bool {
        1 <= self.0 <= 999
    }

    /// The raw number carried by this identifier.
    pub closed spec fn value(self) -> u16 {
        self.0
    }

    /// Two identifiers with the same number are the same identifier.
    pub broadcast proof fn lemma_value_determines(a: RequestId, b: RequestId)
        ensures
            #[trigger] a.value() == #[trigger] b.value() ==> a == b,
    {
    }

    /// The spec of `next`: wraps from 999 back to 1.
    pub open spec fn spec_next_value(raw: u16) -> u16 {
        if raw == 999 {
            1
        } else {
            (raw + 1) as u16
        }
    }

    /// The first identifier the host allocates.
    #[allow(non_snake_case)]
    pub fn FIRST() -> (id: Self)
        ensures
            id.value() == 1,
    {
        Self(1)
    }

    pub fn new(raw: u16) -> (res: Option<Self>)
        ensures
            res is Some <==> 1 <= raw <= 999,
            res matches Some(id) ==> id.value() == raw,
    {
        if raw >= Self::MIN && raw <= Self::MAX {
            Some(Self(raw))
        } else {
            None
        }
    }

    pub fn get(self) -> (raw: u16)
        ensures
            raw == self.value(),
            1 <= raw <= 999,
    {
        proof {
            use_type_invariant(self);
        }
        self.0
    }

    /// Zero-based index of this identifier in a table of `COUNT` slots.
    pub fn slot(self) -> (slot: usize)
        ensures
            slot == self.value() - 1,
            slot < 999,
    {
        proof {
            use_type_invariant(self);
        }
        (self.0 - 1) as usize
    }

    /// The following identifier, wrapping from 999 back to 1.
    pub fn next(self) -> (id: Self)
        ensures
            id.value() == Self::spec_next_value(self.value()),
    {
        proof {
            use_type_invariant(self);
        }
        if self.0 == Self::MAX {
            Self(Self::MIN)
        } else {
            Self(self.0 + 1)
        }
    }
}

/// Stepping `next` through all `COUNT` identifiers returns to the start, and no
/// shorter walk does: `next` is a single cycle over `1..=999`.
pub proof fn lemma_next_cycles(start: u16, steps: nat)
    requires
        1 <= start <= 999,
        steps <= 999,
    ensures
        iterate_next(start, steps) == start <==> (steps == 0 || steps == 999),
        1 <= iterate_next(start, steps) <= 999,
    decreases steps,
{
    if steps > 0 {
        lemma_next_cycles(start, (steps - 1) as nat);
        lemma_iterate_next_closed_form(start, steps);
    }
    lemma_iterate_next_closed_form(start, steps);
}

/// `next` applied `steps` times.
pub open spec fn iterate_next(raw: u16, steps: nat) -> u16
    decreases steps,
{
    if steps == 0 {
        raw
    } else {
        RequestId::spec_next_value(iterate_next(raw, (steps - 1) as nat))
    }
}

proof fn lemma_iterate_next_closed_form(start: u16, steps: nat)
    requires
        1 <= start <= 999,
    ensures
        iterate_next(start, steps) == ((start - 1 + steps) % 999 + 1) as u16,
    decreases steps,
{
    if steps > 0 {
        lemma_iterate_next_closed_form(start, (steps - 1) as nat);
    }
}

} // verus!
