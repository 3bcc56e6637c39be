use vstd::prelude::*;

use crate::ascii::bytes_eq;
use crate::message::Packet;
use crate::request::{DecodedRequest, Request};
use crate::request_id::RequestId;
use crate::response::{Response, ResponseError};
use crate::values::{Direction, Level, PinCapabilities, Query, QueryValue, TargetError};
use crate::words::WORD_ALL;
use vstd::string::StringSliceAdditionalSpecFns;

verus! {

/// Most pins a pin map may describe.
pub const MAX_PINS: usize = 128;

/// Most banks a pin map may describe.
pub const MAX_BANKS: usize = 8;

/// A pin of the active pin map, by position.
#[derive(Clone, Copy, Debug, PartialEq, Eq, Structural)]
pub struct PinId(u8);

impl PinId {
    pub fn new(index: u8) -> (id: Self)
        ensures
            id.spec_index() == index,
    {
        PinId(index)
    }

    /// Position of the pin in its map.
    pub closed spec fn spec_index(self) -> u8 {
        self.0
    }

    pub fn index(self) -> (r: usize)
        ensures
            r == self.spec_index(),
    {
        self.0 as usize
    }

    /// Pins at the same position are the same pin.
    pub broadcast proof fn lemma_index_determines(a: PinId, b: PinId)
        ensures
            #[trigger] a.spec_index() == #[trigger] b.spec_index() ==> a == b,
    {
    }
}

/// A bank of the active pin map, by position.
#[derive(Clone, Copy, Debug, PartialEq, Eq, Structural)]
pub struct BankId(u8);

impl BankId {
    pub fn new(index: u8) -> (id: Self)
        ensures
            id.spec_index() == index,
    {
        BankId(index)
    }

    /// Position of the bank in its map.
    pub closed spec fn spec_index(self) -> u8 {
        self.0
    }

    pub fn index(self) -> (r: usize)
        ensures
            r == self.spec_index(),
    {
        self.0 as usize
    }

    /// Banks at the same position are the same bank.
    pub broadcast proof fn lemma_index_determines(a: BankId, b: BankId)
        ensures
            #[trigger] a.spec_index() == #[trigger] b.spec_index() ==> a == b,
    {
    }
}

/// What a pin can do: bit 0 input, bit 1 output, bit 2 pull-up.
#[derive(Clone, Copy, Debug, PartialEq, Eq, Structural)]
pub struct Capabilities(u8);

impl Capabilities {
    #[verifier::type_invariant]
    closed spec fn in_range(self) -> bool {
        self.0 <= 7
    }

    /// The capability bits.
    pub closed spec fn spec_bits(self) -> u8 {
        self.0
    }

    /// The capability bits: bit 0 input, bit 1 output, bit 2 pull-up.
    pub fn bits(self) -> (r: u8)
        ensures
            r == self.spec_bits(),
            r <= 7,
    {
        proof {
            use_type_invariant(self);
        }
        self.0
    }

    pub open spec fn spec_available(self) -> bool {
        self.spec_bits() != 0
    }

    pub open spec fn spec_input(self) -> bool {
        self.spec_bits() & 1 != 0
    }

    pub open spec fn spec_output(self) -> bool {
        self.spec_bits() & 2 != 0
    }

    pub open spec fn spec_pull_up(self) -> bool {
        self.spec_bits() & 4 != 0
    }

    /// Whether the pin can be driven in `direction`.
    pub open spec fn spec_supports(self, direction: Direction) -> bool {
        match direction {
            Direction::Input => self.spec_input(),
            Direction::Output => self.spec_output(),
        }
    }

    /// A reserved pin: it can do nothing.
    #[allow(non_snake_case)]
    pub fn NONE() -> (c: Self)
        ensures
            c.spec_bits() == 0,
    {
        Capabilities(0)
    }

    /// A full GPIO pin: input, output and pull-up.
    #[allow(non_snake_case)]
    pub fn GPIO() -> (c: Self)
        ensures
            c.spec_bits() == 7,
    {
        Capabilities(7)
    }

    /// An input without pull-up.
    #[allow(non_snake_case)]
    pub fn INPUT() -> (c: Self)
        ensures
            c.spec_bits() == 1,
    {
        Capabilities(1)
    }

    /// An input with optional pull-up, that cannot drive.
    #[allow(non_snake_case)]
    pub fn INPUT_ONLY() -> (c: Self)
        ensures
            c.spec_bits() == 5,
    {
        Capabilities(5)
    }

    /// Capabilities with the same bits are the same capabilities.
    pub broadcast proof fn lemma_bits_determine(a: Capabilities, b: Capabilities)
        ensures
            #[trigger] a.spec_bits() == #[trigger] b.spec_bits() ==> a == b,
    {
    }

    /// The capabilities with exactly these abilities.
    pub fn new(input: bool, output: bool, pull_up: bool) -> (c: Self)
        ensures
            c.spec_bits() == (if input { 1int } else { 0int }) + (if output { 2int } else { 0int }) + (if pull_up {
                4int
            } else {
                0int
            }),
            c.spec_input() == input,
            c.spec_output() == output,
            c.spec_pull_up() == pull_up,
    {
        let bits: u8 = (if input { 1u8 } else { 0u8 }) | (if output { 2u8 } else { 0u8 }) | (if pull_up {
            4u8
        } else {
            0u8
        });
        let i: u8 = if input { 1u8 } else { 0u8 };
        let o: u8 = if output { 2u8 } else { 0u8 };
        let p: u8 = if pull_up { 4u8 } else { 0u8 };
        assert(((i | o | p) & 1 != 0) == (i == 1) && ((i | o | p) & 2 != 0) == (o == 2) && ((i | o
            | p) & 4 != 0) == (p == 4) && (i | o | p) <= 7 && (i | o | p) == i + o + p) by (bit_vector)
            requires
                i == 0 || i == 1,
                o == 0 || o == 2,
                p == 0 || p == 4,
        ;
        Capabilities(bits)
    }

    pub fn available(self) -> (r: bool)
        ensures
            r == self.spec_available(),
    {
        self.0 != 0
    }

    pub fn input(self) -> (r: bool)
        ensures
            r == self.spec_input(),
    {
        self.0 & 1 != 0
    }

    pub fn output(self) -> (r: bool)
        ensures
            r == self.spec_output(),
    {
        self.0 & 2 != 0
    }

    pub fn pull_up(self) -> (r: bool)
        ensures
            r == self.spec_pull_up(),
    {
        self.0 & 4 != 0
    }

    fn supports_direction(self, direction: Direction) -> (r: bool)
        ensures
            r == self.spec_supports(direction),
    {
        match direction {
            Direction::Input => self.input(),
            Direction::Output => self.output(),
        }
    }
}

/// A bank of a pin map, named by its token.
#[derive(Clone, Copy, Debug, PartialEq, Eq)]
pub struct BankInfo {
    pub token: &'static str,
}

impl BankInfo {
    pub fn new(token: &'static str) -> (b: Self)
        ensures
            b.token == token,
    {
        BankInfo { token }
    }
}

/// A pin of a pin map: its token, package pin, bank, bit in the bank and
/// capabilities.
#[derive(Clone, Copy, Debug, PartialEq, Eq)]
pub struct PinInfo {
    pub token: &'static str,
    pub package_pin: Option<u16>,
    pub bank: BankId,
    pub bit: u8,
    pub capabilities: Capabilities,
}

impl PinInfo {
    pub fn new(
        token: &'static str,
        package_pin: Option<u16>,
        bank: BankId,
        bit: u8,
        capabilities: Capabilities,
    ) -> (p: Self)
        ensures
            p == (PinInfo { token, package_pin, bank, bit, capabilities }),
    {
        PinInfo { token, package_pin, bank, bit, capabilities }
    }
}

/// What a request addresses on the device: one pin, one bank, or all pins.
#[derive(Clone, Copy, Debug, PartialEq, Eq, Structural)]
pub enum Target {
    Pin(PinId),
    Bank(BankId),
    All,
}

/// The pins and banks of a board, in wire order.
pub struct PinMap {
    banks: Vec<BankInfo>,
    pins: Vec<PinInfo>,
}

/// A pin map by value.
pub struct PinMapView {
    pub banks: Seq<BankInfo>,
    pub pins: Seq<PinInfo>,
}

impl View for PinMap {
    type V = PinMapView;

    closed spec fn view(&self) -> PinMapView {
        PinMapView { banks: self.banks@, pins: self.pins@ }
    }
}

/// A pin map that fits the firmware's tables: at most `MAX_BANKS` banks and
/// `MAX_PINS` pins, each pin in one of the banks at a bit of a 32-bit port.
pub open spec fn map_wf(m: PinMapView) -> bool {
    &&& m.banks.len() <= MAX_BANKS
    &&& m.pins.len() <= MAX_PINS
    &&& forall|i: int|
        0 <= i < m.pins.len() ==> (#[trigger] m.pins[i]).bank.spec_index() < m.banks.len()
            && m.pins[i].bit < 32
}

/// The target a token names in a map: `ALL`, else the first bank with that
/// token, else the first pin with that token.
pub closed spec fn spec_resolve(m: PinMapView, token: Seq<u8>) -> Option<Target> {
    if token == WORD_ALL@ {
        Some(Target::All)
    } else if exists|i: int| 0 <= i < m.banks.len() && (#[trigger] m.banks[i]).token.spec_bytes() == token {
        let i = choose|i: int|
            0 <= i < m.banks.len() && (#[trigger] m.banks[i]).token.spec_bytes() == token && forall|j: int|
                0 <= j < i ==> (#[trigger] m.banks[j]).token.spec_bytes() != token;
        Some(Target::Bank(BankId(i as u8)))
    } else if exists|i: int| 0 <= i < m.pins.len() && (#[trigger] m.pins[i]).token.spec_bytes() == token {
        let i = choose|i: int|
            0 <= i < m.pins.len() && (#[trigger] m.pins[i]).token.spec_bytes() == token && forall|j: int|
                0 <= j < i ==> (#[trigger] m.pins[j]).token.spec_bytes() != token;
        Some(Target::Pin(PinId(i as u8)))
    } else {
        None
    }
}

/// Index `k` has property `p`, so a least index has it.
proof fn lemma_least_index(p: spec_fn(int) -> bool, k: int)
    requires
        0 <= k,
        p(k),
    ensures
        exists|i: int| 0 <= i <= k && #[trigger] p(i) && forall|j: int| 0 <= j < i ==> !#[trigger] p(j),
    decreases k,
{
    if exists|j: int| 0 <= j < k && #[trigger] p(j) {
        let j = choose|j: int| 0 <= j < k && #[trigger] p(j);
        lemma_least_index(p, j);
    } else {
        assert(forall|j: int| 0 <= j < k ==> !#[trigger] p(j));
    }
}

/// What a token resolves to in a map: `ALL`; else the first bank with that
/// token; else the first pin with it; else nothing.
pub proof fn lemma_resolve(m: PinMapView, token: Seq<u8>)
    requires
        map_wf(m),
    ensures
        token == WORD_ALL@ ==> spec_resolve(m, token) == Some(Target::All),
        token != WORD_ALL@ ==> match spec_resolve(m, token) {
            Some(Target::Bank(b)) => {
                &&& b.spec_index() < m.banks.len()
                &&& m.banks[b.spec_index() as int].token.spec_bytes() == token
                &&& forall|j: int| 0 <= j < b.spec_index() ==> (#[trigger] m.banks[j]).token.spec_bytes() != token
            },
            Some(Target::Pin(p)) => {
                &&& forall|j: int| 0 <= j < m.banks.len() ==> (#[trigger] m.banks[j]).token.spec_bytes() != token
                &&& p.spec_index() < m.pins.len()
                &&& m.pins[p.spec_index() as int].token.spec_bytes() == token
                &&& forall|j: int| 0 <= j < p.spec_index() ==> (#[trigger] m.pins[j]).token.spec_bytes() != token
            },
            Some(Target::All) => false,
            None => {
                &&& forall|j: int| 0 <= j < m.banks.len() ==> (#[trigger] m.banks[j]).token.spec_bytes() != token
                &&& forall|j: int| 0 <= j < m.pins.len() ==> (#[trigger] m.pins[j]).token.spec_bytes() != token
            },
        },
{
    if token != WORD_ALL@ {
        if exists|i: int| 0 <= i < m.banks.len() && (#[trigger] m.banks[i]).token.spec_bytes() == token {
            let k = choose|i: int| 0 <= i < m.banks.len() && (#[trigger] m.banks[i]).token.spec_bytes() == token;
            let p = |i: int| 0 <= i < m.banks.len() && m.banks[i].token.spec_bytes() == token;
            lemma_least_index(p, k);
            let l = choose|i: int| 0 <= i <= k && #[trigger] p(i) && forall|j: int| 0 <= j < i ==> !#[trigger] p(j);
            assert(0 <= l < m.banks.len() && m.banks[l].token.spec_bytes() == token && forall|j: int|
                0 <= j < l ==> (#[trigger] m.banks[j]).token.spec_bytes() != token) by {
                assert forall|j: int| 0 <= j < l implies (#[trigger] m.banks[j]).token.spec_bytes() != token by {
                    assert(!p(j));
                }
            }
        } else if exists|i: int| 0 <= i < m.pins.len() && (#[trigger] m.pins[i]).token.spec_bytes() == token {
            let k = choose|i: int| 0 <= i < m.pins.len() && (#[trigger] m.pins[i]).token.spec_bytes() == token;
            let p = |i: int| 0 <= i < m.pins.len() && m.pins[i].token.spec_bytes() == token;
            lemma_least_index(p, k);
            let l = choose|i: int| 0 <= i <= k && #[trigger] p(i) && forall|j: int| 0 <= j < i ==> !#[trigger] p(j);
            assert(0 <= l < m.pins.len() && m.pins[l].token.spec_bytes() == token && forall|j: int|
                0 <= j < l ==> (#[trigger] m.pins[j]).token.spec_bytes() != token) by {
                assert forall|j: int| 0 <= j < l implies (#[trigger] m.pins[j]).token.spec_bytes() != token by {
                    assert(!p(j));
                }
            }
        }
    }
}

/// Whether `target` addresses the pin at `index` of the map.
pub open spec fn spec_target_contains(m: PinMapView, target: Target, index: int) -> bool {
    match target {
        Target::Pin(pin) => pin.spec_index() == index,
        Target::Bank(bank) => m.pins[index].bank == bank,
        Target::All => true,
    }
}

impl PinMap {
    /// A pin map over the given banks and pins.
    pub fn new(banks: Vec<BankInfo>, pins: Vec<PinInfo>) -> (m: Self)
        requires
            map_wf(PinMapView { banks: banks@, pins: pins@ }),
        ensures
            m@ == (PinMapView { banks: banks@, pins: pins@ }),
    {
        PinMap { banks, pins }
    }

    pub fn banks(&self) -> (r: &[BankInfo])
        ensures
            r@ == self@.banks,
    {
        self.banks.as_slice()
    }

    pub fn pins(&self) -> (r: &[PinInfo])
        ensures
            r@ == self@.pins,
    {
        self.pins.as_slice()
    }

    pub fn bank(&self, id: BankId) -> (r: &BankInfo)
        requires
            id.spec_index() < self@.banks.len(),
        ensures
            *r == self@.banks[id.spec_index() as int],
    {
        &self.banks[id.index()]
    }

    pub fn pin(&self, id: PinId) -> (r: &PinInfo)
        requires
            id.spec_index() < self@.pins.len(),
        ensures
            *r == self@.pins[id.spec_index() as int],
    {
        &self.pins[id.index()]
    }

    /// The target a token names.
    pub fn resolve(&self, token: &[u8]) -> (res: Option<Target>)
        requires
            map_wf(self@),
        ensures
            res == spec_resolve(self@, token@),
            res matches Some(Target::Pin(p)) ==> p.spec_index() < self@.pins.len(),
            res matches Some(Target::Bank(b)) ==> b.spec_index() < self@.banks.len(),
    {
        let all = WORD_ALL.as_slice();
        if bytes_eq(token, all) {
            return Some(Target::All);
        }
        let mut i: usize = 0;
        while i < self.banks.len()
            invariant
                i <= self.banks@.len(),
                self.banks@.len() <= MAX_BANKS,
                token@ != WORD_ALL@,
                forall|j: int| 0 <= j < i ==> (#[trigger] self@.banks[j]).token.spec_bytes() != token@,
            decreases self.banks@.len() - i,
        {
            if bytes_eq(self.banks[i].token.as_bytes(), token) {
                proof {
                    let m = self@;
                    assert(m.banks[i as int].token.spec_bytes() == token@);
                    assert(0 <= i < m.banks.len() && (#[trigger] m.banks[i as int]).token.spec_bytes() == token@
                        && forall|j: int| 0 <= j < i ==> (#[trigger] m.banks[j]).token.spec_bytes() != token@);
                    let k = choose|k: int|
                        0 <= k < m.banks.len() && (#[trigger] m.banks[k]).token.spec_bytes() == token@
                            && forall|j: int| 0 <= j < k ==> (#[trigger] m.banks[j]).token.spec_bytes() != token@;
                    if k < i {
                        assert(m.banks[k].token.spec_bytes() != token@);
                    } else if k > i {
                        assert(m.banks[i as int].token.spec_bytes() != token@);
                    }
                    assert(k == i);
                }
                return Some(Target::Bank(BankId(i as u8)));
            }
            i = i + 1;
        }
        let mut k: usize = 0;
        while k < self.pins.len()
            invariant
                k <= self.pins@.len(),
                self.pins@.len() <= MAX_PINS,
                token@ != WORD_ALL@,
                forall|j: int| 0 <= j < self@.banks.len() ==> (#[trigger] self@.banks[j]).token.spec_bytes() != token@,
                forall|j: int| 0 <= j < k ==> (#[trigger] self@.pins[j]).token.spec_bytes() != token@,
            decreases self.pins@.len() - k,
        {
            if bytes_eq(self.pins[k].token.as_bytes(), token) {
                proof {
                    let m = self@;
                    assert(m.pins[k as int].token.spec_bytes() == token@);
                    assert(0 <= k < m.pins.len() && (#[trigger] m.pins[k as int]).token.spec_bytes() == token@
                        && forall|j: int| 0 <= j < k ==> (#[trigger] m.pins[j]).token.spec_bytes() != token@);
                    let q = choose|q: int|
                        0 <= q < m.pins.len() && (#[trigger] m.pins[q]).token.spec_bytes() == token@
                            && forall|j: int| 0 <= j < q ==> (#[trigger] m.pins[j]).token.spec_bytes() != token@;
                    if q < k {
                        assert(m.pins[q].token.spec_bytes() != token@);
                    } else if q > k {
                        assert(m.pins[k as int].token.spec_bytes() != token@);
                    }
                    assert(q == k);
                    assert(!(exists|i: int| 0 <= i < m.banks.len() && (#[trigger] m.banks[i]).token.spec_bytes() == token@));
                }
                return Some(Target::Pin(PinId(k as u8)));
            }
            k = k + 1;
        }
        None
    }

    /// The pins `target` addresses, in map order.
    pub fn pins_for(&self, target: Target) -> (res: Vec<PinId>)
        requires
            map_wf(self@),
        ensures
            res@.len() <= self@.pins.len(),
            forall|i: int| 0 <= i < res@.len() ==> (#[trigger] res@[i]).spec_index() < self@.pins.len(),
            forall|i: int, j: int| 0 <= i < j < res@.len() ==> res@[i].spec_index() < res@[j].spec_index(),
            forall|p: int|
                0 <= p < self@.pins.len() ==> (spec_target_contains(self@, target, p) <==> exists|i: int|
                    0 <= i < res@.len() && (#[trigger] res@[i]).spec_index() == p),
    {
        let mut res: Vec<PinId> = Vec::new();
        let mut i: usize = 0;
        while i < self.pins.len()
            invariant
                i <= self.pins@.len(),
                self.pins@.len() <= MAX_PINS,
                res@.len() <= i,
                forall|k: int| 0 <= k < res@.len() ==> (#[trigger] res@[k]).spec_index() < i,
                forall|k: int, j: int| 0 <= k < j < res@.len() ==> res@[k].spec_index() < res@[j].spec_index(),
                forall|p: int|
                    0 <= p < i ==> (spec_target_contains(self@, target, p) <==> exists|k: int|
                        0 <= k < res@.len() && (#[trigger] res@[k]).spec_index() == p),
            decreases self.pins@.len() - i,
        {
            let id = PinId(i as u8);
            let contains = match target {
                Target::Pin(pin) => pin.0 as usize == i,
                Target::Bank(bank) => self.pins[i].bank.0 == bank.0,
                Target::All => true,
            };
            proof {
                match target {
                    Target::Bank(bank) => BankId::lemma_index_determines(self@.pins[i as int].bank, bank),
                    _ => {},
                }
            }
            let ghost before = res@;
            if contains {
                res.push(id);
            }
            proof {
                assert forall|p: int| 0 <= p < i + 1 implies (spec_target_contains(self@, target, p) <==> exists|k: int|
                    0 <= k < res@.len() && (#[trigger] res@[k]).spec_index() == p) by {
                    if p < i {
                        if spec_target_contains(self@, target, p) {
                            let k = choose|k: int| 0 <= k < before.len() && (#[trigger] before[k]).spec_index() == p;
                            assert(res@[k] == before[k]);
                        }
                        if exists|k: int| 0 <= k < res@.len() && (#[trigger] res@[k]).spec_index() == p {
                            let k = choose|k: int| 0 <= k < res@.len() && (#[trigger] res@[k]).spec_index() == p;
                            if k < before.len() {
                                assert(before[k] == res@[k]);
                            }
                        }
                    } else {
                        if contains {
                            assert(res@[res@.len() - 1].spec_index() == p);
                        }
                    }
                }
            }
            i = i + 1;
        }
        res
    }
}


/// How a board has set up one pin, as the contracts of [`GpioHal`] model it.
#[derive(Clone, Copy, Debug, PartialEq, Eq, Structural)]
pub enum PadMode {
    /// An input, with or without its pull-up.
    Input { pull_up: bool },
    /// An output driving `level`.
    Output { level: Level },
}

/// The hardware behind a board's GPIO pins.
///
/// Each board gives three specification functions: the pin map it reports,
/// the mode of each pin and the input bits of each bank. The methods below
/// say how they change them and what reading a bank returns. While a board
/// is only read, through a shared reference, its input bits stand still: a
/// board meets these contracts when each read of a bank made through one
/// shared borrow returns the bits its model gives that bank.
pub trait GpioHal {
    /// The board's pin map, as the contracts of the other methods name it.
    spec fn spec_map(&self) -> PinMapView;

    /// How the board has set up `pin`.
    spec fn spec_mode(&self, pin: PinId) -> PadMode;

    /// The input levels of `bank` as the board presents them, one bit per
    /// pin.
    spec fn spec_input_bits(&self, bank: BankId) -> u32;

    /// The board's pin map; it fits the firmware's tables.
    fn pin_map(&self) -> (m: &'static PinMap)
        ensures
            m@ == self.spec_map(),
            map_wf(m@),
    ;

    /// Makes a pin an input, with or without its pull-up.
    fn input(&mut self, pin: PinId, pull_up: bool)
        ensures
            final(self).spec_map() == old(self).spec_map(),
            final(self).spec_mode(pin) == (PadMode::Input { pull_up }),
            forall|q: PinId| q != pin ==> #[trigger] final(self).spec_mode(q) == old(self).spec_mode(q),
            forall|b: BankId, k: u8|
                k < 32 && !own_bank_bit(old(self).spec_map(), pin, b, k) ==> #[trigger] bit_level(final(self).spec_input_bits(b), k)
                    == bit_level(old(self).spec_input_bits(b), k),
    ;

    /// Makes a pin an output driving `level`, its pull-up off.
    fn output(&mut self, pin: PinId, level: Level)
        ensures
            final(self).spec_map() == old(self).spec_map(),
            final(self).spec_mode(pin) == (PadMode::Output { level }),
            forall|q: PinId| q != pin ==> #[trigger] final(self).spec_mode(q) == old(self).spec_mode(q),
            forall|b: BankId, k: u8|
                k < 32 && !own_bank_bit(old(self).spec_map(), pin, b, k) ==> #[trigger] bit_level(final(self).spec_input_bits(b), k)
                    == bit_level(old(self).spec_input_bits(b), k),
    ;

    /// Drives an output pin to `level`; an input stays as it is.
    fn write(&mut self, pin: PinId, level: Level)
        ensures
            final(self).spec_map() == old(self).spec_map(),
            final(self).spec_mode(pin) == written(old(self).spec_mode(pin), level),
            forall|q: PinId| q != pin ==> #[trigger] final(self).spec_mode(q) == old(self).spec_mode(q),
            forall|b: BankId, k: u8|
                k < 32 && !own_bank_bit(old(self).spec_map(), pin, b, k) ==> #[trigger] bit_level(final(self).spec_input_bits(b), k)
                    == bit_level(old(self).spec_input_bits(b), k),
    ;

    /// The input levels of a bank, one bit per pin.
    fn read_bank(&self, bank: BankId) -> (bits: u32)
        ensures
            bits == self.spec_input_bits(bank),
    ;
}

/// The level that bit `bit` of a bank's input bits stands for.
pub open spec fn bit_level(bits: u32, bit: u8) -> Level {
    if bits & (1u32 << bit) == 0 {
        Level::Low
    } else {
        Level::High
    }
}

/// Whether bit `k` of bank `b` is the input bit of `pin` in map `m`.
pub open spec fn own_bank_bit(m: PinMapView, pin: PinId, b: BankId, k: u8) -> bool {
    &&& pin.spec_index() < m.pins.len()
    &&& m.pins[pin.spec_index() as int].bank == b
    &&& m.pins[pin.spec_index() as int].bit == k
}

/// No other pin of the map reads the same bit of the same bank as the pin at
/// `index`.
pub open spec fn bank_bit_unique(m: PinMapView, index: int) -> bool {
    forall|j: int|
        0 <= j < m.pins.len() && j != index ==> !((#[trigger] m.pins[j]).bank == m.pins[index].bank && m.pins[j].bit
            == m.pins[index].bit)
}

/// Whether an accepted direction change for `target` reconfigures the pin at
/// `index`: the target addresses it and it can be driven that way.
pub open spec fn direction_reconfigures(m: PinMapView, target: Target, direction: Direction, index: int) -> bool {
    &&& 0 <= index < m.pins.len()
    &&& spec_target_contains(m, target, index)
    &&& m.pins[index].capabilities.spec_supports(direction)
}

/// After a direction change, each pin it reconfigured whose bank bit is its
/// own has recorded, as its last level, the level the board's bank bits
/// `snap` give it.
pub open spec fn direction_resampled(
    m: PinMapView,
    target: Target,
    direction: Direction,
    after: Seq<PinState>,
    snap: Seq<u32>,
) -> bool {
    forall|i: int|
        direction_reconfigures(m, target, direction, i) && bank_bit_unique(m, i) ==> (
        #[trigger] after[i] matches PinState::Configured { previous, .. } && previous == snapshot_level(m, snap, i))
}

/// A pin's mode after `level` is written to it: an output drives the new
/// level, an input is unchanged.
pub open spec fn written(mode: PadMode, level: Level) -> PadMode {
    match mode {
        PadMode::Output { .. } => PadMode::Output { level },
        PadMode::Input { .. } => mode,
    }
}

/// A response from the firmware: tokens are the pin map's own.
pub type FirmwareResponse = Response<&'static [u8], &'static [u8]>;

/// What the host has configured on a pin.
#[derive(Clone, Copy, Debug, PartialEq, Eq, Structural)]
pub enum PinState {
    Unset,
    Configured { direction: Direction, pull_up: bool, listener: Option<RequestId>, previous: Level },
}

/// What a grouped read streams for each pin.
#[derive(Clone, Copy, Debug, PartialEq, Eq, Structural)]
pub enum BulkKind {
    Values,
    States(Query),
    /// The pin map itself: every bank, then every pin.
    PinMap,
}

/// A grouped read in progress: which pins, what for, and the next pin to look
/// at.
#[derive(Clone, Copy, Debug, PartialEq, Eq, Structural)]
pub struct BulkResponse {
    pub id: RequestId,
    pub target: Target,
    pub next: usize,
    pub kind: BulkKind,
}

/// The GPIO firmware's state: its identity, each pin's configuration, the
/// grouped read in progress, and where the listener scan resumes.
pub struct Firmware {
    identity: &'static [u8],
    pins: Vec<PinState>,
    bulk: Option<BulkResponse>,
    listener_cursor: usize,
}

/// The firmware by value.
pub struct FirmwareView {
    pub identity: Seq<u8>,
    pub pins: Seq<PinState>,
    pub bulk: Option<BulkResponse>,
    pub listener_cursor: usize,
}

impl View for Firmware {
    type V = FirmwareView;

    closed spec fn view(&self) -> FirmwareView {
        FirmwareView {
            identity: self.identity@,
            pins: self.pins@,
            bulk: self.bulk,
            listener_cursor: self.listener_cursor,
        }
    }
}

/// The listener of a pin, if it is configured and listens.
pub open spec fn listener_of(s: PinState) -> Option<RequestId> {
    match s {
        PinState::Configured { listener, .. } => listener,
        PinState::Unset => None,
    }
}

/// What a `WYD` answers for a pin in state `s`.
pub open spec fn spec_query(s: PinState, what: Query) -> QueryValue {
    match s {
        PinState::Unset => QueryValue::Unset,
        PinState::Configured { direction, pull_up, listener, .. } => match what {
            Query::Direction => QueryValue::Direction(direction),
            Query::Pullup => QueryValue::Enabled(pull_up),
            Query::Listen => QueryValue::Enabled(listener is Some),
        },
    }
}

/// The error naming a pin.
pub open spec fn pin_error_view(m: PinMapView, index: int, reason: TargetError) -> Response<Seq<u8>, Seq<u8>> {
    Response::Error(ResponseError::Target { target: m.pins[index].token.spec_bytes(), reason })
}

/// Why a request about one pin is refused, if it is: the pin is reserved, or
/// nothing has configured it yet.
pub open spec fn spec_initialized(m: PinMapView, st: Seq<PinState>, index: int) -> Option<TargetError> {
    if !m.pins[index].capabilities.spec_available() {
        Some(TargetError::Unavailable)
    } else if st[index] is Unset {
        Some(TargetError::Unset)
    } else {
        None
    }
}

/// A pin after an accepted direction change: configured that way, its
/// pull-up off, its listener kept.
pub open spec fn after_direction(s: PinState, t: PinState, direction: Direction) -> bool {
    t matches PinState::Configured { direction: d, pull_up: p, listener: l, .. } && d == direction && !p
        && l == listener_of(s)
}

/// A pin after an accepted pull-up change: an unset pin stays unset; a
/// configured one records the setting, and only an input may see a new level.
pub open spec fn after_pull_up(s: PinState, t: PinState, enabled: bool) -> bool {
    match s {
        PinState::Unset => t == s,
        PinState::Configured { direction, listener, previous, .. } => t matches PinState::Configured {
            direction: d,
            pull_up: p,
            listener: l,
            previous: v,
        } && d == direction && p == enabled && l == listener && (direction == Direction::Output ==> v
            == previous),
    }
}

/// A pin after an accepted listener change: an unset pin stays unset; a
/// configured one listens under `id` or stops, and its level is sampled anew
/// only when it starts listening.
pub open spec fn after_listen(s: PinState, t: PinState, enabled: bool, id: RequestId) -> bool {
    match s {
        PinState::Unset => t == s,
        PinState::Configured { direction, pull_up, previous, .. } => t matches PinState::Configured {
            direction: d,
            pull_up: p,
            listener: l,
            previous: v,
        } && d == direction && p == pull_up && l == (if enabled {
            Some(id)
        } else {
            None
        }) && (!enabled ==> v == previous),
    }
}

/// Whether a grouped pull-up change touches the pin at `index`.
pub open spec fn pull_up_applies(m: PinMapView, st: Seq<PinState>, target: Target, index: int) -> bool {
    &&& spec_target_contains(m, target, index)
    &&& m.pins[index].capabilities.spec_available()
    &&& !(st[index] matches PinState::Configured { direction: Direction::Input, .. }
        && !m.pins[index].capabilities.spec_pull_up())
}

/// Whether a pull-up change reaches the board at `index`: the change applies
/// there and the pin is configured as an input.
pub open spec fn pulls_input(m: PinMapView, st: Seq<PinState>, target: Target, index: int) -> bool {
    &&& pull_up_applies(m, st, target, index)
    &&& st[index] matches PinState::Configured { direction: Direction::Input, .. }
}

/// A listener switched on at the pins a change touches starts from the level
/// the board's bank bits `snap` give each of them.
pub open spec fn listen_sampled(
    m: PinMapView,
    snap: Seq<u32>,
    before: Seq<PinState>,
    after: Seq<PinState>,
    target: Target,
    enabled: bool,
) -> bool {
    forall|i: int|
        0 <= i < m.pins.len() && enabled && listen_applies(m, before, target, i) && !(before[i] is Unset) ==> (
        #[trigger] after[i] matches PinState::Configured { previous, .. } && previous == snapshot_level(m, snap, i))
}

/// Whether a listener change touches the pin at `index`: an input-capable pin
/// the target names directly, or an input-capable input in a group.
pub open spec fn listen_applies(m: PinMapView, st: Seq<PinState>, target: Target, index: int) -> bool {
    &&& spec_target_contains(m, target, index)
    &&& m.pins[index].capabilities.spec_input()
    &&& (target is Pin || st[index] matches PinState::Configured { direction: Direction::Input, .. })
}

/// The next pin a grouped read reports, at or after `from`.
pub open spec fn spec_bulk_next(m: PinMapView, st: Seq<PinState>, b: BulkResponse, from: int) -> Option<int>
    decreases m.pins.len() - from,
{
    if from >= m.pins.len() || from < 0 {
        None
    } else if spec_target_contains(m, b.target, from) && m.pins[from].capabilities.spec_available() && !(
    b.kind is Values && st[from] is Unset) {
        Some(from)
    } else {
        spec_bulk_next(m, st, b, from + 1)
    }
}

/// `r` is the packet a grouped read emits for the pin at `index`.
pub open spec fn bulk_packet_for(
    m: PinMapView,
    snap: Seq<u32>,
    st: Seq<PinState>,
    b: BulkResponse,
    index: int,
    r: Packet<FirmwareResponse>,
) -> bool {
    &&& r.id == b.id
    &&& match b.kind {
        BulkKind::Values => is_value_of(r.body, m.pins[index].token.spec_bytes(), snapshot_level(m, snap, index)),
        BulkKind::States(what) => r.body@ == Response::<Seq<u8>, Seq<u8>>::State {
            target: m.pins[index].token.spec_bytes(),
            what,
            value: spec_query(st[index], what),
        },
        BulkKind::PinMap => false,
    }
}

/// Polling a grouped read: the next pin's packet with the read moved past it,
/// or the final `OKA` with the read finished.
pub open spec fn spec_poll_bulk(
    m: PinMapView,
    snap: Seq<u32>,
    before: FirmwareView,
    b: BulkResponse,
    after: FirmwareView,
    r: Packet<FirmwareResponse>,
) -> bool {
    &&& after.identity == before.identity
    &&& after.pins == before.pins
    &&& after.listener_cursor == before.listener_cursor
    &&& if b.kind is PinMap {
        spec_poll_map(m, b, after, r)
    } else {
        match spec_bulk_next(m, before.pins, b, b.next as int) {
            Some(i) => bulk_packet_for(m, snap, before.pins, b, i, r) && after.bulk == Some(
                BulkResponse { next: (i + 1) as usize, ..b },
            ),
            None => r.id == b.id && r.body == Response::<&'static [u8], &'static [u8]>::Ack && after.bulk is None,
        }
    }
}

/// How a pin of the map is announced: `MAP PIN` with its token, package
/// pin, bank token, bit and capabilities.
pub open spec fn map_pin_response(m: PinMapView, index: int) -> Response<Seq<u8>, Seq<u8>> {
    let p = m.pins[index];
    Response::MapPin {
        target: p.token.spec_bytes(),
        package_pin: p.package_pin,
        bank: m.banks[p.bank.spec_index() as int].token.spec_bytes(),
        bit: p.bit,
        capabilities: PinCapabilities::spec_from_bits(p.capabilities.spec_bits()),
    }
}

/// Polling the stream that answers `MAP`: first a `MAP BANK` for each bank,
/// then a `MAP PIN` for each pin, each moving the stream one step on, then
/// the final `OKA`.
pub open spec fn spec_poll_map(m: PinMapView, b: BulkResponse, after: FirmwareView, r: Packet<FirmwareResponse>) -> bool {
    let banks = m.banks.len();
    let total = banks + m.pins.len();
    &&& r.id == b.id
    &&& if b.next < banks {
        r.body@ == Response::<Seq<u8>, Seq<u8>>::MapBank { bank: m.banks[b.next as int].token.spec_bytes() }
            && after.bulk == Some(BulkResponse { next: (b.next + 1) as usize, ..b })
    } else if b.next < total {
        r.body@ == map_pin_response(m, b.next - banks) && after.bulk == Some(
            BulkResponse { next: (b.next + 1) as usize, ..b },
        )
    } else {
        r.body == Response::<&'static [u8], &'static [u8]>::Ack && after.bulk is None
    }
}


/// Whether setting `target` to a level drives the pin at `index`: it is
/// addressed and can drive, and it was named directly or is configured as an
/// output.
pub open spec fn level_applies(m: PinMapView, st: Seq<PinState>, target: Target, index: int) -> bool {
    &&& spec_target_contains(m, target, index)
    &&& m.pins[index].capabilities.spec_output()
    &&& (target is Pin || st[index] matches PinState::Configured { direction: Direction::Output, .. })
}

/// The pins of a firmware after its host said goodbye: every pin of the map
/// unset.
pub open spec fn spec_reset_pins(m: PinMapView, st: Seq<PinState>) -> Seq<PinState> {
    Seq::new(st.len(), |i: int| if i < m.pins.len() { PinState::Unset } else { st[i] })
}

/// Whether goodbye hands the pin at `index` back to the board as an input:
/// a pin of the map that was configured and can be an input.
pub open spec fn released(m: PinMapView, st: Seq<PinState>, index: int) -> bool {
    &&& 0 <= index < m.pins.len()
    &&& !(st[index] is Unset)
    &&& m.pins[index].capabilities.spec_input()
}

/// Pin states changed only where `applies` holds, and there as `changed` says.
pub open spec fn pins_changed_where(
    before: Seq<PinState>,
    after: Seq<PinState>,
    applies: spec_fn(int) -> bool,
    changed: spec_fn(PinState, PinState) -> bool,
) -> bool {
    &&& after.len() == before.len()
    &&& forall|i: int|
        0 <= i < before.len() ==> if applies(i) {
            changed(before[i], #[trigger] after[i])
        } else {
            after[i] == before[i]
        }
}

/// The firmware unchanged apart from its pins.
pub open spec fn same_but_pins(before: FirmwareView, after: FirmwareView) -> bool {
    &&& after.identity == before.identity
    &&& after.bulk == before.bulk
    &&& after.listener_cursor == before.listener_cursor
}

/// What the firmware answers to a request about one pin that must be
/// configured, when it refuses it; the state stays as it was.
pub open spec fn refused_pin(m: PinMapView, before: FirmwareView, after: FirmwareView, index: int, res: FirmwareResponse) -> bool {
    match spec_initialized(m, before.pins, index) {
        Some(reason) => res@ == pin_error_view(m, index, reason) && after == before,
        None => false,
    }
}

/// An accepted direction change: acknowledged, and applied to the pins the
/// target addresses that can be driven that way.
pub open spec fn direction_applied(
    m: PinMapView,
    before: FirmwareView,
    after: FirmwareView,
    r: FirmwareResponse,
    t: Target,
    direction: Direction,
) -> bool {
    &&& r == Response::<&'static [u8], &'static [u8]>::Ack
    &&& same_but_pins(before, after)
    &&& pins_changed_where(
        before.pins,
        after.pins,
        |i: int| i < m.pins.len() && spec_target_contains(m, t, i) && m.pins[i].capabilities.spec_supports(direction),
        |a: PinState, b: PinState| after_direction(a, b, direction),
    )
}

/// The mode a direction change sets up: an input without pull-up, or an
/// output driving low.
pub open spec fn direction_mode(direction: Direction) -> PadMode {
    match direction {
        Direction::Input => PadMode::Input { pull_up: false },
        Direction::Output => PadMode::Output { level: Level::Low },
    }
}

/// The board's pins changed only where `applies` holds, and there as `mode`
/// says.
pub open spec fn modes_changed_where<G: GpioHal>(
    before: G,
    after: G,
    applies: spec_fn(int) -> bool,
    mode: spec_fn(PadMode) -> PadMode,
) -> bool {
    forall|q: PinId| #[trigger] after.spec_mode(q) == if applies(q.spec_index() as int) {
        mode(before.spec_mode(q))
    } else {
        before.spec_mode(q)
    }
}

/// The board's pins as they were.
pub open spec fn modes_unchanged<G: GpioHal>(before: G, after: G) -> bool {
    forall|q: PinId| #[trigger] after.spec_mode(q) == before.spec_mode(q)
}

/// How the firmware handles a request: the answer it sends and the state it
/// moves to. `snap` holds the board's input bits for each bank, which give
/// the levels the answers report.
pub open spec fn spec_handle(
    m: PinMapView,
    snap: Seq<u32>,
    before: FirmwareView,
    id: RequestId,
    body: Request<Seq<u8>>,
    after: FirmwareView,
    res: Packet<FirmwareResponse>,
) -> bool {
    let bad = Response::<&'static [u8], &'static [u8]>::Error(ResponseError::BadPacket);
    let ack = Response::<&'static [u8], &'static [u8]>::Ack;
    match body {
        Request::Hello => res.body == Response::<&'static [u8], &'static [u8]>::Hello && after == before,
        Request::Status => res.body@ == Response::<Seq<u8>, Seq<u8>>::Status { identity: before.identity }
            && after == before,
        Request::PinMap => spec_poll_bulk(
            m,
            snap,
            FirmwareView { bulk: Some(BulkResponse { id, target: Target::All, next: 0, kind: BulkKind::PinMap }), ..before },
            BulkResponse { id, target: Target::All, next: 0, kind: BulkKind::PinMap },
            after,
            res,
        ),
        Request::Bye => res.body == Response::<&'static [u8], &'static [u8]>::Bye && after == (FirmwareView {
            pins: spec_reset_pins(m, before.pins),
            bulk: None,
            listener_cursor: 0,
            ..before
        }),
        Request::Direction { target, direction } => match spec_resolve(m, target) {
            None => res.body == bad && after == before,
            Some(Target::Pin(p)) => if !m.pins[p.spec_index() as int].capabilities.spec_supports(direction) {
                res.body@ == pin_error_view(m, p.spec_index() as int, TargetError::Unavailable) && after == before
            } else {
                direction_applied(m, before, after, res.body, Target::Pin(p), direction)
            },
            Some(t) => direction_applied(m, before, after, res.body, t, direction),
        },
        Request::Get { target } => match spec_resolve(m, target) {
            None => res.body == bad && after == before,
            Some(Target::Pin(p)) => refused_pin(m, before, after, p.spec_index() as int, res.body) || (
            spec_initialized(m, before.pins, p.spec_index() as int) is None && is_value_of(
                res.body,
                m.pins[p.spec_index() as int].token.spec_bytes(),
                snapshot_level(m, snap, p.spec_index() as int),
            ) && after == before),
            Some(t) => spec_poll_bulk(
                m,
                snap,
                FirmwareView { bulk: Some(BulkResponse { id, target: t, next: 0, kind: BulkKind::Values }), ..before },
                BulkResponse { id, target: t, next: 0, kind: BulkKind::Values },
                after,
                res,
            ),
        },
        Request::SetLevel { target, .. } => match spec_resolve(m, target) {
            None => res.body == bad && after == before,
            Some(Target::Pin(p)) => refused_pin(m, before, after, p.spec_index() as int, res.body) || (
            spec_initialized(m, before.pins, p.spec_index() as int) is None && res.body == ack && after == before),
            Some(_) => res.body == ack && after == before,
        },
        Request::Pullup { target, enabled } => match spec_resolve(m, target) {
            None => res.body == bad && after == before,
            Some(t) => (t matches Target::Pin(p) && refused_pin(m, before, after, p.spec_index() as int, res.body))
                || ((!(t matches Target::Pin(p) && spec_initialized(m, before.pins, p.spec_index() as int) is Some))
                && res.body == ack && same_but_pins(before, after) && pins_changed_where(
                before.pins,
                after.pins,
                |i: int| i < m.pins.len() && pull_up_applies(m, before.pins, t, i),
                |a: PinState, b: PinState| after_pull_up(a, b, enabled),
            )),
        },
        Request::Listen { target, enabled } => match spec_resolve(m, target) {
            None => res.body == bad && after == before,
            Some(t) => (t matches Target::Pin(p) && refused_pin(m, before, after, p.spec_index() as int, res.body))
                || ((!(t matches Target::Pin(p) && spec_initialized(m, before.pins, p.spec_index() as int) is Some))
                && res.body == ack && same_but_pins(before, after) && pins_changed_where(
                before.pins,
                after.pins,
                |i: int| i < m.pins.len() && listen_applies(m, before.pins, t, i),
                |a: PinState, b: PinState| after_listen(a, b, enabled, id),
            ) && listen_sampled(m, snap, before.pins, after.pins, t, enabled)),
        },
        Request::Query { target, what } => match spec_resolve(m, target) {
            None => res.body == bad && after == before,
            Some(Target::Pin(p)) => after == before && if m.pins[p.spec_index() as int].capabilities.spec_available() {
                res.body@ == Response::<Seq<u8>, Seq<u8>>::State {
                    target: m.pins[p.spec_index() as int].token.spec_bytes(),
                    what,
                    value: spec_query(before.pins[p.spec_index() as int], what),
                }
            } else {
                res.body@ == pin_error_view(m, p.spec_index() as int, TargetError::Unavailable)
            },
            Some(t) => spec_poll_bulk(
                m,
                snap,
                FirmwareView {
                    bulk: Some(BulkResponse { id, target: t, next: 0, kind: BulkKind::States(what) }),
                    ..before
                },
                BulkResponse { id, target: t, next: 0, kind: BulkKind::States(what) },
                after,
                res,
            ),
        },
    }
}



/// What handling a request does to the board: an accepted direction change
/// sets up the pins it configures, an accepted level change drives the
/// outputs it reaches, an accepted pull-up change sets up the inputs it
/// reaches, and goodbye hands every configured pin back as an input without
/// pull-up. Every other request, and every refused one, leaves the board as
/// it was.
pub open spec fn spec_handle_board<G: GpioHal>(
    m: PinMapView,
    st: Seq<PinState>,
    body: Request<Seq<u8>>,
    before: G,
    after: G,
) -> bool {
    match body {
        Request::Direction { target, direction } => match spec_resolve(m, target) {
            None => modes_unchanged(before, after),
            Some(t) => if t matches Target::Pin(p) && !m.pins[p.spec_index() as int].capabilities.spec_supports(
                direction,
            ) {
                modes_unchanged(before, after)
            } else {
                modes_changed_where(
                    before,
                    after,
                    |i: int| i < m.pins.len() && spec_target_contains(m, t, i) && m.pins[i].capabilities.spec_supports(
                        direction,
                    ),
                    |a: PadMode| direction_mode(direction),
                )
            },
        },
        Request::SetLevel { target, level } => match spec_resolve(m, target) {
            None => modes_unchanged(before, after),
            Some(t) => if t matches Target::Pin(p) && spec_initialized(m, st, p.spec_index() as int) is Some {
                modes_unchanged(before, after)
            } else {
                modes_changed_where(
                    before,
                    after,
                    |i: int| i < m.pins.len() && level_applies(m, st, t, i),
                    |a: PadMode| written(a, level),
                )
            },
        },
        Request::Pullup { target, enabled } => match spec_resolve(m, target) {
            None => modes_unchanged(before, after),
            Some(t) => if t matches Target::Pin(p) && spec_initialized(m, st, p.spec_index() as int) is Some {
                modes_unchanged(before, after)
            } else {
                modes_changed_where(
                    before,
                    after,
                    |i: int| i < m.pins.len() && pulls_input(m, st, t, i),
                    |a: PadMode| PadMode::Input { pull_up: enabled },
                )
            },
        },
        Request::Bye => modes_changed_where(
            before,
            after,
            |i: int| released(m, st, i),
            |a: PadMode| PadMode::Input { pull_up: false },
        ),
        _ => modes_unchanged(before, after),
    }
}

/// After a pull-up change, each configured input it reached whose bank bit
/// is its own has recorded, as its last level, the level the board's bank
/// bits `snap` give it.
pub open spec fn pull_up_resampled(
    m: PinMapView,
    before: Seq<PinState>,
    target: Target,
    after: Seq<PinState>,
    snap: Seq<u32>,
) -> bool {
    forall|i: int|
        0 <= i < m.pins.len() && pulls_input(m, before, target, i) && bank_bit_unique(m, i) ==> (
        #[trigger] after[i] matches PinState::Configured { previous, .. } && previous == snapshot_level(m, snap, i))
}

/// The levels a request records: after a direction change, and after an
/// accepted pull-up change, each pin it reconfigured whose bank bit is its
/// own remembers the level the board's bank bits `snap` give it once the
/// request is handled.
pub open spec fn spec_handle_resampled(
    m: PinMapView,
    before: Seq<PinState>,
    body: Request<Seq<u8>>,
    after: Seq<PinState>,
    snap: Seq<u32>,
) -> bool {
    match body {
        Request::Direction { target, direction } => match spec_resolve(m, target) {
            Some(t) => direction_resampled(m, t, direction, after, snap),
            None => true,
        },
        Request::Pullup { target, .. } => match spec_resolve(m, target) {
            Some(t) => (t matches Target::Pin(p) && spec_initialized(m, before, p.spec_index() as int) is Some)
                || pull_up_resampled(m, before, t, after, snap),
            None => true,
        },
        _ => true,
    }
}

/// The listener scan only reports a pin whose level changed.
proof fn lemma_first_changed_is_changed(m: PinMapView, st: Seq<PinState>, cursor: int, snap: Seq<u32>, offset: int)
    requires
        0 <= cursor,
    ensures
        first_changed_listener(m, st, cursor, snap, offset) matches Some(i) ==> listener_changed(m, st, snap, i) && 0
            <= i < m.pins.len(),
    decreases m.pins.len() - offset,
{
    if 0 <= offset < m.pins.len() && !listener_changed(m, st, snap, (cursor + offset) % (m.pins.len() as int)) {
        lemma_first_changed_is_changed(m, st, cursor, snap, offset + 1);
    }
}

/// A direction change samples the level of each pin it reconfigures: polling
/// the listeners against the same board afterwards reports none of those
/// pins (whose bank bits are their own) and leaves their state as the
/// direction change left it.
pub proof fn lemma_resampled_pins_not_reported(
    m: PinMapView,
    target: Target,
    direction: Direction,
    mid: FirmwareView,
    snap: Seq<u32>,
    after: FirmwareView,
    res: Option<Packet<FirmwareResponse>>,
    i: int,
)
    requires
        direction_resampled(m, target, direction, mid.pins, snap),
        spec_poll_listener(m, mid, snap, after, res),
        direction_reconfigures(m, target, direction, i),
        bank_bit_unique(m, i),
        m.pins.len() <= mid.pins.len(),
    ensures
        first_changed_listener(m, mid.pins, mid.listener_cursor as int, snap, 0) != Some(i),
        after.pins[i] == mid.pins[i],
{
    lemma_first_changed_is_changed(m, mid.pins, mid.listener_cursor as int, snap, 0);
    assert(mid.pins[i] matches PinState::Configured { previous, .. } && previous == snapshot_level(m, snap, i));
    match first_changed_listener(m, mid.pins, mid.listener_cursor as int, snap, 0) {
        Some(index) => {
            assert(index != i);
            match mid.pins[index] {
                PinState::Configured { direction, pull_up, listener: Some(l), .. } => {
                    let level = snapshot_level(m, snap, index);
                    let updated = mid.pins.update(index, PinState::Configured { direction, pull_up, listener: Some(l), previous: level });
                    assert(after.pins == updated);
                    assert(updated[i] == mid.pins[i]);
                },
                _ => {},
            }
        },
        None => {},
    }
}

/// An answer reporting `level` for the pin with this token.
pub open spec fn is_value_of(r: FirmwareResponse, token: Seq<u8>, level: Level) -> bool {
    match r {
        Response::Value { target, level: l } => target@ == token && l == level,
        _ => false,
    }
}

/// The input bits of every bank of a board, by bank position.
pub closed spec fn board_bits<G: GpioHal>(board: G) -> Seq<u32> {
    Seq::new(MAX_BANKS as nat, |b: int| board.spec_input_bits(BankId(b as u8)))
}

/// The bank bits of a board are the ones it presents for each bank.
pub broadcast proof fn lemma_board_bits<G: GpioHal>(board: G, bank: BankId)
    ensures
        #[trigger] board_bits(board).len() == MAX_BANKS,
        bank.spec_index() < MAX_BANKS ==> board_bits(board)[bank.spec_index() as int] == #[trigger] board.spec_input_bits(bank),
{
    if bank.spec_index() < MAX_BANKS {
        BankId::lemma_index_determines(BankId(bank.spec_index()), bank);
    }
}

/// Reconfiguring `pin` changed no input bit but its own, so every pin below
/// `upto` whose bank bit is its own, other than `pin`, reads as it did.
proof fn lemma_other_levels_kept<G: GpioHal>(m: PinMapView, before: G, after: G, pin: PinId, upto: int)
    requires
        map_wf(m),
        pin.spec_index() < m.pins.len(),
        forall|b: BankId, k: u8|
            k < 32 && !own_bank_bit(m, pin, b, k) ==> #[trigger] bit_level(after.spec_input_bits(b), k) == bit_level(
                before.spec_input_bits(b),
                k,
            ),
    ensures
        forall|j: int|
            0 <= j < upto && j < m.pins.len() && j != pin.spec_index() && bank_bit_unique(m, j) ==> #[trigger] snapshot_level(
                m,
                board_bits(after),
                j,
            ) == snapshot_level(m, board_bits(before), j),
{
    assert forall|j: int|
        0 <= j < upto && j < m.pins.len() && j != pin.spec_index() && bank_bit_unique(m, j) implies #[trigger] snapshot_level(
            m,
            board_bits(after),
            j,
        ) == snapshot_level(m, board_bits(before), j) by {
        let b = m.pins[j].bank;
        let k = m.pins[j].bit;
        lemma_board_bits(after, b);
        lemma_board_bits(before, b);
        assert(m.pins[j] == m.pins[j]);
        assert(!own_bank_bit(m, pin, b, k));
        assert(bit_level(after.spec_input_bits(b), k) == bit_level(before.spec_input_bits(b), k));
    }
}

/// The level the bank snapshot `snap` gives the pin at `index`.
pub open spec fn snapshot_level(m: PinMapView, snap: Seq<u32>, index: int) -> Level {
    if snap[m.pins[index].bank.spec_index() as int] & (1u32 << m.pins[index].bit) == 0 {
        Level::Low
    } else {
        Level::High
    }
}

/// The pin at `index` listens, and the snapshot gives it a level other than
/// the one last reported.
pub open spec fn listener_changed(m: PinMapView, st: Seq<PinState>, snap: Seq<u32>, index: int) -> bool {
    st[index] matches PinState::Configured { listener: Some(_), previous, .. } && snapshot_level(m, snap, index)
        != previous
}

/// Scanning the pins from `cursor` on, wrapping around, from `offset` pins
/// in: the first listening pin whose level changed.
pub open spec fn first_changed_listener(m: PinMapView, st: Seq<PinState>, cursor: int, snap: Seq<u32>, offset: int) -> Option<int>
    decreases m.pins.len() - offset,
{
    if offset < 0 || offset >= m.pins.len() {
        None
    } else if listener_changed(m, st, snap, (cursor + offset) % (m.pins.len() as int)) {
        Some((cursor + offset) % (m.pins.len() as int))
    } else {
        first_changed_listener(m, st, cursor, snap, offset + 1)
    }
}

/// Polling the listeners against the bank snapshot `snap`: the first
/// listening pin from the cursor on whose level changed is reported under its
/// listener's identifier, its new level is remembered and the next scan
/// starts after it; when none changed, nothing is reported and nothing
/// changes.
pub open spec fn spec_poll_listener(
    m: PinMapView,
    before: FirmwareView,
    snap: Seq<u32>,
    after: FirmwareView,
    res: Option<Packet<FirmwareResponse>>,
) -> bool {
    match first_changed_listener(m, before.pins, before.listener_cursor as int, snap, 0) {
        None => res is None && after == before,
        Some(index) => match before.pins[index] {
            PinState::Configured { direction, pull_up, listener: Some(l), .. } => {
                let level = snapshot_level(m, snap, index);
                &&& res matches Some(r) && r.id == l && is_value_of(r.body, m.pins[index].token.spec_bytes(), level)
                &&& after == (FirmwareView {
                    pins: before.pins.update(
                        index,
                        PinState::Configured { direction, pull_up, listener: Some(l), previous: level },
                    ),
                    listener_cursor: if index + 1 == m.pins.len() {
                        0usize
                    } else {
                        (index + 1) as usize
                    },
                    ..before
                })
            },
            _ => false,
        },
    }
}

/// No listening pin between `from` and `to` pins in has changed, so the scan
/// from `from` finds what the scan from `to` finds.
proof fn lemma_first_changed_skip(m: PinMapView, st: Seq<PinState>, cursor: int, snap: Seq<u32>, from: int, to: int)
    requires
        0 <= from <= to <= m.pins.len(),
        forall|j: int|
            from <= j < to ==> !listener_changed(m, st, snap, #[trigger] ((cursor + j) % (m.pins.len() as int))),
    ensures
        first_changed_listener(m, st, cursor, snap, from) == first_changed_listener(m, st, cursor, snap, to),
    decreases to - from,
{
    if from < to {
        lemma_first_changed_skip(m, st, cursor, snap, from + 1, to);
    }
}

impl Firmware {
    /// One state per possible pin.
    pub closed spec fn wf(&self) -> bool {
        self.pins@.len() == MAX_PINS && self.listener_cursor <= MAX_PINS
    }

    /// A firmware answering `HRU` with `identity`, with every pin unset.
    pub fn new(identity: &'static [u8]) -> (f: Self)
        ensures
            f.wf(),
            f@.identity == identity@,
            f@.pins == Seq::new(MAX_PINS as nat, |i: int| PinState::Unset),
            f@.bulk is None,
            f@.listener_cursor == 0,
    {
        let mut pins: Vec<PinState> = Vec::new();
        let mut i: usize = 0;
        while i < MAX_PINS
            invariant
                i <= MAX_PINS,
                pins@ == Seq::new(i as nat, |j: int| PinState::Unset),
            decreases MAX_PINS - i,
        {
            pins.push(PinState::Unset);
            i = i + 1;
            assert(pins@ =~= Seq::new(i as nat, |j: int| PinState::Unset));
        }
        Firmware { identity, pins, bulk: None, listener_cursor: 0 }
    }

    fn state(&self, pin: PinId) -> (s: PinState)
        requires
            self.wf(),
            pin.spec_index() < MAX_PINS,
        ensures
            s == self@.pins[pin.spec_index() as int],
    {
        self.pins[pin.index()]
    }

    /// Why a request about one pin is refused, if it is.
    fn initialized(&self, map: &PinMap, pin: PinId) -> (res: Result<(), FirmwareResponse>)
        requires
            self.wf(),
            map_wf(map@),
            pin.spec_index() < map@.pins.len(),
        ensures
            match spec_initialized(map@, self@.pins, pin.spec_index() as int) {
                Some(reason) => res matches Err(r) && r@ == pin_error_view(map@, pin.spec_index() as int, reason),
                None => res is Ok,
            },
    {
        supported(map, pin)?;
        if matches!(self.state(pin), PinState::Unset) {
            return Err(pin_error(map, pin, TargetError::Unset));
        }
        Ok(())
    }

    /// What a `WYD` answers for a pin.
    fn query(&self, pin: PinId, what: Query) -> (v: QueryValue)
        requires
            self.wf(),
            pin.spec_index() < MAX_PINS,
        ensures
            v == spec_query(self@.pins[pin.spec_index() as int], what),
    {
        match (self.state(pin), what) {
            (PinState::Unset, _) => QueryValue::Unset,
            (PinState::Configured { direction, .. }, Query::Direction) => QueryValue::Direction(direction),
            (PinState::Configured { pull_up, .. }, Query::Pullup) => QueryValue::Enabled(pull_up),
            (PinState::Configured { listener, .. }, Query::Listen) => QueryValue::Enabled(listener.is_some()),
        }
    }

    /// Configures the pins `target` addresses that can be driven in `direction`.
    fn set_direction<G: GpioHal>(&mut self, map: &PinMap, target: Target, direction: Direction, gpio: &mut G)
        requires
            old(self).wf(),
            map_wf(map@),
            map@ == old(gpio).spec_map(),
        ensures
            final(self).wf(),
            final(gpio).spec_map() == old(gpio).spec_map(),
            same_but_pins(old(self)@, final(self)@),
            pins_changed_where(
                old(self)@.pins,
                final(self)@.pins,
                |i: int| i < map@.pins.len() && spec_target_contains(map@, target, i) && map@.pins[i].capabilities.spec_supports(
                    direction,
                ),
                |a: PinState, b: PinState| after_direction(a, b, direction),
            ),
            modes_changed_where(
                *old(gpio),
                *final(gpio),
                |i: int| i < map@.pins.len() && spec_target_contains(map@, target, i) && map@.pins[i].capabilities.spec_supports(
                    direction,
                ),
                |a: PadMode| direction_mode(direction),
            ),
            direction_resampled(map@, target, direction, final(self)@.pins, board_bits(*final(gpio))),
    {
        let n = map.pins().len();
        let mut i: usize = 0;
        while i < n
            invariant
                i <= n,
                n == map@.pins.len(),
                map_wf(map@),
                map@ == gpio.spec_map(),
                gpio.spec_map() == old(gpio).spec_map(),
                self.wf(),
                old(self).wf(),
                same_but_pins(old(self)@, self@),
                forall|j: int|
                    0 <= j < MAX_PINS ==> if j < i && j < map@.pins.len() && spec_target_contains(map@, target, j)
                        && map@.pins[j].capabilities.spec_supports(direction) {
                        after_direction(old(self)@.pins[j], #[trigger] self.pins@[j], direction)
                    } else {
                        self.pins@[j] == old(self)@.pins[j]
                    },
                forall|q: PinId|
                    #[trigger] gpio.spec_mode(q) == if q.spec_index() < i && spec_target_contains(map@, target, q.spec_index() as int)
                        && map@.pins[q.spec_index() as int].capabilities.spec_supports(direction) {
                        direction_mode(direction)
                    } else {
                        old(gpio).spec_mode(q)
                    },
                forall|j: int|
                    j < i && direction_reconfigures(map@, target, direction, j) && bank_bit_unique(map@, j) ==> (
                    #[trigger] self.pins@[j] matches PinState::Configured { previous, .. } && previous == snapshot_level(
                        map@,
                        board_bits(*gpio),
                        j,
                    )),
            decreases n - i,
        {
            let pin = PinId(i as u8);
            let ghost board_before = *gpio;
            if target_contains(map, target, pin) && map.pin(pin).capabilities.supports_direction(direction) {
                let listener = match self.pins[i] {
                    PinState::Configured { listener, .. } => listener,
                    PinState::Unset => None,
                };
                match direction {
                    Direction::Input => gpio.input(pin, false),
                    Direction::Output => gpio.output(pin, Level::Low),
                }
                proof {
                    lemma_other_levels_kept(map@, board_before, *gpio, pin, i as int);
                }
                let previous = read_pin(map, gpio, pin);
                self.pins.set(i, PinState::Configured { direction, pull_up: false, listener, previous });
            }
            i = i + 1;
        }
    }

    /// Records a pull-up change on the pins `target` addresses.
    fn set_pull_up<G: GpioHal>(&mut self, map: &PinMap, target: Target, enabled: bool, gpio: &mut G)
        requires
            old(self).wf(),
            map_wf(map@),
            map@ == old(gpio).spec_map(),
        ensures
            final(self).wf(),
            final(gpio).spec_map() == old(gpio).spec_map(),
            same_but_pins(old(self)@, final(self)@),
            pins_changed_where(
                old(self)@.pins,
                final(self)@.pins,
                |i: int| i < map@.pins.len() && pull_up_applies(map@, old(self)@.pins, target, i),
                |a: PinState, b: PinState| after_pull_up(a, b, enabled),
            ),
            modes_changed_where(
                *old(gpio),
                *final(gpio),
                |i: int| i < map@.pins.len() && pulls_input(map@, old(self)@.pins, target, i),
                |a: PadMode| PadMode::Input { pull_up: enabled },
            ),
            pull_up_resampled(map@, old(self)@.pins, target, final(self)@.pins, board_bits(*final(gpio))),
    {
        let n = map.pins().len();
        let mut i: usize = 0;
        while i < n
            invariant
                i <= n,
                n == map@.pins.len(),
                map_wf(map@),
                map@ == gpio.spec_map(),
                gpio.spec_map() == old(gpio).spec_map(),
                self.wf(),
                old(self).wf(),
                same_but_pins(old(self)@, self@),
                forall|j: int|
                    0 <= j < MAX_PINS ==> if j < i && j < map@.pins.len() && pull_up_applies(map@, old(self)@.pins, target, j) {
                        after_pull_up(old(self)@.pins[j], #[trigger] self.pins@[j], enabled)
                    } else {
                        self.pins@[j] == old(self)@.pins[j]
                    },
                forall|q: PinId|
                    #[trigger] gpio.spec_mode(q) == if q.spec_index() < i && pulls_input(map@, old(self)@.pins, target, q.spec_index() as int) {
                        PadMode::Input { pull_up: enabled }
                    } else {
                        old(gpio).spec_mode(q)
                    },
                forall|j: int|
                    0 <= j < i && j < map@.pins.len() && pulls_input(map@, old(self)@.pins, target, j) && bank_bit_unique(map@, j)
                        ==> (#[trigger] self.pins@[j] matches PinState::Configured { previous, .. } && previous
                        == snapshot_level(map@, board_bits(*gpio), j)),
            decreases n - i,
        {
            let pin = PinId(i as u8);
            let ghost board_before = *gpio;
            if target_contains(map, target, pin) {
                let info = map.pin(pin);
                let state = self.pins[i];
                let needs_pull_up = matches!(state, PinState::Configured { direction: Direction::Input, .. });
                if info.capabilities.available() && !(needs_pull_up && !info.capabilities.pull_up()) {
                    if let PinState::Configured { direction, listener, previous, .. } = state {
                        let mut previous = previous;
                        if matches!(direction, Direction::Input) {
                            gpio.input(pin, enabled);
                            proof {
                                lemma_other_levels_kept(map@, board_before, *gpio, pin, i as int);
                            }
                            previous = read_pin(map, gpio, pin);
                        }
                        self.pins.set(i, PinState::Configured { direction, pull_up: enabled, listener, previous });
                    }
                }
            }
            i = i + 1;
        }
    }

    /// Records a listener change on the pins `target` addresses.
    fn set_listening<G: GpioHal>(&mut self, map: &PinMap, target: Target, enabled: bool, id: RequestId, gpio: &G)
        requires
            old(self).wf(),
            map_wf(map@),
            map@ == gpio.spec_map(),
        ensures
            final(self).wf(),
            same_but_pins(old(self)@, final(self)@),
            pins_changed_where(
                old(self)@.pins,
                final(self)@.pins,
                |i: int| i < map@.pins.len() && listen_applies(map@, old(self)@.pins, target, i),
                |a: PinState, b: PinState| after_listen(a, b, enabled, id),
            ),
            listen_sampled(map@, board_bits(*gpio), old(self)@.pins, final(self)@.pins, target, enabled),
    {
        let direct = matches!(target, Target::Pin(_));
        let n = map.pins().len();
        let mut i: usize = 0;
        while i < n
            invariant
                i <= n,
                n == map@.pins.len(),
                map_wf(map@),
                map@ == gpio.spec_map(),
                self.wf(),
                direct == target is Pin,
                same_but_pins(old(self)@, self@),
                forall|j: int|
                    0 <= j < MAX_PINS ==> if j < i && j < map@.pins.len() && listen_applies(map@, old(self)@.pins, target, j) {
                        after_listen(old(self)@.pins[j], #[trigger] self.pins@[j], enabled, id)
                    } else {
                        self.pins@[j] == old(self)@.pins[j]
                    },
                forall|j: int|
                    0 <= j < i && enabled && listen_applies(map@, old(self)@.pins, target, j) && !(old(self)@.pins[j] is Unset)
                        ==> (#[trigger] self.pins@[j] matches PinState::Configured { previous, .. } && previous
                        == snapshot_level(map@, board_bits(*gpio), j)),
            decreases n - i,
        {
            let pin = PinId(i as u8);
            if target_contains(map, target, pin) && map.pin(pin).capabilities.input() {
                let state = self.pins[i];
                if direct || matches!(state, PinState::Configured { direction: Direction::Input, .. }) {
                    if let PinState::Configured { direction, pull_up, previous, .. } = state {
                        let listener = if enabled {
                            Some(id)
                        } else {
                            None
                        };
                        let previous = if enabled {
                            read_pin(map, gpio, pin)
                        } else {
                            previous
                        };
                        self.pins.set(i, PinState::Configured { direction, pull_up, listener, previous });
                    }
                }
            }
            i = i + 1;
        }
    }

    /// Drives the output pins `target` addresses: a pin named directly, or
    /// the configured outputs of a group.
    fn set_level<G: GpioHal>(&mut self, map: &PinMap, target: Target, level: Level, gpio: &mut G)
        requires
            old(self).wf(),
            map_wf(map@),
            map@ == old(gpio).spec_map(),
        ensures
            final(self)@ == old(self)@,
            final(self).wf(),
            final(gpio).spec_map() == old(gpio).spec_map(),
            modes_changed_where(
                *old(gpio),
                *final(gpio),
                |i: int| i < map@.pins.len() && level_applies(map@, old(self)@.pins, target, i),
                |a: PadMode| written(a, level),
            ),
    {
        let direct = matches!(target, Target::Pin(_));
        let n = map.pins().len();
        let mut i: usize = 0;
        while i < n
            invariant
                i <= n,
                n == map@.pins.len(),
                map_wf(map@),
                map@ == gpio.spec_map(),
                gpio.spec_map() == old(gpio).spec_map(),
                self.wf(),
                self@ == old(self)@,
                direct == (target is Pin),
                forall|q: PinId|
                    #[trigger] gpio.spec_mode(q) == if q.spec_index() < i && level_applies(map@, old(self)@.pins, target, q.spec_index() as int) {
                        written(old(gpio).spec_mode(q), level)
                    } else {
                        old(gpio).spec_mode(q)
                    },
            decreases n - i,
        {
            let pin = PinId(i as u8);
            if target_contains(map, target, pin) && map.pin(pin).capabilities.output() {
                if direct || matches!(self.pins[i], PinState::Configured { direction: Direction::Output, .. }) {
                    gpio.write(pin, level);
                }
            }
            i = i + 1;
        }
    }

    /// Releases every pin of the map and forgets grouped reads and listeners.
    fn reset<G: GpioHal>(&mut self, gpio: &mut G)
        requires
            old(self).wf(),
        ensures
            final(self).wf(),
            final(gpio).spec_map() == old(gpio).spec_map(),
            final(self)@ == (FirmwareView {
                pins: spec_reset_pins(old(gpio).spec_map(), old(self)@.pins),
                bulk: None,
                listener_cursor: 0,
                ..old(self)@
            }),
            modes_changed_where(
                *old(gpio),
                *final(gpio),
                |i: int| released(old(gpio).spec_map(), old(self)@.pins, i),
                |a: PadMode| PadMode::Input { pull_up: false },
            ),
    {
        self.bulk = None;
        self.listener_cursor = 0;
        let map = gpio.pin_map();
        let n = map.pins().len();
        let mut i: usize = 0;
        while i < n
            invariant
                i <= n,
                n == map@.pins.len(),
                map_wf(map@),
                map@ == gpio.spec_map(),
                gpio.spec_map() == old(gpio).spec_map(),
                self.wf(),
                old(self).wf(),
                self@.identity == old(self)@.identity,
                self@.bulk is None,
                self@.listener_cursor == 0,
                forall|j: int|
                    0 <= j < MAX_PINS ==> #[trigger] self.pins@[j] == (if j < i {
                        PinState::Unset
                    } else {
                        old(self)@.pins[j]
                    }),
                forall|q: PinId|
                    #[trigger] gpio.spec_mode(q) == if q.spec_index() < i && released(map@, old(self)@.pins, q.spec_index() as int) {
                        PadMode::Input { pull_up: false }
                    } else {
                        old(gpio).spec_mode(q)
                    },
            decreases n - i,
        {
            let pin = PinId(i as u8);
            if !matches!(self.pins[i], PinState::Unset) && map.pin(pin).capabilities.input() {
                gpio.input(pin, false);
            }
            self.pins.set(i, PinState::Unset);
            i = i + 1;
        }
        assert(self@.pins =~= spec_reset_pins(old(gpio).spec_map(), old(self)@.pins));
    }
}


impl Firmware {
    /// Starts a grouped read and emits its first packet.
    fn begin_bulk<G: GpioHal>(&mut self, id: RequestId, target: Target, kind: BulkKind, gpio: &G) -> (res: Packet<FirmwareResponse>)
        requires
            old(self).wf(),
        ensures
            final(self).wf(),
            spec_poll_bulk(
                gpio.spec_map(),
                board_bits(*gpio),
                FirmwareView { bulk: Some(BulkResponse { id, target, next: 0, kind }), ..old(self)@ },
                BulkResponse { id, target, next: 0, kind },
                final(self)@,
                res,
            ),
    {
        self.bulk = Some(BulkResponse { id, target, next: 0, kind });
        match self.poll_bulk(gpio) {
            Some(packet) => packet,
            None => {
                proof {
                    assert(false);
                }
                Packet { id, body: Response::Ack }
            },
        }
    }

    /// Emits the next packet of the stream that answers `MAP`.
    fn poll_map(&mut self, map: &PinMap, b: BulkResponse) -> (res: Packet<FirmwareResponse>)
        requires
            old(self).wf(),
            old(self)@.bulk == Some(b),
            map_wf(map@),
        ensures
            final(self).wf(),
            final(self)@.identity == old(self)@.identity,
            final(self)@.pins == old(self)@.pins,
            final(self)@.listener_cursor == old(self)@.listener_cursor,
            spec_poll_map(map@, b, final(self)@, res),
    {
        let banks = map.banks().len();
        let pins = map.pins().len();
        if b.next < banks {
            let token = map.banks()[b.next].token.as_bytes();
            self.bulk = Some(BulkResponse { id: b.id, target: b.target, next: b.next + 1, kind: b.kind });
            return Packet { id: b.id, body: Response::MapBank { bank: token } };
        }
        if b.next - banks < pins {
            let index = b.next - banks;
            let info = map.pins()[index];
            let bank = map.banks()[info.bank.index()].token.as_bytes();
            let capabilities = PinCapabilities::from_bits(info.capabilities.bits());
            proof {
                assert(info == map@.pins[index as int]);
            }
            let capabilities = match capabilities {
                Some(c) => c,
                None => PinCapabilities::NONE(),
            };
            self.bulk = Some(BulkResponse { id: b.id, target: b.target, next: b.next + 1, kind: b.kind });
            let body = Response::MapPin {
                target: info.token.as_bytes(),
                package_pin: info.package_pin,
                bank,
                bit: info.bit,
                capabilities,
            };
            proof {
                PinCapabilities::lemma_spec_from_bits(info.capabilities.spec_bits());
                PinCapabilities::lemma_bits_determine(capabilities, PinCapabilities::spec_from_bits(info.capabilities.spec_bits()));
                assert(bank@ == map@.banks[info.bank.spec_index() as int].token.spec_bytes());
                assert(body@ == map_pin_response(map@, index as int));
            }
            return Packet { id: b.id, body };
        }
        self.bulk = None;
        Packet { id: b.id, body: Response::Ack }
    }

    /// Emits the next packet of the grouped read in progress: the next pin's
    /// level or state, or the final `OKA`.
    pub fn poll_bulk<G: GpioHal>(&mut self, gpio: &G) -> (res: Option<Packet<FirmwareResponse>>)
        requires
            old(self).wf(),
        ensures
            final(self).wf(),
            match old(self)@.bulk {
                None => res is None && final(self)@ == old(self)@,
                Some(b) => res matches Some(r) && spec_poll_bulk(gpio.spec_map(), board_bits(*gpio), old(self)@, b, final(self)@, r),
            },
    {
        let map = gpio.pin_map();
        let b = match self.bulk {
            None => {
                return None;
            },
            Some(b) => b,
        };
        if let BulkKind::PinMap = b.kind {
            return Some(self.poll_map(map, b));
        }
        let ghost m = map@;
        let n = map.pins().len();
        let mut next = b.next;
        while next < n
            invariant
                n == m.pins.len(),
                m == map@,
                m == gpio.spec_map(),
                map_wf(m),
                self.wf(),
                self@ == old(self)@,
                old(self)@.bulk == Some(b),
                !(b.kind is PinMap),
                next >= b.next,
                spec_bulk_next(m, self@.pins, b, b.next as int) == spec_bulk_next(m, self@.pins, b, next as int),
            decreases n - next,
        {
            let pin = PinId(next as u8);
            let at = next;
            next = next + 1;
            let info = map.pin(pin);
            if target_contains(map, b.target, pin) && info.capabilities.available() {
                let emit = match b.kind {
                    BulkKind::Values => !matches!(self.pins[at], PinState::Unset),
                    BulkKind::States(_) => true,
                    BulkKind::PinMap => false,
                };
                if emit {
                    let token = info.token.as_bytes();
                    assert(*info == m.pins[at as int]);
                    assert(token@ == m.pins[at as int].token.spec_bytes());
                    let body = match b.kind {
                        BulkKind::States(what) => Response::State { target: token, what, value: self.query(pin, what) },
                        _ => Response::Value { target: token, level: read_pin(map, gpio, pin) },
                    };
                    let r = Packet { id: b.id, body };
                    assert(spec_bulk_next(m, old(self)@.pins, b, at as int) == Some(at as int));
                    assert(bulk_packet_for(m, board_bits(*gpio), old(self)@.pins, b, at as int, r));
                    self.bulk = Some(BulkResponse { id: b.id, target: b.target, next, kind: b.kind });
                    return Some(r);
                }
            }
        }
        self.bulk = None;
        Some(Packet { id: b.id, body: Response::Ack })
    }

    /// Reports one listening pin whose level changed since it was last
    /// reported, scanning from where the last scan stopped; each bank is read
    /// at most once per scan.
    pub fn poll_listener<G: GpioHal>(&mut self, gpio: &G) -> (res: Option<Packet<FirmwareResponse>>)
        requires
            old(self).wf(),
        ensures
            final(self).wf(),
            spec_poll_listener(gpio.spec_map(), old(self)@, board_bits(*gpio), final(self)@, res),
    {
        let map = gpio.pin_map();
        let ghost m = map@;
        let ghost st = self@.pins;
        let ghost cursor = self.listener_cursor as int;
        let ghost snap = board_bits(*gpio);
        let pin_count = map.pins().len();
        if pin_count == 0 {
            return None;
        }
        let mut snapshots: [Option<u32>; 8] = [None; 8];
        let mut offset: usize = 0;
        while offset < pin_count
            invariant
                pin_count == m.pins.len(),
                0 < pin_count <= MAX_PINS,
                m == map@,
                m == gpio.spec_map(),
                map_wf(m),
                snap == board_bits(*gpio),
                self.wf(),
                self@ == old(self)@,
                st == old(self)@.pins,
                cursor == old(self)@.listener_cursor as int,
                offset <= pin_count,
                snapshots@.len() == MAX_BANKS,
                forall|b: int| 0 <= b < MAX_BANKS ==> (#[trigger] snapshots@[b] matches Some(x) ==> x == snap[b]),
                forall|j: int|
                    0 <= j < offset ==> !listener_changed(m, st, snap, #[trigger] ((cursor + j) % (pin_count as int))),
            decreases pin_count - offset,
        {
            let index = (self.listener_cursor + offset) % pin_count;
            let ghost at = offset as int;
            offset = offset + 1;
            let pin = PinId(index as u8);
            if let PinState::Configured { direction, pull_up, listener: Some(listener), previous } = self.pins[index] {
                let info = map.pin(pin);
                let bank = info.bank.index();
                proof {
                    assert(*info == m.pins[index as int]);
                    lemma_board_bits(*gpio, info.bank);
                }
                let bits = match snapshots[bank] {
                    Some(bits) => bits,
                    None => {
                        let bits = gpio.read_bank(info.bank);
                        snapshots[bank] = Some(bits);
                        bits
                    },
                };
                let value = level_from_bank(bits, info.bit);
                assert(snapshot_level(m, snap, index as int) == value);
                if value != previous {
                    self.pins.set(index, PinState::Configured { direction, pull_up, listener: Some(listener), previous: value });
                    self.listener_cursor = if index + 1 == pin_count {
                        0
                    } else {
                        index + 1
                    };
                    let token = info.token.as_bytes();
                    let r = Packet { id: listener, body: Response::Value { target: token, level: value } };
                    proof {
                        lemma_first_changed_skip(m, st, cursor, snap, 0, at);
                        assert(listener_changed(m, st, snap, index as int));
                        assert(first_changed_listener(m, st, cursor, snap, at) == Some(index as int));
                        assert(is_value_of(r.body, m.pins[index as int].token.spec_bytes(), value));
                        assert(self@.pins == old(self)@.pins.update(
                            index as int,
                            PinState::Configured { direction, pull_up, listener: Some(listener), previous: value },
                        ));
                    }
                    return Some(r);
                }
            }
        }
        proof {
            lemma_first_changed_skip(m, st, cursor, snap, 0, pin_count as int);
        }
        None
    }

    /// Handles a decoded request and answers it: `spec_handle` says what it
    /// answers and how the firmware's state moves, `spec_handle_board` what it
    /// does to the board's pins.
    pub fn handle<G: GpioHal>(&mut self, packet: Packet<DecodedRequest<'_>>, gpio: &mut G) -> (res: Packet<FirmwareResponse>)
        requires
            old(self).wf(),
        ensures
            final(self).wf(),
            final(gpio).spec_map() == old(gpio).spec_map(),
            res.id == packet.id,
            spec_handle(old(gpio).spec_map(), board_bits(*old(gpio)), old(self)@, packet.id, packet.body@, final(self)@, res),
            spec_handle_board(old(gpio).spec_map(), old(self)@.pins, packet.body@, *old(gpio), *final(gpio)),
            spec_handle_resampled(old(gpio).spec_map(), old(self)@.pins, packet.body@, final(self)@.pins, board_bits(*final(gpio))),
    {
        let map = gpio.pin_map();
        let id = packet.id;
        let body = match packet.body {
            Request::Hello => Response::Hello,
            Request::Status => Response::Status { identity: self.identity },
            Request::PinMap => {
                return self.begin_bulk(id, Target::All, BulkKind::PinMap, gpio);
            },
            Request::Direction { target, direction } => match map.resolve(target) {
                None => bad_packet(),
                Some(t) => {
                    if let Target::Pin(p) = t {
                        if !map.pin(p).capabilities.supports_direction(direction) {
                            return Packet { id, body: pin_error(map, p, TargetError::Unavailable) };
                        }
                    }
                    self.set_direction(map, t, direction, gpio);
                    Response::Ack
                },
            },
            Request::Get { target } => match map.resolve(target) {
                None => bad_packet(),
                Some(Target::Pin(p)) => match self.initialized(map, p) {
                    Ok(()) => Response::Value { target: map.pin(p).token.as_bytes(), level: read_pin(map, gpio, p) },
                    Err(error) => error,
                },
                Some(t) => {
                    return self.begin_bulk(id, t, BulkKind::Values, gpio);
                },
            },
            Request::SetLevel { target, level } => match map.resolve(target) {
                None => bad_packet(),
                Some(t) => {
                    if let Target::Pin(p) = t {
                        if let Err(error) = self.initialized(map, p) {
                            return Packet { id, body: error };
                        }
                    }
                    self.set_level(map, t, level, gpio);
                    Response::Ack
                },
            },
            Request::Pullup { target, enabled } => match map.resolve(target) {
                None => bad_packet(),
                Some(t) => {
                    if let Target::Pin(p) = t {
                        if let Err(error) = self.initialized(map, p) {
                            return Packet { id, body: error };
                        }
                    }
                    self.set_pull_up(map, t, enabled, gpio);
                    Response::Ack
                },
            },
            Request::Listen { target, enabled } => match map.resolve(target) {
                None => bad_packet(),
                Some(t) => {
                    if let Target::Pin(p) = t {
                        if let Err(error) = self.initialized(map, p) {
                            return Packet { id, body: error };
                        }
                    }
                    self.set_listening(map, t, enabled, id, gpio);
                    Response::Ack
                },
            },
            Request::Query { target, what } => match map.resolve(target) {
                None => bad_packet(),
                Some(Target::Pin(p)) => match supported(map, p) {
                    Ok(()) => Response::State { target: map.pin(p).token.as_bytes(), what, value: self.query(p, what) },
                    Err(error) => error,
                },
                Some(t) => {
                    return self.begin_bulk(id, t, BulkKind::States(what), gpio);
                },
            },
            Request::Bye => {
                self.reset(gpio);
                Response::Bye
            },
        };
        Packet { id, body }
    }
}
/// Whether `target` addresses `pin`.
fn target_contains(map: &PinMap, target: Target, pin: PinId) -> (r: bool)
    requires
        pin.spec_index() < map@.pins.len(),
    ensures
        r == spec_target_contains(map@, target, pin.spec_index() as int),
{
    match target {
        Target::Pin(t) => t.0 == pin.0,
        Target::Bank(bank) => {
            let b = map.pin(pin).bank;
            proof {
                BankId::lemma_index_determines(b, bank);
            }
            b.0 == bank.0
        },
        Target::All => true,
    }
}

/// A reserved pin refuses every request.
fn supported(map: &PinMap, pin: PinId) -> (res: Result<(), FirmwareResponse>)
    requires
        pin.spec_index() < map@.pins.len(),
    ensures
        match res {
            Ok(()) => map@.pins[pin.spec_index() as int].capabilities.spec_available(),
            Err(r) => !map@.pins[pin.spec_index() as int].capabilities.spec_available() && r@ == pin_error_view(
                map@,
                pin.spec_index() as int,
                TargetError::Unavailable,
            ),
        },
{
    if map.pin(pin).capabilities.available() {
        Ok(())
    } else {
        Err(pin_error(map, pin, TargetError::Unavailable))
    }
}

/// The error naming a pin.
fn pin_error(map: &PinMap, pin: PinId, reason: TargetError) -> (r: FirmwareResponse)
    requires
        pin.spec_index() < map@.pins.len(),
    ensures
        r@ == pin_error_view(map@, pin.spec_index() as int, reason),
{
    Response::Error(ResponseError::Target { target: map.pin(pin).token.as_bytes(), reason })
}

fn bad_packet() -> (r: FirmwareResponse)
    ensures
        r == Response::<&'static [u8], &'static [u8]>::Error(ResponseError::BadPacket),
{
    Response::Error(ResponseError::BadPacket)
}

/// The level of a pin in its bank's current input bits.
fn read_pin<G: GpioHal>(map: &PinMap, gpio: &G, pin: PinId) -> (l: Level)
    requires
        map_wf(map@),
        pin.spec_index() < map@.pins.len(),
    ensures
        l == snapshot_level(map@, board_bits(*gpio), pin.spec_index() as int),
{
    let info = map.pin(pin);
    proof {
        lemma_board_bits(*gpio, info.bank);
    }
    level_from_bank(gpio.read_bank(info.bank), info.bit)
}

/// The level bit `bit` of a bank's input bits stands for.
pub fn level_from_bank(bits: u32, bit: u8) -> (l: Level)
    requires
        bit < 32,
    ensures
        l == (if bits & (1u32 << bit) == 0 {
            Level::Low
        } else {
            Level::High
        }),
{
    if bits & (1u32 << bit) == 0 {
        Level::Low
    } else {
        Level::High
    }
}

/// A bank register with the bit of one pin set or cleared, as a masked update
/// of a whole-bank data or direction register does it: bit `bit` becomes
/// `set`, every other bit keeps its value.
pub fn with_bank_bit(bits: u32, bit: u8, set: bool) -> (r: u32)
    requires
        bit < 32,
    ensures
        (r & (1u32 << bit) != 0) == set,
        forall|j: u32| j < 32 && j != bit ==> (#[trigger] (r & (1u32 << j))) == bits & (1u32 << j),
{
    let mask: u32 = 1u32 << bit;
    let r = if set {
        bits | mask
    } else {
        bits & !mask
    };
    assert((r & (1u32 << bit) != 0) == set) by (bit_vector)
        requires
            bit < 32,
            mask == 1u32 << bit,
            r == if set {
                bits | mask
            } else {
                bits & !mask
            },
    ;
    assert forall|j: u32| j < 32 && j != bit implies (#[trigger] (r & (1u32 << j))) == bits & (1u32 << j) by {
        assert(r & (1u32 << j) == bits & (1u32 << j)) by (bit_vector)
            requires
                bit < 32,
                j < 32,
                j != bit,
                mask == 1u32 << bit,
                r == if set {
                    bits | mask
                } else {
                    bits & !mask
                },
        ;
    }
    r
}

} // verus!
