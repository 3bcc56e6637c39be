use vstd::prelude::*;

use crate::ascii::{is_digit, spec_is_digit};

verus! {

/// Number of SAM4E8E pins addressable on the wire (`000`..`116`).
pub const WIRE_PIN_COUNT: u8 = 117;

/// A token that names no port, pin or pin target.
#[derive(Clone, Copy, Debug, PartialEq, Eq, Structural)]
pub struct ParseTokenError;

/// One of the five SAM4E8E PIO controllers.
#[derive(Clone, Copy, Debug, PartialEq, Eq, Structural)]
pub enum Port {
    A,
    B,
    C,
    D,
    E,
}

/// Wire index of the first pin of each port.
pub open spec fn spec_first_index(port: Port) -> u8 {
    match port {
        Port::A => 0,
        Port::B => 32,
        Port::C => 47,
        Port::D => 79,
        Port::E => 111,
    }
}

/// Number of bonded pins of each port.
pub open spec fn spec_pin_count(port: Port) -> u8 {
    match port {
        Port::A | Port::C | Port::D => 32,
        Port::B => 15,
        Port::E => 6,
    }
}

/// ASCII letter of each port.
pub open spec fn spec_letter(port: Port) -> u8 {
    match port {
        Port::A => 0x41,
        Port::B => 0x42,
        Port::C => 0x43,
        Port::D => 0x44,
        Port::E => 0x45,
    }
}

/// The letter of each port, as a character.
pub open spec fn spec_letter_char(port: Port) -> char {
    match port {
        Port::A => 'A',
        Port::B => 'B',
        Port::C => 'C',
        Port::D => 'D',
        Port::E => 'E',
    }
}

/// The port named by an ASCII letter.
pub open spec fn spec_port_from_letter(letter: u8) -> Option<Port> {
    if letter == 0x41 {
        Some(Port::A)
    } else if letter == 0x42 {
        Some(Port::B)
    } else if letter == 0x43 {
        Some(Port::C)
    } else if letter == 0x44 {
        Some(Port::D)
    } else if letter == 0x45 {
        Some(Port::E)
    } else {
        None
    }
}

/// The wire token of a port: `PIO` and its letter.
pub open spec fn spec_port_token(port: Port) -> Seq<u8> {
    seq![0x50u8, 0x49u8, 0x4fu8, spec_letter(port)]
}

/// The port a wire token names, if any.
pub open spec fn spec_parse_port(t: Seq<u8>) -> Option<Port> {
    if t.len() == 4 && t[0] == 0x50 && t[1] == 0x49 && t[2] == 0x4f {
        spec_port_from_letter(t[3])
    } else {
        None
    }
}

impl Port {
    pub(crate) fn from_letter(letter: u8) -> (res: Result<Self, ParseTokenError>)
        ensures
            res matches Ok(p) ==> spec_port_from_letter(letter) == Some(p),
            res is Err ==> spec_port_from_letter(letter) is None,
    {
        if letter == 0x41 {
            Ok(Port::A)
        } else if letter == 0x42 {
            Ok(Port::B)
        } else if letter == 0x43 {
            Ok(Port::C)
        } else if letter == 0x44 {
            Ok(Port::D)
        } else if letter == 0x45 {
            Ok(Port::E)
        } else {
            Err(ParseTokenError)
        }
    }

    pub(crate) fn first_index(self) -> (r: u8)
        ensures
            r == spec_first_index(self),
    {
        match self {
            Port::A => 0,
            Port::B => 32,
            Port::C => 47,
            Port::D => 79,
            Port::E => 111,
        }
    }

    pub fn pin_count(self) -> (r: u8)
        ensures
            r == spec_pin_count(self),
    {
        match self {
            Port::A | Port::C | Port::D => 32,
            Port::B => 15,
            Port::E => 6,
        }
    }

    /// The port's letter, `A` to `E`.
    pub fn letter(self) -> (r: char)
        ensures
            r == spec_letter_char(self),
            r as u8 == spec_letter(self),
    {
        match self {
            Port::A => 'A',
            Port::B => 'B',
            Port::C => 'C',
            Port::D => 'D',
            Port::E => 'E',
        }
    }

    /// The pins of this port in wire order.
    pub fn pins(self) -> (res: Vec<Pin>)
        ensures
            res@ == spec_target_pins(PinTarget::Bank(self)),
    {
        PinTarget::Bank(self).pins()
    }

    /// Parses a `PIOx` token.
    pub fn parse_token(token: &[u8]) -> (res: Result<Self, ParseTokenError>)
        ensures
            res matches Ok(p) ==> spec_parse_port(token@) == Some(p),
            res is Err ==> spec_parse_port(token@) is None,
    {
        if token.len() == 4 && token[0] == 0x50 && token[1] == 0x49 && token[2] == 0x4f {
            Self::from_letter(token[3])
        } else {
            Err(ParseTokenError)
        }
    }

    /// The wire token of this port, `PIOx`.
    pub fn to_token(self) -> (res: Vec<u8>)
        ensures
            res@ == spec_port_token(self),
    {
        let mut v: Vec<u8> = Vec::new();
        v.push(0x50);
        v.push(0x49);
        v.push(0x4f);
        v.push(self.letter() as u8);
        assert(v@ =~= spec_port_token(self));
        v
    }
}

/// A SAM4E8E pin by its wire index.
#[derive(Clone, Copy, Debug, PartialEq, Eq, Structural)]
pub struct Pin(u8);

/// Package pin of each wire index.
pub const PACKAGE_PINS: [u8; 117] = [
    102, 99, 93, 91, 77, 73, 114, 35, 36, 75, 66, 64, 68, 42, 51, 49, 45, 25, 24, 23, 22, 32, 37,
    46, 56, 59, 62, 70, 112, 129, 116, 118, 21, 20, 26, 31, 105, 109, 79, 89, 141, 142, 136, 137,
    87, 144, 140, 11, 38, 39, 40, 41, 58, 54, 48, 82, 86, 90, 94, 17, 19, 97, 18, 100, 103, 111,
    117, 120, 122, 124, 127, 130, 133, 13, 12, 76, 16, 15, 14, 1, 132, 131, 128, 126, 125, 121,
    119, 113, 110, 101, 98, 92, 88, 84, 106, 78, 74, 69, 67, 65, 63, 60, 57, 55, 52, 53, 47, 71,
    108, 34, 2, 4, 6, 7, 10, 27, 28,
];

/// The port that holds a wire index.
pub open spec fn spec_port_of(index: u8) -> Port {
    if index <= 31 {
        Port::A
    } else if index <= 46 {
        Port::B
    } else if index <= 78 {
        Port::C
    } else if index <= 110 {
        Port::D
    } else {
        Port::E
    }
}

/// Pins 40..=43 carry the crystal and USB and are never handed out.
pub open spec fn spec_is_available(index: u8) -> bool {
    !(40 <= index <= 43)
}

/// The wire token of a pin: `P`, the port letter and two bit digits.
pub open spec fn spec_pin_token(index: u8) -> Seq<u8> {
    let bit = (index - spec_first_index(spec_port_of(index))) as u8;
    seq![0x50u8, spec_letter(spec_port_of(index)), (0x30 + bit / 10) as u8, (0x30 + bit % 10) as u8]
}

/// The wire index of `bit` within `port`, if the port has such a bit.
pub open spec fn spec_pin_at(port: Port, bit: u8) -> Option<u8> {
    if bit < spec_pin_count(port) {
        Some((spec_first_index(port) + bit) as u8)
    } else {
        None
    }
}

/// The wire index a `Pxnn` token names, if any.
pub open spec fn spec_parse_pin(t: Seq<u8>) -> Option<u8> {
    if t.len() == 4 && t[0] == 0x50 && spec_is_digit(t[2]) && spec_is_digit(t[3]) {
        match spec_port_from_letter(t[1]) {
            Some(port) => spec_pin_at(port, ((t[2] - 0x30) * 10 + (t[3] - 0x30)) as u8),
            None => None,
        }
    } else {
        None
    }
}

impl Pin {
    #[verifier::type_invariant]
    closed spec fn in_range(self) -> bool {
        self.0 < 117
    }

    /// The wire index of this pin.
    pub closed spec fn idx(self) -> u8 {
        self.0
    }

    /// Pins with the same wire index are the same pin.
    pub broadcast proof fn lemma_idx_determines(a: Pin, b: Pin)
        ensures
            #[trigger] a.idx() == #[trigger] b.idx() ==> a == b,
    {
    }

    /// A ghost pin with the given index, for stating what functions return.
    pub closed spec fn spec_new(index: u8) -> Pin {
        Pin(index)
    }

    pub broadcast proof fn lemma_spec_new(index: u8)
        ensures
            #[trigger] Pin::spec_new(index).idx() == index,
    {
    }

    pub fn from_wire_index(index: u8) -> (res: Option<Self>)
        ensures
            res is Some <==> index < 117,
            res matches Some(p) ==> p.idx() == index,
    {
        if index < WIRE_PIN_COUNT {
            Some(Pin(index))
        } else {
            None
        }
    }

    /// Every wire pin in index order.
    pub fn all() -> (res: Vec<Self>)
        ensures
            res@ == spec_target_pins(PinTarget::All),
    {
        PinTarget::All.pins()
    }

    pub fn index(self) -> (r: u8)
        ensures
            r == self.idx(),
            r < 117,
    {
        proof {
            use_type_invariant(self);
        }
        self.0
    }

    pub fn port(self) -> (r: Port)
        ensures
            r == spec_port_of(self.idx()),
    {
        if self.0 <= 31 {
            Port::A
        } else if self.0 <= 46 {
            Port::B
        } else if self.0 <= 78 {
            Port::C
        } else if self.0 <= 110 {
            Port::D
        } else {
            Port::E
        }
    }

    pub fn bit(self) -> (r: u8)
        ensures
            r == self.idx() - spec_first_index(spec_port_of(self.idx())),
            r < spec_pin_count(spec_port_of(self.idx())),
    {
        proof {
            use_type_invariant(self);
        }
        self.0 - self.port().first_index()
    }

    pub fn package_pin(self) -> (r: u8)
        ensures
            r == PACKAGE_PINS@[self.idx() as int],
    {
        proof {
            use_type_invariant(self);
        }
        PACKAGE_PINS[self.0 as usize]
    }

    pub fn is_available(self) -> (r: bool)
        ensures
            r == spec_is_available(self.idx()),
    {
        !(40 <= self.0 && self.0 <= 43)
    }

    /// The pin `bit` of `port`.
    pub fn from_port_bit(port: Port, bit: u8) -> (res: Result<Self, ParseTokenError>)
        ensures
            res matches Ok(p) ==> spec_pin_at(port, bit) == Some(p.idx()),
            res is Err ==> spec_pin_at(port, bit) is None,
    {
        if bit < port.pin_count() {
            Ok(Pin(port.first_index() + bit))
        } else {
            Err(ParseTokenError)
        }
    }

    /// Parses a `Pxnn` token such as `PA05`.
    pub fn parse_token(token: &[u8]) -> (res: Result<Self, ParseTokenError>)
        ensures
            res matches Ok(p) ==> spec_parse_pin(token@) == Some(p.idx()),
            res is Err ==> spec_parse_pin(token@) is None,
    {
        if token.len() != 4 || token[0] != 0x50 {
            return Err(ParseTokenError);
        }
        let tens = token[2];
        let ones = token[3];
        if !is_digit(tens) || !is_digit(ones) {
            return Err(ParseTokenError);
        }
        let port = Port::from_letter(token[1])?;
        Self::from_port_bit(port, (tens - 0x30) * 10 + (ones - 0x30))
    }

    /// The wire token of this pin, such as `PA05`.
    pub fn to_token(self) -> (res: Vec<u8>)
        ensures
            res@ == spec_pin_token(self.idx()),
    {
        let bit = self.bit();
        let mut v: Vec<u8> = Vec::new();
        v.push(0x50);
        v.push(self.port().letter() as u8);
        v.push(0x30 + bit / 10);
        v.push(0x30 + bit % 10);
        assert(v@ =~= spec_pin_token(self.idx()));
        v
    }
}

/// A pin, a whole port, or every pin.
#[derive(Clone, Copy, Debug, PartialEq, Eq, Structural)]
pub enum PinTarget {
    Pin(Pin),
    Bank(Port),
    All,
}

/// The half-open range of wire indices a target covers.
pub open spec fn spec_target_range(target: PinTarget) -> (u8, u8) {
    match target {
        PinTarget::Pin(p) => (p.idx(), (p.idx() + 1) as u8),
        PinTarget::Bank(port) => (
            spec_first_index(port),
            (spec_first_index(port) + spec_pin_count(port)) as u8,
        ),
        PinTarget::All => (0, 117),
    }
}

/// The pins a target covers, in wire order.
pub open spec fn spec_target_pins(target: PinTarget) -> Seq<Pin> {
    let (start, end) = spec_target_range(target);
    Seq::new((end - start) as nat, |i: int| Pin::spec_new((start + i) as u8))
}

/// Whether a target covers a pin.
pub open spec fn spec_target_contains(target: PinTarget, pin: Pin) -> bool {
    match target {
        PinTarget::Pin(p) => p == pin,
        PinTarget::Bank(port) => spec_port_of(pin.idx()) == port,
        PinTarget::All => true,
    }
}

/// The wire token of a target.
pub open spec fn spec_target_token(target: PinTarget) -> Seq<u8> {
    match target {
        PinTarget::Pin(p) => spec_pin_token(p.idx()),
        PinTarget::Bank(port) => spec_port_token(port),
        PinTarget::All => seq![0x41u8, 0x4cu8, 0x4cu8],
    }
}

/// The target a token names, if any.
pub open spec fn spec_parse_target(t: Seq<u8>) -> Option<PinTarget> {
    if t == seq![0x41u8, 0x4cu8, 0x4cu8] {
        Some(PinTarget::All)
    } else if spec_parse_port(t) is Some {
        Some(PinTarget::Bank(spec_parse_port(t).unwrap()))
    } else if spec_parse_pin(t) is Some {
        Some(PinTarget::Pin(Pin::spec_new(spec_parse_pin(t).unwrap())))
    } else {
        None
    }
}

impl PinTarget {
    /// The pins this target covers, in wire order.
    pub fn pins(self) -> (res: Vec<Pin>)
        ensures
            res@ == spec_target_pins(self),
    {
        let (start, end): (u8, u8) = match self {
            PinTarget::Pin(pin) => {
                let i = pin.index();
                (i, i + 1)
            },
            PinTarget::Bank(port) => {
                let start = port.first_index();
                (start, start + port.pin_count())
            },
            PinTarget::All => (0, WIRE_PIN_COUNT),
        };
        let mut res: Vec<Pin> = Vec::new();
        let mut i: u8 = start;
        while i < end
            invariant
                start <= i <= end <= 117,
                (start, end) == spec_target_range(self),
                res@.len() == i - start,
                forall|j: int| 0 <= j < res@.len() ==> res@[j] == Pin::spec_new((start + j) as u8),
            decreases end - i,
        {
            res.push(Pin(i));
            proof {
                assert(Pin(i) == Pin::spec_new(i));
            }
            i = i + 1;
        }
        assert(res@ =~= spec_target_pins(self));
        res
    }

    /// The pins this target covers that are not reserved, in wire order.
    pub fn available_pins(self) -> (res: Vec<Pin>)
        ensures
            res@ == spec_target_pins(self).filter(|p: Pin| spec_is_available(p.idx())),
    {
        let all = self.pins();
        let ghost pred = |p: Pin| spec_is_available(p.idx());
        let mut res: Vec<Pin> = Vec::new();
        let mut i: usize = 0;
        while i < all.len()
            invariant
                i <= all@.len(),
                all@ == spec_target_pins(self),
                pred == (|p: Pin| spec_is_available(p.idx())),
                res@ == all@.take(i as int).filter(pred),
            decreases all@.len() - i,
        {
            let p = all[i];
            proof {
                let s = all@.take(i + 1);
                assert(s.drop_last() =~= all@.take(i as int));
                assert(s.last() == p);
                reveal_with_fuel(Seq::<_>::filter, 1);
                assert(s.filter(pred) == if pred(p) {
                    all@.take(i as int).filter(pred).push(p)
                } else {
                    all@.take(i as int).filter(pred)
                });
            }
            if p.is_available() {
                res.push(p);
            }
            i = i + 1;
        }
        assert(all@.take(all@.len() as int) =~= all@);
        res
    }

    pub fn contains(self, pin: Pin) -> (r: bool)
        ensures
            r == spec_target_contains(self, pin),
    {
        match self {
            PinTarget::Pin(target) => {
                let r = target.index() == pin.index();
                proof {
                    Pin::lemma_idx_determines(target, pin);
                }
                r
            },
            PinTarget::Bank(port) => pin.port() == port,
            PinTarget::All => true,
        }
    }

    /// Parses `ALL`, a `PIOx` port token or a `Pxnn` pin token.
    pub fn parse_token(token: &[u8]) -> (res: Result<Self, ParseTokenError>)
        ensures
            res matches Ok(t) ==> spec_parse_target(token@) == Some(t),
            res is Err ==> spec_parse_target(token@) is None,
    {
        if token.len() == 3 && token[0] == 0x41 && token[1] == 0x4c && token[2] == 0x4c {
            assert(token@ =~= seq![0x41u8, 0x4cu8, 0x4cu8]);
            Ok(PinTarget::All)
        } else {
            match Port::parse_token(token) {
                Ok(port) => Ok(PinTarget::Bank(port)),
                Err(_) => match Pin::parse_token(token) {
                    Ok(pin) => {
                        proof {
                            Pin::lemma_idx_determines(pin, Pin::spec_new(pin.idx()));
                        }
                        Ok(PinTarget::Pin(pin))
                    },
                    Err(e) => Err(e),
                },
            }
        }
    }

    /// The wire token of this target.
    pub fn to_token(self) -> (res: Vec<u8>)
        ensures
            res@ == spec_target_token(self),
    {
        match self {
            PinTarget::Pin(pin) => pin.to_token(),
            PinTarget::Bank(port) => port.to_token(),
            PinTarget::All => {
                let mut v: Vec<u8> = Vec::new();
                v.push(0x41);
                v.push(0x4c);
                v.push(0x4c);
                assert(v@ =~= seq![0x41u8, 0x4cu8, 0x4cu8]);
                v
            },
        }
    }
}

/// Each wire pin is `bit` of exactly one port: splitting a pin into its port and
/// bit and joining them again gives the pin back, and a port and bit that name a
/// pin are that pin's port and bit.
pub proof fn lemma_port_bit_round_trip(index: u8, port: Port, bit: u8)
    ensures
        index < 117 ==> spec_pin_at(
            spec_port_of(index),
            (index - spec_first_index(spec_port_of(index))) as u8,
        ) == Some(index),
        spec_pin_at(port, bit) == Some(index) ==> spec_port_of(index) == port && bit == index
            - spec_first_index(port) && index < 117,
{
}

/// The token printed for a pin parses back to that pin.
pub proof fn lemma_pin_token_round_trip(index: u8)
    requires
        index < 117,
    ensures
        spec_parse_pin(spec_pin_token(index)) == Some(index),
{
    let port = spec_port_of(index);
    let bit = (index - spec_first_index(port)) as u8;
    let t = spec_pin_token(index);
    assert(bit < 32);
    assert((bit / 10) * 10 + bit % 10 == bit);
    assert(spec_port_from_letter(spec_letter(port)) == Some(port));
    assert(((t[2] - 0x30) * 10 + (t[3] - 0x30)) as u8 == bit);
}

/// A pin token that parses is the token printed for the pin it names.
pub proof fn lemma_pin_token_canonical(t: Seq<u8>)
    requires
        spec_parse_pin(t) is Some,
    ensures
        spec_pin_token(spec_parse_pin(t).unwrap()) =~= t,
{
    let port = spec_port_from_letter(t[1]).unwrap();
    let bit = ((t[2] - 0x30) * 10 + (t[3] - 0x30)) as u8;
    let index = spec_parse_pin(t).unwrap();
    assert(spec_letter(port) == t[1]);
    assert(spec_port_of(index) == port);
    assert(bit / 10 == t[2] - 0x30);
    assert(bit % 10 == t[3] - 0x30);
}

/// The token printed for a target parses back to that target.
pub proof fn lemma_target_token_round_trip(target: PinTarget)
    requires
        target matches PinTarget::Pin(p) ==> p.idx() < 117,
    ensures
        spec_parse_target(spec_target_token(target)) == Some(target),
{
    let t = spec_target_token(target);
    match target {
        PinTarget::Pin(p) => {
            lemma_pin_token_round_trip(p.idx());
            assert(t != seq![0x41u8, 0x4cu8, 0x4cu8]);
            assert(Pin::spec_new(p.idx()) == p);
        },
        PinTarget::Bank(port) => {
            assert(t != seq![0x41u8, 0x4cu8, 0x4cu8]);
        },
        PinTarget::All => {},
    }
}

/// A target token that parses is the token printed for the target it names.
pub proof fn lemma_target_token_canonical(t: Seq<u8>)
    requires
        spec_parse_target(t) is Some,
    ensures
        spec_target_token(spec_parse_target(t).unwrap()) =~= t,
{
    if t == seq![0x41u8, 0x4cu8, 0x4cu8] {
    } else if spec_parse_port(t) is Some {
        assert(spec_port_token(spec_parse_port(t).unwrap()) =~= t);
    } else {
        lemma_pin_token_canonical(t);
    }
}

/// Every target token is a well-formed target token on the wire.
pub proof fn lemma_target_token_valid(target: PinTarget)
    requires
        target matches PinTarget::Pin(p) ==> p.idx() < 117,
    ensures
        crate::ascii::spec_valid_target_token(spec_target_token(target)),
{
    let t = spec_target_token(target);
    if let PinTarget::Pin(p) = target {
        let bit = (p.idx() - spec_first_index(spec_port_of(p.idx()))) as u8;
        assert(bit < 32);
    }
    assert forall|i: int| 0 <= i < t.len() implies crate::ascii::spec_is_target_byte(#[trigger] t[i]) by {
    }
}

/// One value per wire pin, indexed by `Pin`.
#[derive(Clone, Copy, Debug, PartialEq, Eq)]
pub struct PinTable<T>([T; 117]);

impl<T> View for PinTable<T> {
    type V = Seq<T>;

    closed spec fn view(&self) -> Seq<T> {
        self.0@
    }
}

impl<T: Copy> PinTable<T> {
    /// A table holding `value` for every pin.
    pub fn filled(value: T) -> (table: Self)
        ensures
            table@ == Seq::new(117, |i: int| value),
    {
        let table = PinTable([value; 117]);
        assert(table@ =~= Seq::new(117, |i: int| value));
        table
    }

    /// Stores `value` for every pin.
    pub fn fill(&mut self, value: T)
        ensures
            final(self)@ == Seq::new(117, |i: int| value),
    {
        let mut i: usize = 0;
        while i < 117
            invariant
                i <= 117,
                self@.len() == 117,
                forall|j: int| 0 <= j < i ==> self@[j] == value,
            decreases 117 - i,
        {
            self.0[i] = value;
            i = i + 1;
        }
        assert(self@ =~= Seq::new(117, |i: int| value));
    }
}

impl<T> PinTable<T> {
    pub broadcast proof fn lemma_len(table: PinTable<T>)
        ensures
            #[trigger] table@.len() == 117,
    {
    }

    /// The value stored for `pin`.
    pub fn get(&self, pin: Pin) -> (r: &T)
        ensures
            *r == self@[pin.idx() as int],
    {
        &self.0[pin.index() as usize]
    }

    /// Replaces the value stored for `pin`.
    pub fn set(&mut self, pin: Pin, value: T)
        ensures
            final(self)@ == old(self)@.update(pin.idx() as int, value),
    {
        self.0[pin.index() as usize] = value;
    }

    /// The stored values in wire order, as a slice.
    pub fn as_slice(&self) -> (r: &[T])
        ensures
            r@ == self@,
    {
        self.0.as_slice()
    }

    /// An iterator over the stored values in wire order.
    pub fn iter(&self) -> (it: core::slice::Iter<'_, T>)
        ensures
            vstd::std_specs::slice::into_iter_elts(it) == self@,
    {
        let s = self.as_slice();
        let it = s.iter();
        proof {
            broadcast use vstd::std_specs::slice::axiom_spec_slice_iter;
            assert(vstd::std_specs::iter::IteratorSpec::remaining(&it) == s@.as_ref());
        }
        it
    }
}

#[verifier::external_type_specification]
#[verifier::external_body]
#[verifier::reject_recursive_types(T)]
pub struct ExSliceIterMut<'a, T: 'a>(core::slice::IterMut<'a, T>);

impl<T> PinTable<T> {
    /// An iterator over the stored values in wire order that can change them.
    /// This calls `<[T]>::iter_mut`; what the caller writes through it is not
    /// tracked by the table's view.
    #[verifier::external_body]
    pub fn iter_mut(&mut self) -> core::slice::IterMut<'_, T> {
        self.0.iter_mut()
    }
}

impl<T> vstd::std_specs::core::IndexSpecImpl<Pin> for PinTable<T> {
    /// Every pin indexes the table.
    open spec fn index_req(&self, index: &Pin) -> bool {
        true
    }
}

impl<T> core::ops::Index<Pin> for PinTable<T> {
    type Output = T;

    fn index(&self, pin: Pin) -> (r: &T)
        ensures
            *r == self@[pin.idx() as int],
    {
        self.get(pin)
    }
}

} // verus!
