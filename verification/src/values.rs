use vstd::prelude::*;

use crate::ascii::{bytes_eq, ASCII_0};
use crate::pins::ParseTokenError;
use crate::words::{
    WORD_DIR, WORD_HIGH, WORD_IN, WORD_LOW, WORD_LSN, WORD_OFF, WORD_ON, WORD_OUT, WORD_PLL,
};

verus! {

/// Pin direction.
#[derive(Clone, Copy, Debug, PartialEq, Eq, Structural)]
pub enum Direction {
    Input,
    Output,
}

/// Logic level of a pin.
#[derive(Clone, Copy, Debug, PartialEq, Eq, Structural)]
pub enum Level {
    Low,
    High,
}

/// Which per-pin setting a `WYD` request asks about.
#[derive(Clone, Copy, Debug, PartialEq, Eq, Structural)]
pub enum Query {
    Direction,
    Pullup,
    Listen,
}

/// Answer to a `WYD` request.
#[derive(Clone, Copy, Debug, PartialEq, Eq, Structural)]
pub enum QueryValue {
    Unset,
    Direction(Direction),
    Enabled(bool),
}

/// Why a device refused a request about one pin.
#[derive(Clone, Copy, Debug, PartialEq, Eq, Structural)]
pub enum TargetError {
    Unset,
    Unavailable,
}

pub open spec fn spec_direction_word(d: Direction) -> Seq<u8> {
    match d {
        Direction::Input => WORD_IN@,
        Direction::Output => WORD_OUT@,
    }
}

pub open spec fn spec_parse_direction(t: Seq<u8>) -> Option<Direction> {
    if t == WORD_IN@ {
        Some(Direction::Input)
    } else if t == WORD_OUT@ {
        Some(Direction::Output)
    } else {
        None
    }
}

pub open spec fn spec_level_word(l: Level) -> Seq<u8> {
    match l {
        Level::Low => WORD_LOW@,
        Level::High => WORD_HIGH@,
    }
}

pub open spec fn spec_parse_level(t: Seq<u8>) -> Option<Level> {
    if t == WORD_LOW@ {
        Some(Level::Low)
    } else if t == WORD_HIGH@ {
        Some(Level::High)
    } else {
        None
    }
}

pub open spec fn spec_query_word(q: Query) -> Seq<u8> {
    match q {
        Query::Direction => WORD_DIR@,
        Query::Pullup => WORD_PLL@,
        Query::Listen => WORD_LSN@,
    }
}

pub open spec fn spec_parse_query(t: Seq<u8>) -> Option<Query> {
    if t == WORD_DIR@ {
        Some(Query::Direction)
    } else if t == WORD_PLL@ {
        Some(Query::Pullup)
    } else if t == WORD_LSN@ {
        Some(Query::Listen)
    } else {
        None
    }
}

pub open spec fn spec_enabled_word(enabled: bool) -> Seq<u8> {
    if enabled {
        WORD_ON@
    } else {
        WORD_OFF@
    }
}

pub open spec fn spec_parse_enabled(t: Seq<u8>) -> Option<bool> {
    if t == WORD_ON@ {
        Some(true)
    } else if t == WORD_OFF@ {
        Some(false)
    } else {
        None
    }
}

impl Direction {
    /// Parses `IN` or `OUT`.
    pub fn parse_token(token: &[u8]) -> (res: Result<Self, ParseTokenError>)
        ensures
            res matches Ok(d) ==> spec_parse_direction(token@) == Some(d),
            res is Err ==> spec_parse_direction(token@) is None,
    {
        if bytes_eq(token, WORD_IN.as_slice()) {
            Ok(Direction::Input)
        } else if bytes_eq(token, WORD_OUT.as_slice()) {
            Ok(Direction::Output)
        } else {
            Err(ParseTokenError)
        }
    }
}

impl Level {
    /// Parses `LOW` or `HIGH`.
    pub fn parse_token(token: &[u8]) -> (res: Result<Self, ParseTokenError>)
        ensures
            res matches Ok(l) ==> spec_parse_level(token@) == Some(l),
            res is Err ==> spec_parse_level(token@) is None,
    {
        if bytes_eq(token, WORD_LOW.as_slice()) {
            Ok(Level::Low)
        } else if bytes_eq(token, WORD_HIGH.as_slice()) {
            Ok(Level::High)
        } else {
            Err(ParseTokenError)
        }
    }
}

impl Query {
    /// Parses `DIR`, `PLL` or `LSN`.
    pub fn parse_token(token: &[u8]) -> (res: Result<Self, ParseTokenError>)
        ensures
            res matches Ok(q) ==> spec_parse_query(token@) == Some(q),
            res is Err ==> spec_parse_query(token@) is None,
    {
        if bytes_eq(token, WORD_DIR.as_slice()) {
            Ok(Query::Direction)
        } else if bytes_eq(token, WORD_PLL.as_slice()) {
            Ok(Query::Pullup)
        } else if bytes_eq(token, WORD_LSN.as_slice()) {
            Ok(Query::Listen)
        } else {
            Err(ParseTokenError)
        }
    }
}

/// Parses `ON` or `OFF`.
pub fn parse_enabled(token: &[u8]) -> (res: Option<bool>)
    ensures
        res == spec_parse_enabled(token@),
{
    if bytes_eq(token, WORD_ON.as_slice()) {
        Some(true)
    } else if bytes_eq(token, WORD_OFF.as_slice()) {
        Some(false)
    } else {
        None
    }
}

/// What a pin can do: bit 0 input, bit 1 output, bit 2 pull-up.
#[derive(Clone, Copy, Debug, PartialEq, Eq, Structural)]
pub struct PinCapabilities(u8);

pub open spec fn spec_caps_input(bits: u8) -> bool {
    bits & 1 != 0
}

pub open spec fn spec_caps_output(bits: u8) -> bool {
    bits & 2 != 0
}

pub open spec fn spec_caps_pull_up(bits: u8) -> bool {
    bits & 4 != 0
}

/// The bits that encode the three capabilities.
pub open spec fn spec_caps_bits(input: bool, output: bool, pull_up: bool) -> u8 {
    ((if input { 1u8 } else { 0u8 }) | (if output { 2u8 } else { 0u8 }) | (if pull_up {
        4u8
    } else {
        0u8
    })) as u8
}

/// The capability digit token, `0`..`7`.
pub open spec fn spec_parse_caps(t: Seq<u8>) -> Option<u8> {
    if t.len() == 1 && 0x30 <= t[0] <= 0x37 {
        Some((t[0] - 0x30) as u8)
    } else {
        None
    }
}

impl PinCapabilities {
    #[verifier::type_invariant]
    closed spec fn in_range(self) -> bool {
        self.0 <= 7
    }

    /// The capability bits.
    pub closed spec fn spec_bits(self) -> u8 {
        self.0
    }

    pub closed spec fn spec_from_bits(bits: u8) -> PinCapabilities {
        PinCapabilities(bits)
    }

    pub broadcast proof fn lemma_spec_from_bits(bits: u8)
        ensures
            #[trigger] PinCapabilities::spec_from_bits(bits).spec_bits() == bits,
    {
    }

    /// Capabilities with the same bits are the same capabilities.
    pub broadcast proof fn lemma_bits_determine(a: PinCapabilities, b: PinCapabilities)
        ensures
            #[trigger] a.spec_bits() == #[trigger] b.spec_bits() ==> a == b,
    {
    }

    /// No capability: the pin is reserved.
    #[allow(non_snake_case)]
    pub fn NONE() -> (c: Self)
        ensures
            c.spec_bits() == 0,
    {
        PinCapabilities(0)
    }

    /// Input only.
    #[allow(non_snake_case)]
    pub fn INPUT() -> (c: Self)
        ensures
            c.spec_bits() == 1,
    {
        PinCapabilities(1)
    }

    /// Input with optional pull-up.
    #[allow(non_snake_case)]
    pub fn INPUT_PULLUP() -> (c: Self)
        ensures
            c.spec_bits() == 5,
    {
        PinCapabilities(5)
    }

    /// Input, output and pull-up.
    #[allow(non_snake_case)]
    pub fn GPIO() -> (c: Self)
        ensures
            c.spec_bits() == 7,
    {
        PinCapabilities(7)
    }

    pub fn new(input: bool, output: bool, pull_up: bool) -> (c: Self)
        ensures
            c.spec_bits() == spec_caps_bits(input, output, pull_up),
    {
        let bits: u8 = (if input { 1u8 } else { 0u8 }) | (if output { 2u8 } else { 0u8 }) | (if pull_up {
            4u8
        } else {
            0u8
        });
        assert(bits <= 7) by (bit_vector)
            requires
                bits == (if input { 1u8 } else { 0u8 }) | (if output { 2u8 } else { 0u8 }) | (
                if pull_up {
                    4u8
                } else {
                    0u8
                }),
        ;
        PinCapabilities(bits)
    }

    pub fn from_bits(bits: u8) -> (res: Option<Self>)
        ensures
            res is Some <==> bits <= 7,
            res matches Some(c) ==> c.spec_bits() == bits,
    {
        if bits <= 7 {
            Some(PinCapabilities(bits))
        } else {
            None
        }
    }

    pub fn bits(self) -> (r: u8)
        ensures
            r == self.spec_bits(),
            r <= 7,
    {
        proof {
            use_type_invariant(self);
        }
        self.0
    }

    pub fn available(self) -> (r: bool)
        ensures
            r == (self.spec_bits() != 0),
    {
        self.0 != 0
    }

    pub fn input(self) -> (r: bool)
        ensures
            r == spec_caps_input(self.spec_bits()),
    {
        self.0 & 1 != 0
    }

    pub fn output(self) -> (r: bool)
        ensures
            r == spec_caps_output(self.spec_bits()),
    {
        self.0 & 2 != 0
    }

    pub fn pull_up(self) -> (r: bool)
        ensures
            r == spec_caps_pull_up(self.spec_bits()),
    {
        self.0 & 4 != 0
    }

    pub fn supports_direction(self, direction: Direction) -> (r: bool)
        ensures
            r == match direction {
                Direction::Input => spec_caps_input(self.spec_bits()),
                Direction::Output => spec_caps_output(self.spec_bits()),
            },
    {
        match direction {
            Direction::Input => self.input(),
            Direction::Output => self.output(),
        }
    }

    /// Parses a single capability digit `0`..`7`.
    pub fn parse_token(token: &[u8]) -> (res: Result<Self, ParseTokenError>)
        ensures
            res matches Ok(c) ==> spec_parse_caps(token@) == Some(c.spec_bits()),
            res is Err ==> spec_parse_caps(token@) is None,
    {
        if token.len() != 1 {
            return Err(ParseTokenError);
        }
        let digit = token[0];
        if 0x30 <= digit && digit <= 0x37 {
            Ok(PinCapabilities(digit - ASCII_0))
        } else {
            Err(ParseTokenError)
        }
    }
}

/// Building capabilities from flags and reading the flags back gives the same
/// flags, and the bits never exceed 7.
pub proof fn lemma_caps_flags_round_trip(input: bool, output: bool, pull_up: bool)
    ensures
        spec_caps_input(spec_caps_bits(input, output, pull_up)) == input,
        spec_caps_output(spec_caps_bits(input, output, pull_up)) == output,
        spec_caps_pull_up(spec_caps_bits(input, output, pull_up)) == pull_up,
        spec_caps_bits(input, output, pull_up) <= 7,
{
    let i: u8 = if input { 1u8 } else { 0u8 };
    let o: u8 = if output { 2u8 } else { 0u8 };
    let p: u8 = if pull_up { 4u8 } else { 0u8 };
    assert(((i | o | p) & 1 != 0) == (i == 1) && ((i | o | p) & 2 != 0) == (o == 2) && ((i | o
        | p) & 4 != 0) == (p == 4) && (i | o | p) <= 7) by (bit_vector)
        requires
            i == 0 || i == 1,
            o == 0 || o == 2,
            p == 0 || p == 4,
    ;
}

} // verus!
