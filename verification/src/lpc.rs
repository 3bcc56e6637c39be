use vstd::prelude::*;
use vstd::string::StringSliceAdditionalSpecFns;

use crate::gpio::{map_wf, BankId, BankInfo, Capabilities, PinId, PinInfo, PinMap, PinMapView};

verus! {

/// The GPIO ports of the LPC1115.
#[derive(Clone, Copy, Debug, PartialEq, Eq, Structural)]
pub enum LpcBank {
    Pio0,
    Pio1,
    Pio2,
    Pio3,
}

/// The bank position of each port.
pub open spec fn spec_bank_index(bank: LpcBank) -> u8 {
    match bank {
        LpcBank::Pio0 => 0,
        LpcBank::Pio1 => 1,
        LpcBank::Pio2 => 2,
        LpcBank::Pio3 => 3,
    }
}

impl LpcBank {
    /// The bank of the pin map this port is.
    pub fn id(self) -> (id: BankId)
        ensures
            id.spec_index() == spec_bank_index(self),
    {
        BankId::new(
            match self {
                LpcBank::Pio0 => 0,
                LpcBank::Pio1 => 1,
                LpcBank::Pio2 => 2,
                LpcBank::Pio3 => 3,
            },
        )
    }

    /// The port a bank of the pin map is, if it is one.
    pub fn from_id(id: BankId) -> (res: Option<Self>)
        ensures
            match res {
                Some(bank) => spec_bank_index(bank) == id.spec_index(),
                None => id.spec_index() > 3,
            },
    {
        match id.index() {
            0 => Some(LpcBank::Pio0),
            1 => Some(LpcBank::Pio1),
            2 => Some(LpcBank::Pio2),
            3 => Some(LpcBank::Pio3),
            _ => None,
        }
    }
}

/// The electrical kind of an LPC1115 pad.
#[derive(Clone, Copy, Debug, PartialEq, Eq, Structural)]
pub enum LpcPadKind {
    Standard,
    Analog,
    I2cOpenDrain,
}

/// How a pin of the map is wired on the LPC1115: its port and bit, its IOCON
/// register offset, the function number that makes it a GPIO, and its pad.
#[derive(Clone, Copy, Debug, PartialEq, Eq, Structural)]
pub struct LpcPinHw {
    bank: LpcBank,
    bit: u8,
    iocon_offset: u8,
    gpio_function: u8,
    pad_kind: LpcPadKind,
}

impl LpcPinHw {
    pub closed spec fn spec_bank(self) -> LpcBank {
        self.bank
    }

    pub closed spec fn spec_bit(self) -> u8 {
        self.bit
    }

    pub closed spec fn spec_iocon_offset(self) -> u8 {
        self.iocon_offset
    }

    pub closed spec fn spec_gpio_function(self) -> u8 {
        self.gpio_function
    }

    pub closed spec fn spec_pad_kind(self) -> LpcPadKind {
        self.pad_kind
    }

    pub fn bank(self) -> (r: LpcBank)
        ensures
            r == self.spec_bank(),
    {
        self.bank
    }

    pub fn bit(self) -> (r: u8)
        ensures
            r == self.spec_bit(),
    {
        self.bit
    }

    pub fn iocon_offset(self) -> (r: u8)
        ensures
            r == self.spec_iocon_offset(),
    {
        self.iocon_offset
    }

    pub fn gpio_function(self) -> (r: u8)
        ensures
            r == self.spec_gpio_function(),
    {
        self.gpio_function
    }

    pub fn pad_kind(self) -> (r: LpcPadKind)
        ensures
            r == self.spec_pad_kind(),
    {
        self.pad_kind
    }
}

/// The identity the LPC1115 firmware answers `HRU` with.
pub fn lpc_identity() -> (r: &'static [u8])
    ensures
        r@ == "LPC1115 GPIO".spec_bytes(),
{
    "LPC1115 GPIO".as_bytes()
}

/// One row of the LPC1115 pin table: token, package pin, port, bit, IOCON
/// register offset, GPIO function number, pad kind and capability bits.
pub type LpcRow = (&'static str, u16, LpcBank, u8, u8, u8, LpcPadKind, u8);

/// The pin table of the 48-pin LPC1115 package, in map order.
pub closed spec fn lpc_rows() -> Seq<LpcRow> {
    seq![
        ("PIO0_0", 3, LpcBank::Pio0, 0, 0x0c, 0, LpcPadKind::Standard, 0),
        ("PIO0_1", 4, LpcBank::Pio0, 1, 0x10, 0, LpcPadKind::Standard, 1),
        ("PIO0_2", 10, LpcBank::Pio0, 2, 0x1c, 0, LpcPadKind::Standard, 1),
        ("PIO0_3", 14, LpcBank::Pio0, 3, 0x2c, 0, LpcPadKind::Standard, 1),
        ("PIO0_4", 15, LpcBank::Pio0, 4, 0x30, 0, LpcPadKind::I2cOpenDrain, 1),
        ("PIO0_5", 16, LpcBank::Pio0, 5, 0x34, 0, LpcPadKind::I2cOpenDrain, 1),
        ("PIO0_6", 22, LpcBank::Pio0, 6, 0x4c, 0, LpcPadKind::Standard, 1),
        ("PIO0_7", 23, LpcBank::Pio0, 7, 0x50, 0, LpcPadKind::Standard, 1),
        ("PIO0_8", 27, LpcBank::Pio0, 8, 0x60, 0, LpcPadKind::Standard, 1),
        ("PIO0_9", 28, LpcBank::Pio0, 9, 0x64, 0, LpcPadKind::Standard, 1),
        ("PIO0_10", 29, LpcBank::Pio0, 10, 0x68, 0, LpcPadKind::Standard, 0),
        ("PIO0_11", 32, LpcBank::Pio0, 11, 0x74, 1, LpcPadKind::Analog, 1),
        ("PIO1_0", 33, LpcBank::Pio1, 0, 0x78, 1, LpcPadKind::Analog, 1),
        ("PIO1_1", 34, LpcBank::Pio1, 1, 0x7c, 1, LpcPadKind::Analog, 1),
        ("PIO1_2", 35, LpcBank::Pio1, 2, 0x80, 1, LpcPadKind::Analog, 1),
        ("PIO1_3", 39, LpcBank::Pio1, 3, 0x90, 0, LpcPadKind::Analog, 0),
        ("PIO1_4", 40, LpcBank::Pio1, 4, 0x94, 0, LpcPadKind::Analog, 1),
        ("PIO1_5", 45, LpcBank::Pio1, 5, 0xa0, 0, LpcPadKind::Standard, 1),
        ("PIO1_6", 46, LpcBank::Pio1, 6, 0xa4, 0, LpcPadKind::Standard, 0),
        ("PIO1_7", 47, LpcBank::Pio1, 7, 0xa8, 0, LpcPadKind::Standard, 0),
        ("PIO1_8", 9, LpcBank::Pio1, 8, 0x14, 0, LpcPadKind::Standard, 1),
        ("PIO1_9", 17, LpcBank::Pio1, 9, 0x38, 0, LpcPadKind::Standard, 1),
        ("PIO1_10", 30, LpcBank::Pio1, 10, 0x6c, 0, LpcPadKind::Analog, 1),
        ("PIO1_11", 42, LpcBank::Pio1, 11, 0x98, 0, LpcPadKind::Analog, 1),
        ("PIO2_0", 2, LpcBank::Pio2, 0, 0x08, 0, LpcPadKind::Standard, 1),
        ("PIO2_1", 13, LpcBank::Pio2, 1, 0x28, 0, LpcPadKind::Standard, 1),
        ("PIO2_2", 26, LpcBank::Pio2, 2, 0x5c, 0, LpcPadKind::Standard, 1),
        ("PIO2_3", 38, LpcBank::Pio2, 3, 0x8c, 0, LpcPadKind::Standard, 1),
        ("PIO2_4", 19, LpcBank::Pio2, 4, 0x40, 0, LpcPadKind::Standard, 1),
        ("PIO2_5", 20, LpcBank::Pio2, 5, 0x44, 0, LpcPadKind::Standard, 1),
        ("PIO2_6", 1, LpcBank::Pio2, 6, 0x00, 0, LpcPadKind::Standard, 1),
        ("PIO2_7", 11, LpcBank::Pio2, 7, 0x20, 0, LpcPadKind::Standard, 1),
        ("PIO2_8", 12, LpcBank::Pio2, 8, 0x24, 0, LpcPadKind::Standard, 1),
        ("PIO2_9", 24, LpcBank::Pio2, 9, 0x54, 0, LpcPadKind::Standard, 1),
        ("PIO2_10", 25, LpcBank::Pio2, 10, 0x58, 0, LpcPadKind::Standard, 1),
        ("PIO2_11", 31, LpcBank::Pio2, 11, 0x70, 0, LpcPadKind::Standard, 1),
        ("PIO3_0", 36, LpcBank::Pio3, 0, 0x84, 0, LpcPadKind::Standard, 1),
        ("PIO3_1", 37, LpcBank::Pio3, 1, 0x88, 0, LpcPadKind::Standard, 1),
        ("PIO3_2", 43, LpcBank::Pio3, 2, 0x9c, 0, LpcPadKind::Standard, 1),
        ("PIO3_3", 48, LpcBank::Pio3, 3, 0xac, 0, LpcPadKind::Standard, 1),
        ("PIO3_4", 18, LpcBank::Pio3, 4, 0x3c, 0, LpcPadKind::Standard, 1),
        ("PIO3_5", 21, LpcBank::Pio3, 5, 0x48, 0, LpcPadKind::Standard, 1)
    ]
}

/// A map entry describes a row of the table.
pub open spec fn pin_matches(pin: PinInfo, row: LpcRow) -> bool {
    &&& pin.token == row.0
    &&& pin.package_pin == Some(row.1)
    &&& pin.bank.spec_index() == spec_bank_index(row.2)
    &&& pin.bit == row.3
    &&& pin.capabilities.spec_bits() == row.7
}

/// A pin's wiring is that of a row of the table.
pub open spec fn hw_matches(hw: LpcPinHw, row: LpcRow) -> bool {
    &&& hw.spec_bank() == row.2
    &&& hw.spec_bit() == row.3
    &&& hw.spec_iocon_offset() == row.4
    &&& hw.spec_gpio_function() == row.5
    &&& hw.spec_pad_kind() == row.6
}

/// The row of the table that sits on package pin `p`, or -1 for none.
spec fn package_row(p: u16) -> int {
    match p {
        3 => 0,
        4 => 1,
        10 => 2,
        14 => 3,
        15 => 4,
        16 => 5,
        22 => 6,
        23 => 7,
        27 => 8,
        28 => 9,
        29 => 10,
        32 => 11,
        33 => 12,
        34 => 13,
        35 => 14,
        39 => 15,
        40 => 16,
        45 => 17,
        46 => 18,
        47 => 19,
        9 => 20,
        17 => 21,
        30 => 22,
        42 => 23,
        2 => 24,
        13 => 25,
        26 => 26,
        38 => 27,
        19 => 28,
        20 => 29,
        1 => 30,
        11 => 31,
        12 => 32,
        24 => 33,
        25 => 34,
        31 => 35,
        36 => 36,
        37 => 37,
        43 => 38,
        48 => 39,
        18 => 40,
        21 => 41,
        _ => -1,
    }
}

/// Row `i` of the table sits at a bit below 12 of its port, on a package
/// pin from 1 to 48 that belongs to no other row, and is either reserved or
/// a plain input.
proof fn lemma_lpc_row(i: int)
    requires
        0 <= i < 42,
    ensures
        lpc_rows()[i].3 < 12,
        1 <= lpc_rows()[i].1 <= 48,
        lpc_rows()[i].7 == 0 || lpc_rows()[i].7 == 1,
        lpc_rows()[i].5 <= 1,
        package_row(lpc_rows()[i].1) == i,
{
    if i == 0 {
    } else if i == 1 {
    } else if i == 2 {
    } else if i == 3 {
    } else if i == 4 {
    } else if i == 5 {
    } else if i == 6 {
    } else if i == 7 {
    } else if i == 8 {
    } else if i == 9 {
    } else if i == 10 {
    } else if i == 11 {
    } else if i == 12 {
    } else if i == 13 {
    } else if i == 14 {
    } else if i == 15 {
    } else if i == 16 {
    } else if i == 17 {
    } else if i == 18 {
    } else if i == 19 {
    } else if i == 20 {
    } else if i == 21 {
    } else if i == 22 {
    } else if i == 23 {
    } else if i == 24 {
    } else if i == 25 {
    } else if i == 26 {
    } else if i == 27 {
    } else if i == 28 {
    } else if i == 29 {
    } else if i == 30 {
    } else if i == 31 {
    } else if i == 32 {
    } else if i == 33 {
    } else if i == 34 {
    } else if i == 35 {
    } else if i == 36 {
    } else if i == 37 {
    } else if i == 38 {
    } else if i == 39 {
    } else if i == 40 {
    } else if i == 41 {
    }
}

/// The table covers the package conservatively: forty-two pins, each at a
/// bit below 12 of its port and on a package pin from 1 to 48 that no other
/// pin of the table uses, each either reserved or a plain input, each made a
/// GPIO by function 0 or 1.
pub proof fn lemma_lpc_rows()
    ensures
        lpc_rows().len() == 42,
        forall|i: int|
            0 <= i < 42 ==> {
                let row = #[trigger] lpc_rows()[i];
                &&& row.3 < 12
                &&& 1 <= row.1 <= 48
                &&& row.7 == 0 || row.7 == 1
                &&& row.5 <= 1
            },
        forall|i: int, j: int| 0 <= i < j < 42 ==> (#[trigger] lpc_rows()[i]).1 != (#[trigger] lpc_rows()[j]).1,
{
    assert forall|i: int| 0 <= i < 42 implies {
        let row = #[trigger] lpc_rows()[i];
        &&& row.3 < 12
        &&& 1 <= row.1 <= 48
        &&& row.7 == 0 || row.7 == 1
        &&& row.5 <= 1
    } by {
        lemma_lpc_row(i);
    }
    assert forall|i: int, j: int| 0 <= i < j < 42 implies (#[trigger] lpc_rows()[i]).1 != (#[trigger] lpc_rows()[j]).1 by {
        lemma_lpc_row(i);
        lemma_lpc_row(j);
    }
}

/// Appends the next row of the table: its map entry and its wiring.
fn push_pin(
    pins: &mut Vec<PinInfo>,
    hw: &mut Vec<LpcPinHw>,
    token: &'static str,
    package: u16,
    bank: LpcBank,
    bit: u8,
    iocon_offset: u8,
    gpio_function: u8,
    pad_kind: LpcPadKind,
    capabilities: Capabilities,
)
    requires
        old(pins)@.len() == old(hw)@.len(),
        old(pins)@.len() < 42,
        lpc_rows()[old(pins)@.len() as int] == (
            token,
            package,
            bank,
            bit,
            iocon_offset,
            gpio_function,
            pad_kind,
            capabilities.spec_bits(),
        ),
        forall|i: int|
            0 <= i < old(pins)@.len() ==> pin_matches(old(pins)@[i], #[trigger] lpc_rows()[i]) && hw_matches(
                old(hw)@[i],
                lpc_rows()[i],
            ),
    ensures
        final(pins)@.len() == old(pins)@.len() + 1,
        final(hw)@.len() == final(pins)@.len(),
        forall|i: int|
            0 <= i < final(pins)@.len() ==> pin_matches(final(pins)@[i], #[trigger] lpc_rows()[i]) && hw_matches(
                final(hw)@[i],
                lpc_rows()[i],
            ),
{
    pins.push(PinInfo::new(token, Some(package), bank.id(), bit, capabilities));
    hw.push(LpcPinHw { bank, bit, iocon_offset, gpio_function, pad_kind });
    assert forall|i: int| 0 <= i < pins@.len() implies pin_matches(#[trigger] pins@[i], lpc_rows()[i])
        && hw_matches(hw@[i], lpc_rows()[i]) by {
        if i < old(pins)@.len() {
            assert(pins@[i] == old(pins)@[i]);
            assert(hw@[i] == old(hw)@[i]);
        }
    }
}

/// Appends the rows of port PIO0, rows 0 to 11 of the table.
#[verifier::rlimit(40)]
fn push_pio0(pins: &mut Vec<PinInfo>, hw: &mut Vec<LpcPinHw>)
    requires
        old(pins)@.len() == 0,
        old(hw)@.len() == 0,
        forall|i: int|
            0 <= i < 0 ==> pin_matches(old(pins)@[i], #[trigger] lpc_rows()[i]) && hw_matches(old(hw)@[i], lpc_rows()[i]),
    ensures
        final(pins)@.len() == 12,
        final(hw)@.len() == 12,
        forall|i: int|
            0 <= i < 12 ==> pin_matches(final(pins)@[i], #[trigger] lpc_rows()[i]) && hw_matches(final(hw)@[i], lpc_rows()[i]),
{
    push_pin(pins, hw, "PIO0_0", 3, LpcBank::Pio0, 0, 0x0c, 0, LpcPadKind::Standard, Capabilities::NONE());
    push_pin(pins, hw, "PIO0_1", 4, LpcBank::Pio0, 1, 0x10, 0, LpcPadKind::Standard, Capabilities::INPUT());
    push_pin(pins, hw, "PIO0_2", 10, LpcBank::Pio0, 2, 0x1c, 0, LpcPadKind::Standard, Capabilities::INPUT());
    push_pin(pins, hw, "PIO0_3", 14, LpcBank::Pio0, 3, 0x2c, 0, LpcPadKind::Standard, Capabilities::INPUT());
    push_pin(pins, hw, "PIO0_4", 15, LpcBank::Pio0, 4, 0x30, 0, LpcPadKind::I2cOpenDrain, Capabilities::INPUT());
    push_pin(pins, hw, "PIO0_5", 16, LpcBank::Pio0, 5, 0x34, 0, LpcPadKind::I2cOpenDrain, Capabilities::INPUT());
    push_pin(pins, hw, "PIO0_6", 22, LpcBank::Pio0, 6, 0x4c, 0, LpcPadKind::Standard, Capabilities::INPUT());
    push_pin(pins, hw, "PIO0_7", 23, LpcBank::Pio0, 7, 0x50, 0, LpcPadKind::Standard, Capabilities::INPUT());
    push_pin(pins, hw, "PIO0_8", 27, LpcBank::Pio0, 8, 0x60, 0, LpcPadKind::Standard, Capabilities::INPUT());
    push_pin(pins, hw, "PIO0_9", 28, LpcBank::Pio0, 9, 0x64, 0, LpcPadKind::Standard, Capabilities::INPUT());
    push_pin(pins, hw, "PIO0_10", 29, LpcBank::Pio0, 10, 0x68, 0, LpcPadKind::Standard, Capabilities::NONE());
    push_pin(pins, hw, "PIO0_11", 32, LpcBank::Pio0, 11, 0x74, 1, LpcPadKind::Analog, Capabilities::INPUT());
}

/// Appends the rows of port PIO1, rows 12 to 23 of the table.
#[verifier::rlimit(40)]
fn push_pio1(pins: &mut Vec<PinInfo>, hw: &mut Vec<LpcPinHw>)
    requires
        old(pins)@.len() == 12,
        old(hw)@.len() == 12,
        forall|i: int|
            0 <= i < 12 ==> pin_matches(old(pins)@[i], #[trigger] lpc_rows()[i]) && hw_matches(old(hw)@[i], lpc_rows()[i]),
    ensures
        final(pins)@.len() == 24,
        final(hw)@.len() == 24,
        forall|i: int|
            0 <= i < 24 ==> pin_matches(final(pins)@[i], #[trigger] lpc_rows()[i]) && hw_matches(final(hw)@[i], lpc_rows()[i]),
{
    push_pin(pins, hw, "PIO1_0", 33, LpcBank::Pio1, 0, 0x78, 1, LpcPadKind::Analog, Capabilities::INPUT());
    push_pin(pins, hw, "PIO1_1", 34, LpcBank::Pio1, 1, 0x7c, 1, LpcPadKind::Analog, Capabilities::INPUT());
    push_pin(pins, hw, "PIO1_2", 35, LpcBank::Pio1, 2, 0x80, 1, LpcPadKind::Analog, Capabilities::INPUT());
    push_pin(pins, hw, "PIO1_3", 39, LpcBank::Pio1, 3, 0x90, 0, LpcPadKind::Analog, Capabilities::NONE());
    push_pin(pins, hw, "PIO1_4", 40, LpcBank::Pio1, 4, 0x94, 0, LpcPadKind::Analog, Capabilities::INPUT());
    push_pin(pins, hw, "PIO1_5", 45, LpcBank::Pio1, 5, 0xa0, 0, LpcPadKind::Standard, Capabilities::INPUT());
    push_pin(pins, hw, "PIO1_6", 46, LpcBank::Pio1, 6, 0xa4, 0, LpcPadKind::Standard, Capabilities::NONE());
    push_pin(pins, hw, "PIO1_7", 47, LpcBank::Pio1, 7, 0xa8, 0, LpcPadKind::Standard, Capabilities::NONE());
    push_pin(pins, hw, "PIO1_8", 9, LpcBank::Pio1, 8, 0x14, 0, LpcPadKind::Standard, Capabilities::INPUT());
    push_pin(pins, hw, "PIO1_9", 17, LpcBank::Pio1, 9, 0x38, 0, LpcPadKind::Standard, Capabilities::INPUT());
    push_pin(pins, hw, "PIO1_10", 30, LpcBank::Pio1, 10, 0x6c, 0, LpcPadKind::Analog, Capabilities::INPUT());
    push_pin(pins, hw, "PIO1_11", 42, LpcBank::Pio1, 11, 0x98, 0, LpcPadKind::Analog, Capabilities::INPUT());
}

/// Appends the rows of port PIO2, rows 24 to 35 of the table.
#[verifier::rlimit(40)]
fn push_pio2(pins: &mut Vec<PinInfo>, hw: &mut Vec<LpcPinHw>)
    requires
        old(pins)@.len() == 24,
        old(hw)@.len() == 24,
        forall|i: int|
            0 <= i < 24 ==> pin_matches(old(pins)@[i], #[trigger] lpc_rows()[i]) && hw_matches(old(hw)@[i], lpc_rows()[i]),
    ensures
        final(pins)@.len() == 36,
        final(hw)@.len() == 36,
        forall|i: int|
            0 <= i < 36 ==> pin_matches(final(pins)@[i], #[trigger] lpc_rows()[i]) && hw_matches(final(hw)@[i], lpc_rows()[i]),
{
    push_pin(pins, hw, "PIO2_0", 2, LpcBank::Pio2, 0, 0x08, 0, LpcPadKind::Standard, Capabilities::INPUT());
    push_pin(pins, hw, "PIO2_1", 13, LpcBank::Pio2, 1, 0x28, 0, LpcPadKind::Standard, Capabilities::INPUT());
    push_pin(pins, hw, "PIO2_2", 26, LpcBank::Pio2, 2, 0x5c, 0, LpcPadKind::Standard, Capabilities::INPUT());
    push_pin(pins, hw, "PIO2_3", 38, LpcBank::Pio2, 3, 0x8c, 0, LpcPadKind::Standard, Capabilities::INPUT());
    push_pin(pins, hw, "PIO2_4", 19, LpcBank::Pio2, 4, 0x40, 0, LpcPadKind::Standard, Capabilities::INPUT());
    push_pin(pins, hw, "PIO2_5", 20, LpcBank::Pio2, 5, 0x44, 0, LpcPadKind::Standard, Capabilities::INPUT());
    push_pin(pins, hw, "PIO2_6", 1, LpcBank::Pio2, 6, 0x00, 0, LpcPadKind::Standard, Capabilities::INPUT());
    push_pin(pins, hw, "PIO2_7", 11, LpcBank::Pio2, 7, 0x20, 0, LpcPadKind::Standard, Capabilities::INPUT());
    push_pin(pins, hw, "PIO2_8", 12, LpcBank::Pio2, 8, 0x24, 0, LpcPadKind::Standard, Capabilities::INPUT());
    push_pin(pins, hw, "PIO2_9", 24, LpcBank::Pio2, 9, 0x54, 0, LpcPadKind::Standard, Capabilities::INPUT());
    push_pin(pins, hw, "PIO2_10", 25, LpcBank::Pio2, 10, 0x58, 0, LpcPadKind::Standard, Capabilities::INPUT());
    push_pin(pins, hw, "PIO2_11", 31, LpcBank::Pio2, 11, 0x70, 0, LpcPadKind::Standard, Capabilities::INPUT());
}

/// Appends the rows of port PIO3, rows 36 to 41 of the table.
#[verifier::rlimit(40)]
fn push_pio3(pins: &mut Vec<PinInfo>, hw: &mut Vec<LpcPinHw>)
    requires
        old(pins)@.len() == 36,
        old(hw)@.len() == 36,
        forall|i: int|
            0 <= i < 36 ==> pin_matches(old(pins)@[i], #[trigger] lpc_rows()[i]) && hw_matches(old(hw)@[i], lpc_rows()[i]),
    ensures
        final(pins)@.len() == 42,
        final(hw)@.len() == 42,
        forall|i: int|
            0 <= i < 42 ==> pin_matches(final(pins)@[i], #[trigger] lpc_rows()[i]) && hw_matches(final(hw)@[i], lpc_rows()[i]),
{
    push_pin(pins, hw, "PIO3_0", 36, LpcBank::Pio3, 0, 0x84, 0, LpcPadKind::Standard, Capabilities::INPUT());
    push_pin(pins, hw, "PIO3_1", 37, LpcBank::Pio3, 1, 0x88, 0, LpcPadKind::Standard, Capabilities::INPUT());
    push_pin(pins, hw, "PIO3_2", 43, LpcBank::Pio3, 2, 0x9c, 0, LpcPadKind::Standard, Capabilities::INPUT());
    push_pin(pins, hw, "PIO3_3", 48, LpcBank::Pio3, 3, 0xac, 0, LpcPadKind::Standard, Capabilities::INPUT());
    push_pin(pins, hw, "PIO3_4", 18, LpcBank::Pio3, 4, 0x3c, 0, LpcPadKind::Standard, Capabilities::INPUT());
    push_pin(pins, hw, "PIO3_5", 21, LpcBank::Pio3, 5, 0x48, 0, LpcPadKind::Standard, Capabilities::INPUT());
}

/// The LPC1115 pin table of the 48-pin package: the map entries and, in the
/// same order, their wiring.
fn lpc_tables() -> (res: (Vec<PinInfo>, Vec<LpcPinHw>))
    ensures
        res.0@.len() == 42,
        res.1@.len() == 42,
        forall|i: int| 0 <= i < 42 ==> pin_matches(res.0@[i], #[trigger] lpc_rows()[i]) && hw_matches(res.1@[i], lpc_rows()[i]),
{
    let mut pins: Vec<PinInfo> = Vec::new();
    let mut hw: Vec<LpcPinHw> = Vec::new();
    push_pio0(&mut pins, &mut hw);
    push_pio1(&mut pins, &mut hw);
    push_pio2(&mut pins, &mut hw);
    push_pio3(&mut pins, &mut hw);
    (pins, hw)
}

/// The banks of the LPC1115 map.
fn lpc_banks() -> (banks: Vec<BankInfo>)
    ensures
        banks@.len() == 4,
        banks@[0].token == "PIO0",
        banks@[1].token == "PIO1",
        banks@[2].token == "PIO2",
        banks@[3].token == "PIO3",
{
    let mut banks: Vec<BankInfo> = Vec::new();
    banks.push(BankInfo::new("PIO0"));
    banks.push(BankInfo::new("PIO1"));
    banks.push(BankInfo::new("PIO2"));
    banks.push(BankInfo::new("PIO3"));
    banks
}

/// The LPC1115 pin map: the four ports `PIO0` to `PIO3`, then the pins of
/// the table in order.
pub fn lpc_pin_map() -> (m: PinMap)
    ensures
        map_wf(m@),
        m@.banks.len() == 4,
        m@.banks[0].token == "PIO0",
        m@.banks[1].token == "PIO1",
        m@.banks[2].token == "PIO2",
        m@.banks[3].token == "PIO3",
        m@.pins.len() == 42,
        forall|i: int| 0 <= i < 42 ==> pin_matches(#[trigger] m@.pins[i], lpc_rows()[i]),
        forall|i: int|
            0 <= i < 42 ==> (#[trigger] m@.pins[i]).capabilities.spec_available() ==> m@.pins[i].capabilities.spec_input()
                && !m@.pins[i].capabilities.spec_output() && !m@.pins[i].capabilities.spec_pull_up(),
{
    let banks = lpc_banks();
    let (pins, _) = lpc_tables();
    proof {
        lemma_lpc_rows();
    }
    assert forall|i: int| 0 <= i < pins@.len() implies (#[trigger] pins@[i]).bank.spec_index() < banks@.len()
        && pins@[i].bit < 32 by {
        assert(pin_matches(pins@[i], lpc_rows()[i]));
    }
    assert((1u8 & 1 != 0) && (1u8 & 2 == 0) && (1u8 & 4 == 0)) by (bit_vector);
    assert forall|i: int| 0 <= i < 42 implies (#[trigger] pins@[i]).capabilities.spec_available()
        ==> pins@[i].capabilities.spec_input() && !pins@[i].capabilities.spec_output()
        && !pins@[i].capabilities.spec_pull_up() by {
        assert(pin_matches(pins@[i], lpc_rows()[i]));
    }
    PinMap::new(banks, pins)
}

/// How each pin of the LPC1115 map is wired, in the map's order: one entry
/// per pin of the map.
pub fn lpc_hw_table() -> (table: Vec<LpcPinHw>)
    ensures
        table@.len() == 42,
        forall|i: int| 0 <= i < 42 ==> hw_matches(#[trigger] table@[i], lpc_rows()[i]),
{
    let (_, table) = lpc_tables();
    table
}

/// How the pin at `pin` of the LPC1115 map is wired.
pub fn pin_hw(pin: PinId) -> (hw: LpcPinHw)
    requires
        pin.spec_index() < 42,
    ensures
        hw_matches(hw, lpc_rows()[pin.spec_index() as int]),
{
    let table = lpc_hw_table();
    table[pin.index()]
}

/// The IOCON register fields that make a pad a plain GPIO: an I2C pad has
/// function 0 and standard I2C mode; any other pad has its GPIO function and
/// a pull-up or no pull resistor, and an analog pad is switched to digital
/// mode. Every other bit keeps its value.
pub open spec fn iocon_gpio_fields(current: u32, next: u32, kind: LpcPadKind, function: u8, pull_up: bool) -> bool {
    match kind {
        LpcPadKind::I2cOpenDrain => {
            &&& next & 0x07 == 0
            &&& (next >> 8u32) & 0x03 == 1
            &&& next & !0x307u32 == current & !0x307u32
        },
        LpcPadKind::Standard => {
            &&& next & 0x07 == function as u32
            &&& (next >> 3u32) & 0x03 == if pull_up { 2u32 } else { 0u32 }
            &&& next & !0x1fu32 == current & !0x1fu32
        },
        LpcPadKind::Analog => {
            &&& next & 0x07 == function as u32
            &&& (next >> 3u32) & 0x03 == if pull_up { 2u32 } else { 0u32 }
            &&& next & 0x80 == 0x80
            &&& next & !0x9fu32 == current & !0x9fu32
        },
    }
}

/// The IOCON register value that makes the pad of `hw` a plain GPIO, from
/// the register's current value.
pub fn iocon_gpio_value(current: u32, hw: LpcPinHw, pull_up: bool) -> (next: u32)
    requires
        hw.spec_gpio_function() < 8,
    ensures
        iocon_gpio_fields(current, next, hw.spec_pad_kind(), hw.spec_gpio_function(), pull_up),
{
    match hw.pad_kind() {
        LpcPadKind::I2cOpenDrain => {
            let next = (current & !(0x07u32 | (0x03u32 << 8u32))) | (1u32 << 8u32);
            assert(next & 0x07 == 0 && (next >> 8u32) & 0x03 == 1 && next & !0x307u32 == current & !0x307u32)
                by (bit_vector)
                requires
                    next == (current & !(0x07u32 | (0x03u32 << 8u32))) | (1u32 << 8u32),
            ;
            next
        },
        kind => {
            let mode: u32 = if pull_up { 2 } else { 0 };
            let function: u32 = hw.gpio_function() as u32;
            let bits = (current & !(0x07u32 | (0x03u32 << 3u32))) | function | (mode << 3u32);
            assert(bits & 0x07 == function && (bits >> 3u32) & 0x03 == mode && bits & !0x1fu32 == current
                & !0x1fu32) by (bit_vector)
                requires
                    bits == (current & !(0x07u32 | (0x03u32 << 3u32))) | function | (mode << 3u32),
                    function < 8,
                    mode < 4,
            ;
            if kind == LpcPadKind::Analog {
                let next = bits | (1u32 << 7u32);
                assert(next & 0x07 == function && (next >> 3u32) & 0x03 == mode && next & 0x80 == 0x80 && next
                    & !0x9fu32 == current & !0x9fu32) by (bit_vector)
                    requires
                        next == bits | (1u32 << 7u32),
                        bits & 0x07 == function,
                        (bits >> 3u32) & 0x03 == mode,
                        bits & !0x1fu32 == current & !0x1fu32,
                ;
                next
            } else {
                bits
            }
        },
    }
}

} // verus!
