use vstd::prelude::*;

verus! {

/// Byte values of the ASCII characters the wire protocol spells its tokens with.
pub const ASCII_A: u8 = 0x41;
pub const ASCII_B: u8 = 0x42;
pub const ASCII_C: u8 = 0x43;
pub const ASCII_D: u8 = 0x44;
pub const ASCII_E: u8 = 0x45;
pub const ASCII_F: u8 = 0x46;
pub const ASCII_G: u8 = 0x47;
pub const ASCII_H: u8 = 0x48;
pub const ASCII_I: u8 = 0x49;
pub const ASCII_J: u8 = 0x4a;
pub const ASCII_K: u8 = 0x4b;
pub const ASCII_L: u8 = 0x4c;
pub const ASCII_M: u8 = 0x4d;
pub const ASCII_N: u8 = 0x4e;
pub const ASCII_O: u8 = 0x4f;
pub const ASCII_P: u8 = 0x50;
pub const ASCII_Q: u8 = 0x51;
pub const ASCII_R: u8 = 0x52;
pub const ASCII_S: u8 = 0x53;
pub const ASCII_T: u8 = 0x54;
pub const ASCII_U: u8 = 0x55;
pub const ASCII_V: u8 = 0x56;
pub const ASCII_W: u8 = 0x57;
pub const ASCII_X: u8 = 0x58;
pub const ASCII_Y: u8 = 0x59;
pub const ASCII_Z: u8 = 0x5a;
pub const ASCII_0: u8 = 0x30;
pub const ASCII_1: u8 = 0x31;
pub const ASCII_2: u8 = 0x32;
pub const ASCII_3: u8 = 0x33;
pub const ASCII_4: u8 = 0x34;
pub const ASCII_5: u8 = 0x35;
pub const ASCII_6: u8 = 0x36;
pub const ASCII_7: u8 = 0x37;
pub const ASCII_8: u8 = 0x38;
pub const ASCII_9: u8 = 0x39;
pub const ASCII_SPACE: u8 = 0x20;
pub const ASCII_NEWLINE: u8 = 0x0a;
pub const ASCII_CR: u8 = 0x0d;
pub const ASCII_LT: u8 = 0x3c;
pub const ASCII_QUESTION: u8 = 0x3f;
pub const ASCII_UNDERSCORE: u8 = 0x5f;
pub const ASCII_DASH: u8 = 0x2d;
pub const ASCII_LBRACKET: u8 = 0x5b;
pub const ASCII_RBRACKET: u8 = 0x5d;

/// ASCII whitespace as the wire protocol understands it: space, tab, line feed,
/// form feed and carriage return.
pub open spec fn spec_is_space(b: u8) -> bool {
    b == 0x20 || b == 0x09 || b == 0x0a || b == 0x0c || b == 0x0d
}

pub open spec fn spec_is_digit(b: u8) -> bool {
    0x30 <= b <= 0x39
}

pub open spec fn spec_is_upper(b: u8) -> bool {
    0x41 <= b <= 0x5a
}

/// Printable ASCII other than space.
pub open spec fn spec_is_graphic(b: u8) -> bool {
    0x21 <= b <= 0x7e
}

pub fn is_space(b: u8) -> (r: bool)
    ensures
        r == spec_is_space(b),
{
    b == 0x20 || b == 0x09 || b == 0x0a || b == 0x0c || b == 0x0d
}

pub fn is_digit(b: u8) -> (r: bool)
    ensures
        r == spec_is_digit(b),
{
    0x30 <= b && b <= 0x39
}

pub fn is_upper(b: u8) -> (r: bool)
    ensures
        r == spec_is_upper(b),
{
    0x41 <= b && b <= 0x5a
}

pub fn is_graphic(b: u8) -> (r: bool)
    ensures
        r == spec_is_graphic(b),
{
    0x21 <= b && b <= 0x7e
}

/// Whether two byte slices hold the same bytes.
pub fn bytes_eq(a: &[u8], b: &[u8]) -> (r: bool)
    ensures
        r == (a@ == b@),
{
    if a.len() != b.len() {
        return false;
    }
    let mut i: usize = 0;
    while i < a.len()
        invariant
            a@.len() == b@.len(),
            i <= a@.len(),
            forall|j: int| 0 <= j < i ==> a@[j] == b@[j],
        decreases a@.len() - i,
    {
        if a[i] != b[i] {
            return false;
        }
        i = i + 1;
    }
    assert(a@ =~= b@);
    true
}

/// A token routes a packet when it is non-empty printable ASCII without spaces.
pub open spec fn spec_valid_route_token(t: Seq<u8>) -> bool {
    t.len() > 0 && forall|i: int| 0 <= i < t.len() ==> spec_is_graphic(#[trigger] t[i])
}

/// A target token starts with an uppercase letter and holds only uppercase
/// letters, digits and underscores.
pub open spec fn spec_valid_target_token(t: Seq<u8>) -> bool {
    &&& t.len() > 0
    &&& spec_is_upper(t[0])
    &&& forall|i: int|
        0 <= i < t.len() ==> spec_is_target_byte(#[trigger] t[i])
}

pub open spec fn spec_is_target_byte(b: u8) -> bool {
    spec_is_upper(b) || spec_is_digit(b) || b == 0x5f
}

pub fn valid_route_token(t: &[u8]) -> (r: bool)
    ensures
        r == spec_valid_route_token(t@),
{
    if t.len() == 0 {
        return false;
    }
    let mut i: usize = 0;
    while i < t.len()
        invariant
            i <= t@.len(),
            forall|j: int| 0 <= j < i ==> spec_is_graphic(#[trigger] t@[j]),
        decreases t@.len() - i,
    {
        if !is_graphic(t[i]) {
            return false;
        }
        i = i + 1;
    }
    true
}

pub fn valid_target_token(t: &[u8]) -> (r: bool)
    ensures
        r == spec_valid_target_token(t@),
{
    if t.len() == 0 || !is_upper(t[0]) {
        return false;
    }
    let mut i: usize = 0;
    while i < t.len()
        invariant
            i <= t@.len(),
            forall|j: int| 0 <= j < i ==> spec_is_target_byte(#[trigger] t@[j]),
        decreases t@.len() - i,
    {
        let b = t[i];
        if !(is_upper(b) || is_digit(b) || b == 0x5f) {
            return false;
        }
        i = i + 1;
    }
    true
}

/// A target token holds no whitespace.
pub proof fn lemma_target_token_is_route_token(t: Seq<u8>)
    requires
        spec_valid_target_token(t),
    ensures
        spec_valid_route_token(t),
{
    assert forall|i: int| 0 <= i < t.len() implies spec_is_graphic(#[trigger] t[i]) by {
        assert(spec_is_target_byte(t[i]));
    }
}

} // verus!
