use vstd::prelude::*;

use crate::ascii::{is_digit, spec_is_digit};
use crate::request_id::RequestId;

verus! {

/// Every byte of `s` is an ASCII digit.
pub open spec fn all_digits(s: Seq<u8>) -> bool {
    forall|i: int| 0 <= i < s.len() ==> spec_is_digit(#[trigger] s[i])
}

/// The number written by the decimal digits `s`, most significant first.
pub open spec fn digits_value(s: Seq<u8>) -> nat
    decreases s.len(),
{
    if s.len() == 0 {
        0
    } else {
        digits_value(s.drop_last()) * 10 + (s.last() - 0x30) as nat
    }
}

/// A decimal number token: non-empty, all digits, and no larger than `max`.
pub open spec fn spec_parse_decimal(s: Seq<u8>, max: nat) -> Option<nat> {
    if s.len() > 0 && all_digits(s) && digits_value(s) <= max {
        Some(digits_value(s))
    } else {
        None
    }
}

/// The shortest decimal spelling of `v`.
pub open spec fn spec_decimal(v: nat) -> Seq<u8>
    decreases v,
{
    if v < 10 {
        seq![(0x30 + v) as u8]
    } else {
        spec_decimal(v / 10).push((0x30 + v % 10) as u8)
    }
}

/// `v` as exactly three decimal digits.
pub open spec fn spec_decimal3(v: nat) -> Seq<u8> {
    seq![(0x30 + (v / 100) % 10) as u8, (0x30 + (v / 10) % 10) as u8, (0x30 + v % 10) as u8]
}

/// The request identifier a packet-ID token names: one to three digits whose
/// value lies in `1..=999`.
pub open spec fn spec_parse_packet_id(s: Seq<u8>) -> Option<u16> {
    if 1 <= s.len() <= 3 && all_digits(s) && 1 <= digits_value(s) <= 999 {
        Some(digits_value(s) as u16)
    } else {
        None
    }
}

proof fn lemma_digits_value_prefix_le(s: Seq<u8>, i: int)
    requires
        0 <= i <= s.len(),
        all_digits(s),
    ensures
        digits_value(s.take(i)) <= digits_value(s),
    decreases s.len() - i,
{
    if i < s.len() {
        lemma_digits_value_prefix_le(s, i + 1);
        assert(s.take(i + 1).drop_last() =~= s.take(i));
    } else {
        assert(s.take(i) =~= s);
    }
}

/// Parses a decimal number that fits in a `u16`.
pub fn parse_u16(token: &[u8]) -> (res: Option<u16>)
    ensures
        match res {
            Some(v) => spec_parse_decimal(token@, 65535) == Some(v as nat),
            None => spec_parse_decimal(token@, 65535) is None,
        },
{
    if token.len() == 0 {
        return None;
    }
    let mut i: usize = 0;
    while i < token.len()
        invariant
            i <= token@.len(),
            forall|j: int| 0 <= j < i ==> spec_is_digit(#[trigger] token@[j]),
        decreases token@.len() - i,
    {
        if !is_digit(token[i]) {
            return None;
        }
        i = i + 1;
    }
    let mut value: u16 = 0;
    let mut k: usize = 0;
    while k < token.len()
        invariant
            k <= token@.len(),
            all_digits(token@),
            value as nat == digits_value(token@.take(k as int)),
        decreases token@.len() - k,
    {
        proof {
            assert(token@.take(k + 1).drop_last() =~= token@.take(k as int));
        }
        let digit = token[k] - 0x30;
        let next = match value.checked_mul(10) {
            Some(m) => m.checked_add(digit as u16),
            None => None,
        };
        match next {
            Some(n) => {
                value = n;
            },
            None => {
                proof {
                    lemma_digits_value_prefix_le(token@, k + 1);
                }
                return None;
            },
        }
        k = k + 1;
    }
    assert(token@.take(token@.len() as int) =~= token@);
    Some(value)
}

/// Parses a decimal number that fits in a `u8`.
pub fn parse_u8(token: &[u8]) -> (res: Option<u8>)
    ensures
        match res {
            Some(v) => spec_parse_decimal(token@, 255) == Some(v as nat),
            None => spec_parse_decimal(token@, 255) is None,
        },
{
    match parse_u16(token) {
        Some(v) => {
            if v <= 255 {
                Some(v as u8)
            } else {
                None
            }
        },
        None => None,
    }
}

/// Parses a packet ID of one to three digits.
pub fn parse_packet_id(token: &[u8]) -> (res: Option<RequestId>)
    ensures
        match res {
            Some(id) => spec_parse_packet_id(token@) == Some(id.value()),
            None => spec_parse_packet_id(token@) is None,
        },
{
    if token.len() == 0 || token.len() > 3 {
        return None;
    }
    match parse_u16(token) {
        Some(v) => RequestId::new(v),
        None => {
            proof {
                if all_digits(token@) {
                    lemma_digits_bound(token@);
                }
            }
            None
        },
    }
}

/// At most three digits spell a number below 1000.
proof fn lemma_digits_bound(s: Seq<u8>)
    requires
        all_digits(s),
        s.len() <= 3,
    ensures
        digits_value(s) <= 999,
    decreases s.len(),
{
    if s.len() > 0 {
        lemma_digits_bound(s.drop_last());
        if s.len() == 1 {
            assert(digits_value(s.drop_last()) == 0);
        } else if s.len() == 2 {
            lemma_digits_small(s.drop_last());
        } else {
            lemma_digits_small2(s.drop_last());
        }
    }
}

proof fn lemma_digits_small(s: Seq<u8>)
    requires
        all_digits(s),
        s.len() == 1,
    ensures
        digits_value(s) <= 9,
{
    assert(spec_is_digit(s[0]));
    assert(s.drop_last() =~= Seq::<u8>::empty());
    assert(digits_value(s.drop_last()) == 0);
}

proof fn lemma_digits_small2(s: Seq<u8>)
    requires
        all_digits(s),
        s.len() == 2,
    ensures
        digits_value(s) <= 99,
{
    lemma_digits_small(s.drop_last());
}

/// The shortest decimal spelling of `value`.
pub fn decimal(value: u16) -> (res: Vec<u8>)
    ensures
        res@ == spec_decimal(value as nat),
    decreases value,
{
    if value < 10 {
        let mut v: Vec<u8> = Vec::new();
        v.push(0x30 + value as u8);
        assert(v@ =~= spec_decimal(value as nat));
        v
    } else {
        let mut v = decimal(value / 10);
        v.push(0x30 + (value % 10) as u8);
        v
    }
}

/// `value` as exactly three digits.
pub fn decimal3(value: u16) -> (res: Vec<u8>)
    ensures
        res@ == spec_decimal3(value as nat),
{
    let mut v: Vec<u8> = Vec::new();
    v.push(0x30 + ((value / 100) % 10) as u8);
    v.push(0x30 + ((value / 10) % 10) as u8);
    v.push(0x30 + (value % 10) as u8);
    assert(v@ =~= spec_decimal3(value as nat));
    v
}

/// The shortest decimal spelling is a non-empty run of digits that reads back
/// as the number.
pub proof fn lemma_decimal_round_trip(v: nat)
    ensures
        spec_decimal(v).len() > 0,
        all_digits(spec_decimal(v)),
        digits_value(spec_decimal(v)) == v,
    decreases v,
{
    if v >= 10 {
        lemma_decimal_round_trip(v / 10);
        let s = spec_decimal(v);
        assert(s.drop_last() =~= spec_decimal(v / 10));
        assert(s.last() == (0x30 + v % 10) as u8);
        assert((s.last() - 0x30) as nat == v % 10);
        assert((v / 10) * 10 + v % 10 == v);
        assert(digits_value(s) == digits_value(s.drop_last()) * 10 + (s.last() - 0x30) as nat);
        assert forall|i: int| 0 <= i < s.len() implies spec_is_digit(#[trigger] s[i]) by {
            if i < s.len() - 1 {
                assert(s[i] == spec_decimal(v / 10)[i]);
            }
        }
    } else {
        let s = spec_decimal(v);
        assert(s.drop_last() =~= Seq::<u8>::empty());
        assert(digits_value(s.drop_last()) == 0);
    }
}

/// A three-digit packet ID reads back as the identifier it spells.
pub proof fn lemma_decimal3_round_trip(v: nat)
    requires
        1 <= v <= 999,
    ensures
        spec_parse_packet_id(spec_decimal3(v)) == Some(v as u16),
{
    let s = spec_decimal3(v);
    let s1 = s.drop_last().drop_last();
    assert(s1.drop_last() =~= Seq::<u8>::empty());
    assert(digits_value(s1.drop_last()) == 0);
    assert(s1.last() == (0x30 + (v / 100) % 10) as u8);
    assert(digits_value(s1) == (v / 100) % 10);
    assert(digits_value(s.drop_last()) == ((v / 100) % 10) * 10 + (v / 10) % 10);
    assert(digits_value(s) == (((v / 100) % 10) * 10 + (v / 10) % 10) * 10 + v % 10);
}

} // verus!
