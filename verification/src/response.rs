use vstd::prelude::*;

use crate::ascii::{
    bytes_eq, spec_is_graphic, spec_valid_route_token, spec_valid_target_token, valid_route_token,
    valid_target_token, ASCII_0, ASCII_A, ASCII_I, ASCII_LT, ASCII_M, ASCII_SPACE, ASCII_3,
};
use crate::message::{
    bytes_piece, copy_bytes, encoded, message_pieces, piece_views, push_bytes, push_message_head,
    push_message_tail, push_piece, route_exec, route_piece, run_pieces, DecodeError,
    DecodeErrorKind, EncodeError, ExecPiece, Packet, Piece,
};
use crate::numbers::{decimal, parse_u16, parse_u8, spec_decimal, spec_parse_decimal};
use crate::request::{lead, tail1, target_exec, target_piece};
use crate::tokens::{spec_tokens, split_tokens, views};
use crate::values::{
    spec_direction_word, spec_enabled_word, spec_level_word, spec_parse_caps,
    spec_parse_direction, spec_parse_enabled, spec_parse_level, spec_parse_query,
    spec_query_word, Direction, Level, PinCapabilities, Query, QueryValue, TargetError,
};
use crate::words::{
    WORD_BAD_PACKET, WORD_BANK, WORD_CYA, WORD_DASH, WORD_HEART, WORD_HII, WORD_HYG, WORD_IAM,
    WORD_IDK, WORD_IN, WORD_MAP, WORD_NO_ROUTE, WORD_OFF, WORD_OKA, WORD_ON, WORD_OUT, WORD_PIN,
    WORD_ROUTE_BUSY, WORD_ROUTE_DOWN, WORD_UMM, WORD_UNAVAILABLE, WORD_UNSET, WORD_HIGH, WORD_LOW,
    WORD_DIR, WORD_PLL, WORD_LSN,
};

verus! {

/// An error a device answers with; `T` names pin targets, `D` route tokens.
#[derive(Clone, Copy, Debug, PartialEq, Eq)]
pub enum ResponseError<T, D> {
    BadPacket,
    Target { target: T, reason: TargetError },
    NoRoute { destination: D },
    RouteBusy { next_hop: D },
    RouteDown { next_hop: D },
}

/// A device response; `T` names pin targets, `D` the other tokens it carries.
#[derive(Clone, Copy, Debug, PartialEq, Eq)]
pub enum Response<T, D> {
    Hello,
    Status { identity: D },
    MapBank { bank: D },
    MapPin {
        target: T,
        package_pin: Option<u16>,
        bank: D,
        bit: u8,
        capabilities: PinCapabilities,
    },
    Ack,
    Value { target: T, level: Level },
    State { target: T, what: Query, value: QueryValue },
    Error(ResponseError<T, D>),
    Unknown,
    Bye,
}

impl<T: View, D: View> View for ResponseError<T, D> {
    type V = ResponseError<T::V, D::V>;

    open spec fn view(&self) -> ResponseError<T::V, D::V> {
        match *self {
            ResponseError::BadPacket => ResponseError::BadPacket,
            ResponseError::Target { target, reason } => ResponseError::Target {
                target: target@,
                reason,
            },
            ResponseError::NoRoute { destination } => ResponseError::NoRoute {
                destination: destination@,
            },
            ResponseError::RouteBusy { next_hop } => ResponseError::RouteBusy { next_hop: next_hop@ },
            ResponseError::RouteDown { next_hop } => ResponseError::RouteDown { next_hop: next_hop@ },
        }
    }
}

impl<T: View, D: View> View for Response<T, D> {
    type V = Response<T::V, D::V>;

    open spec fn view(&self) -> Response<T::V, D::V> {
        match *self {
            Response::Hello => Response::Hello,
            Response::Status { identity } => Response::Status { identity: identity@ },
            Response::MapBank { bank } => Response::MapBank { bank: bank@ },
            Response::MapPin { target, package_pin, bank, bit, capabilities } => Response::MapPin {
                target: target@,
                package_pin,
                bank: bank@,
                bit,
                capabilities,
            },
            Response::Ack => Response::Ack,
            Response::Value { target, level } => Response::Value { target: target@, level },
            Response::State { target, what, value } => Response::State {
                target: target@,
                what,
                value,
            },
            Response::Error(e) => Response::Error(e@),
            Response::Unknown => Response::Unknown,
            Response::Bye => Response::Bye,
        }
    }
}

/// A response as decoded from the wire, naming everything by token.
pub type DecodedResponse<'a> = Response<&'a [u8], &'a [u8]>;

/// The pin target a response carries, if any.
pub open spec fn response_target<T, D>(r: Response<T, D>) -> Option<T> {
    match r {
        Response::MapPin { target, .. } => Some(target),
        Response::Value { target, .. } => Some(target),
        Response::State { target, .. } => Some(target),
        Response::Error(ResponseError::Target { target, .. }) => Some(target),
        _ => None,
    }
}

/// The other token a response carries, if any.
pub open spec fn response_data<T, D>(r: Response<T, D>) -> Option<D> {
    match r {
        Response::Status { identity } => Some(identity),
        Response::MapBank { bank } => Some(bank),
        Response::MapPin { bank, .. } => Some(bank),
        Response::Error(ResponseError::NoRoute { destination }) => Some(destination),
        Response::Error(ResponseError::RouteBusy { next_hop }) => Some(next_hop),
        Response::Error(ResponseError::RouteDown { next_hop }) => Some(next_hop),
        _ => None,
    }
}

/// `a` and `b` are the same response apart from their tokens.
pub open spec fn same_response_shape<T, D, U, E>(a: Response<T, D>, b: Response<U, E>) -> bool {
    match (a, b) {
        (Response::Hello, Response::Hello) => true,
        (Response::Status { .. }, Response::Status { .. }) => true,
        (Response::MapBank { .. }, Response::MapBank { .. }) => true,
        (
            Response::MapPin { package_pin: p1, bit: b1, capabilities: c1, .. },
            Response::MapPin { package_pin: p2, bit: b2, capabilities: c2, .. },
        ) => p1 == p2 && b1 == b2 && c1 == c2,
        (Response::Ack, Response::Ack) => true,
        (Response::Value { level: l1, .. }, Response::Value { level: l2, .. }) => l1 == l2,
        (
            Response::State { what: w1, value: v1, .. },
            Response::State { what: w2, value: v2, .. },
        ) => w1 == w2 && v1 == v2,
        (Response::Error(e1), Response::Error(e2)) => match (e1, e2) {
            (ResponseError::BadPacket, ResponseError::BadPacket) => true,
            (
                ResponseError::Target { reason: r1, .. },
                ResponseError::Target { reason: r2, .. },
            ) => r1 == r2,
            (ResponseError::NoRoute { .. }, ResponseError::NoRoute { .. }) => true,
            (ResponseError::RouteBusy { .. }, ResponseError::RouteBusy { .. }) => true,
            (ResponseError::RouteDown { .. }, ResponseError::RouteDown { .. }) => true,
            _ => false,
        },
        (Response::Unknown, Response::Unknown) => true,
        (Response::Bye, Response::Bye) => true,
        _ => false,
    }
}

impl<T, D> Response<T, D> {
    /// The same response with its pin target mapped through `map_target` and
    /// its other token through `map_data`, or the first error either returns:
    /// the target is mapped first, and the other token only once the target
    /// was mapped.
    pub fn try_map<T2, D2, E, FT: FnOnce(T) -> Result<T2, E>, FD: FnOnce(D) -> Result<D2, E>>(
        self,
        map_target: FT,
        map_data: FD,
    ) -> (res: Result<Response<T2, D2>, E>)
        requires
            response_target(self) matches Some(t) ==> call_requires(map_target, (t,)),
            response_data(self) matches Some(d) ==> call_requires(map_data, (d,)),
        ensures
            match res {
                Ok(r) => {
                    &&& same_response_shape(self, r)
                    &&& response_target(self) matches Some(t) ==> response_target(r) matches Some(u)
                        && call_ensures(map_target, (t,), Ok::<T2, E>(u))
                    &&& response_data(self) matches Some(d) ==> response_data(r) matches Some(u)
                        && call_ensures(map_data, (d,), Ok::<D2, E>(u))
                },
                Err(e) => match response_target(self) {
                    Some(t) => {
                        ||| call_ensures(map_target, (t,), Err::<T2, E>(e))
                        ||| (exists|u: T2| #[trigger] call_ensures(map_target, (t,), Ok::<T2, E>(u))) && (
                        response_data(self) matches Some(d) && call_ensures(map_data, (d,), Err::<D2, E>(e)))
                    },
                    None => response_data(self) matches Some(d) && call_ensures(map_data, (d,), Err::<D2, E>(e)),
                },
            },
    {
        match self {
            Response::Hello => Ok(Response::Hello),
            Response::Status { identity } => {
                let identity = map_data(identity)?;
                Ok(Response::Status { identity })
            },
            Response::MapBank { bank } => {
                let bank = map_data(bank)?;
                Ok(Response::MapBank { bank })
            },
            Response::MapPin { target, package_pin, bank, bit, capabilities } => {
                let target = map_target(target)?;
                let bank = map_data(bank)?;
                Ok(Response::MapPin { target, package_pin, bank, bit, capabilities })
            },
            Response::Ack => Ok(Response::Ack),
            Response::Value { target, level } => {
                let target = map_target(target)?;
                Ok(Response::Value { target, level })
            },
            Response::State { target, what, value } => {
                let target = map_target(target)?;
                Ok(Response::State { target, what, value })
            },
            Response::Error(ResponseError::BadPacket) => Ok(Response::Error(ResponseError::BadPacket)),
            Response::Error(ResponseError::Target { target, reason }) => {
                let target = map_target(target)?;
                Ok(Response::Error(ResponseError::Target { target, reason }))
            },
            Response::Error(ResponseError::NoRoute { destination }) => {
                let destination = map_data(destination)?;
                Ok(Response::Error(ResponseError::NoRoute { destination }))
            },
            Response::Error(ResponseError::RouteBusy { next_hop }) => {
                let next_hop = map_data(next_hop)?;
                Ok(Response::Error(ResponseError::RouteBusy { next_hop }))
            },
            Response::Error(ResponseError::RouteDown { next_hop }) => {
                let next_hop = map_data(next_hop)?;
                Ok(Response::Error(ResponseError::RouteDown { next_hop }))
            },
            Response::Unknown => Ok(Response::Unknown),
            Response::Bye => Ok(Response::Bye),
        }
    }
}

/// The words run out after `n` of them, the last being `<3`.
pub open spec fn closes(ts: Seq<Seq<u8>>, n: int) -> bool {
    ts.len() == n && ts[n - 1] == WORD_HEART@
}

/// A device identity: printable words separated by single spaces.
pub open spec fn spec_valid_identity(s: Seq<u8>) -> bool {
    &&& s.len() > 0
    &&& s[0] != ASCII_SPACE
    &&& s.last() != ASCII_SPACE
    &&& forall|i: int| 0 <= i < s.len() ==> (#[trigger] s[i] == ASCII_SPACE || spec_is_graphic(s[i]))
    &&& forall|i: int|
        0 <= i < s.len() - 1 ==> !(#[trigger] s[i] == ASCII_SPACE && s[i + 1] == ASCII_SPACE)
}

/// The bytes `IAM ` that open a status body.
pub open spec fn status_prefix() -> Seq<u8> {
    WORD_IAM@ + seq![ASCII_SPACE]
}

/// The bytes ` <3` that close a response body.
pub open spec fn heart_suffix() -> Seq<u8> {
    seq![ASCII_SPACE] + WORD_HEART@
}

/// The identity a raw `IAM identity <3` body carries.
pub open spec fn spec_status_identity(body: Seq<u8>) -> Option<Seq<u8>> {
    if body.len() >= 7 && body.take(4) == status_prefix() && body.skip(body.len() - 3)
        == heart_suffix() && spec_valid_identity(body.subrange(4, body.len() - 3)) {
        Some(body.subrange(4, body.len() - 3))
    } else {
        None
    }
}

/// A package pin field: `-` for none, else a decimal number.
pub open spec fn spec_package_pin(t: Seq<u8>) -> Option<Option<u16>> {
    if t == WORD_DASH@ {
        Some(None)
    } else {
        match spec_parse_decimal(t, 65535) {
            Some(v) => Some(Some(v as u16)),
            None => None,
        }
    }
}

/// The value word of a `HYG target what value <3` answer.
pub open spec fn spec_query_value(what: Query, t: Seq<u8>) -> Option<QueryValue> {
    if t == WORD_UNSET@ {
        Some(QueryValue::Unset)
    } else {
        match what {
            Query::Direction => match spec_parse_direction(t) {
                Some(d) => Some(QueryValue::Direction(d)),
                None => None,
            },
            _ => match spec_parse_enabled(t) {
                Some(b) => Some(QueryValue::Enabled(b)),
                None => None,
            },
        }
    }
}

pub open spec fn spec_target_reason(t: Seq<u8>) -> Option<TargetError> {
    if t == WORD_UNSET@ {
        Some(TargetError::Unset)
    } else if t == WORD_UNAVAILABLE@ {
        Some(TargetError::Unavailable)
    } else {
        None
    }
}

/// `MAP BANK bank <3` or `MAP PIN target package bank bit caps <3`.
pub open spec fn spec_decode_map(ts: Seq<Seq<u8>>) -> Option<Response<Seq<u8>, Seq<u8>>> {
    if ts.len() >= 2 && ts[1] == WORD_BANK@ {
        if closes(ts, 4) && spec_valid_target_token(ts[2]) {
            Some(Response::MapBank { bank: ts[2] })
        } else {
            None
        }
    } else if ts.len() >= 2 && ts[1] == WORD_PIN@ {
        if closes(ts, 8) && spec_valid_target_token(ts[2]) && spec_package_pin(ts[3]) is Some
            && spec_valid_target_token(ts[4]) && spec_parse_decimal(ts[5], 255) is Some
            && spec_parse_caps(ts[6]) is Some {
            Some(
                Response::MapPin {
                    target: ts[2],
                    package_pin: spec_package_pin(ts[3]).unwrap(),
                    bank: ts[4],
                    bit: spec_parse_decimal(ts[5], 255).unwrap() as u8,
                    capabilities: PinCapabilities::spec_from_bits(spec_parse_caps(ts[6]).unwrap()),
                },
            )
        } else {
            None
        }
    } else {
        None
    }
}

/// `UMM ...`: the error words, checked in the order the wire gives them
/// meaning: the fixed error names first, then a pin target.
pub open spec fn spec_decode_umm(ts: Seq<Seq<u8>>) -> Option<Response<Seq<u8>, Seq<u8>>> {
    if ts.len() < 2 {
        None
    } else {
        let e = ts[1];
        if e == WORD_BAD_PACKET@ {
            if closes(ts, 3) {
                Some(Response::Error(ResponseError::BadPacket))
            } else {
                None
            }
        } else if e == WORD_NO_ROUTE@ || e == WORD_ROUTE_BUSY@ || e == WORD_ROUTE_DOWN@ {
            if closes(ts, 4) && spec_valid_route_token(ts[2]) {
                Some(
                    Response::Error(
                        if e == WORD_NO_ROUTE@ {
                            ResponseError::NoRoute { destination: ts[2] }
                        } else if e == WORD_ROUTE_BUSY@ {
                            ResponseError::RouteBusy { next_hop: ts[2] }
                        } else {
                            ResponseError::RouteDown { next_hop: ts[2] }
                        },
                    ),
                )
            } else {
                None
            }
        } else if spec_valid_target_token(e) {
            if closes(ts, 4) && spec_target_reason(ts[2]) is Some {
                Some(
                    Response::Error(
                        ResponseError::Target { target: e, reason: spec_target_reason(ts[2]).unwrap() },
                    ),
                )
            } else {
                None
            }
        } else {
            None
        }
    }
}

/// `HYG target level <3` or `HYG target what value <3`.
pub open spec fn spec_decode_hyg(ts: Seq<Seq<u8>>) -> Option<Response<Seq<u8>, Seq<u8>>> {
    if ts.len() < 3 || !spec_valid_target_token(ts[1]) {
        None
    } else if spec_parse_level(ts[2]) is Some {
        if closes(ts, 4) {
            Some(Response::Value { target: ts[1], level: spec_parse_level(ts[2]).unwrap() })
        } else {
            None
        }
    } else if spec_parse_query(ts[2]) is Some {
        let what = spec_parse_query(ts[2]).unwrap();
        if closes(ts, 5) && spec_query_value(what, ts[3]) is Some {
            Some(Response::State { target: ts[1], what, value: spec_query_value(what, ts[3]).unwrap() })
        } else {
            None
        }
    } else {
        None
    }
}

/// The response commands a device may send.
pub open spec fn is_response_command(c: Seq<u8>) -> bool {
    c == WORD_HII@ || c == WORD_IAM@ || c == WORD_MAP@ || c == WORD_OKA@ || c == WORD_CYA@ || c
        == WORD_IDK@ || c == WORD_UMM@ || c == WORD_HYG@
}

/// The response a body with a known command spells, if it is well formed.
pub open spec fn spec_decode_known(body: Seq<u8>, ts: Seq<Seq<u8>>) -> Option<Response<Seq<u8>, Seq<u8>>> {
    let c = ts[0];
    if c == WORD_HII@ {
        if closes(ts, 2) {
            Some(Response::Hello)
        } else {
            None
        }
    } else if c == WORD_IAM@ {
        match spec_status_identity(body) {
            Some(identity) => Some(Response::Status { identity }),
            None => None,
        }
    } else if c == WORD_MAP@ {
        spec_decode_map(ts)
    } else if c == WORD_OKA@ || c == WORD_CYA@ || c == WORD_IDK@ {
        if closes(ts, 2) {
            Some(
                if c == WORD_OKA@ {
                    Response::Ack
                } else if c == WORD_CYA@ {
                    Response::Bye
                } else {
                    Response::Unknown
                },
            )
        } else {
            None
        }
    } else if c == WORD_UMM@ {
        spec_decode_umm(ts)
    } else {
        spec_decode_hyg(ts)
    }
}

/// The response a body spells, or why it spells none.
pub open spec fn spec_decode_response_body(body: Seq<u8>) -> Result<Response<Seq<u8>, Seq<u8>>, DecodeErrorKind> {
    let ts = spec_tokens(body);
    if ts.len() == 0 {
        Err(DecodeErrorKind::Malformed)
    } else if !is_response_command(ts[0]) {
        Err(DecodeErrorKind::UnknownCommand)
    } else {
        match spec_decode_known(body, ts) {
            Some(r) => Ok(r),
            None => Err(DecodeErrorKind::Malformed),
        }
    }
}

fn closes_exec(ts: &Vec<&[u8]>, n: usize) -> (r: bool)
    requires
        n >= 1,
    ensures
        r == closes(views(ts@), n as int),
{
    let ghost words = views(ts@);
    if ts.len() != n {
        return false;
    }
    assert(words[n - 1] == ts@[n - 1]@);
    bytes_eq(ts[n - 1], WORD_HEART.as_slice())
}

/// Whether `s` is a valid device identity.
pub fn valid_identity(s: &[u8]) -> (r: bool)
    ensures
        r == spec_valid_identity(s@),
{
    let n = s.len();
    if n == 0 || s[0] == ASCII_SPACE || s[n - 1] == ASCII_SPACE {
        return false;
    }
    let mut i: usize = 0;
    while i < n
        invariant
            n == s@.len(),
            i <= n,
            forall|j: int| 0 <= j < i ==> (#[trigger] s@[j] == ASCII_SPACE || spec_is_graphic(s@[j])),
            forall|j: int| 0 <= j < i && j < n - 1 ==> !(#[trigger] s@[j] == ASCII_SPACE && s@[j + 1] == ASCII_SPACE),
        decreases n - i,
    {
        let b = s[i];
        if !(b == ASCII_SPACE || (0x21 <= b && b <= 0x7e)) {
            return false;
        }
        if i + 1 < n && b == ASCII_SPACE && s[i + 1] == ASCII_SPACE {
            return false;
        }
        i = i + 1;
    }
    true
}

/// The identity carried by a raw `IAM identity <3` body.
fn status_identity<'a>(body: &'a [u8]) -> (res: Option<&'a [u8]>)
    ensures
        match res {
            Some(identity) => spec_status_identity(body@) == Some(identity@),
            None => spec_status_identity(body@) is None,
        },
{
    let n = body.len();
    if n < 7 {
        return None;
    }
    let prefix_array = [ASCII_I, ASCII_A, ASCII_M, ASCII_SPACE];
    let suffix_array = [ASCII_SPACE, ASCII_LT, ASCII_3];
    let prefix = prefix_array.as_slice();
    let suffix = suffix_array.as_slice();
    assert(prefix@ =~= status_prefix());
    assert(suffix@ =~= heart_suffix());
    let head = &body[0..4];
    let tail = &body[n - 3..n];
    let identity = &body[4..n - 3];
    assert(head@ =~= body@.take(4));
    assert(tail@ =~= body@.skip(n - 3));
    assert(identity@ =~= body@.subrange(4, n - 3));
    if bytes_eq(head, prefix) && bytes_eq(tail, suffix) && valid_identity(identity) {
        Some(identity)
    } else {
        None
    }
}

fn parse_package_pin(t: &[u8]) -> (res: Option<Option<u16>>)
    ensures
        res == spec_package_pin(t@),
{
    if bytes_eq(t, WORD_DASH.as_slice()) {
        Some(None)
    } else {
        match parse_u16(t) {
            Some(v) => Some(Some(v)),
            None => None,
        }
    }
}

fn parse_query_value(what: Query, t: &[u8]) -> (res: Option<QueryValue>)
    ensures
        res == spec_query_value(what, t@),
{
    if bytes_eq(t, WORD_UNSET.as_slice()) {
        return Some(QueryValue::Unset);
    }
    match what {
        Query::Direction => match Direction::parse_token(t) {
            Ok(d) => Some(QueryValue::Direction(d)),
            Err(_) => None,
        },
        _ => {
            if bytes_eq(t, WORD_ON.as_slice()) {
                Some(QueryValue::Enabled(true))
            } else if bytes_eq(t, WORD_OFF.as_slice()) {
                Some(QueryValue::Enabled(false))
            } else {
                None
            }
        },
    }
}

fn parse_target_reason(t: &[u8]) -> (res: Option<TargetError>)
    ensures
        res == spec_target_reason(t@),
{
    if bytes_eq(t, WORD_UNSET.as_slice()) {
        Some(TargetError::Unset)
    } else if bytes_eq(t, WORD_UNAVAILABLE.as_slice()) {
        Some(TargetError::Unavailable)
    } else {
        None
    }
}

fn decode_map<'a>(ts: &Vec<&'a [u8]>) -> (res: Option<DecodedResponse<'a>>)
    ensures
        match res {
            Some(r) => spec_decode_map(views(ts@)) == Some(r@),
            None => spec_decode_map(views(ts@)) is None,
        },
{
    let ghost words = views(ts@);
    let n = ts.len();
    if n < 2 {
        return None;
    }
    assert(words[1] == ts@[1]@);
    if bytes_eq(ts[1], WORD_BANK.as_slice()) {
        if !closes_exec(ts, 4) {
            return None;
        }
        assert(words[2] == ts@[2]@);
        if !valid_target_token(ts[2]) {
            return None;
        }
        return Some(Response::MapBank { bank: ts[2] });
    }
    if !bytes_eq(ts[1], WORD_PIN.as_slice()) || !closes_exec(ts, 8) {
        return None;
    }
    assert(words[2] == ts@[2]@ && words[3] == ts@[3]@ && words[4] == ts@[4]@ && words[5]
        == ts@[5]@ && words[6] == ts@[6]@);
    if !valid_target_token(ts[2]) || !valid_target_token(ts[4]) {
        return None;
    }
    let package_pin = match parse_package_pin(ts[3]) {
        Some(p) => p,
        None => {
            return None;
        },
    };
    let bit = match parse_u8(ts[5]) {
        Some(b) => b,
        None => {
            return None;
        },
    };
    let capabilities = match PinCapabilities::parse_token(ts[6]) {
        Ok(c) => c,
        Err(_) => {
            return None;
        },
    };
    proof {
        let bits = spec_parse_caps(words[6]).unwrap();
        PinCapabilities::lemma_spec_from_bits(bits);
        PinCapabilities::lemma_bits_determine(capabilities, PinCapabilities::spec_from_bits(bits));
    }
    Some(Response::MapPin { target: ts[2], package_pin, bank: ts[4], bit, capabilities })
}

fn decode_umm<'a>(ts: &Vec<&'a [u8]>) -> (res: Option<DecodedResponse<'a>>)
    ensures
        match res {
            Some(r) => spec_decode_umm(views(ts@)) == Some(r@),
            None => spec_decode_umm(views(ts@)) is None,
        },
{
    let ghost words = views(ts@);
    let n = ts.len();
    if n < 2 {
        return None;
    }
    assert(words[1] == ts@[1]@);
    let e = ts[1];
    if bytes_eq(e, WORD_BAD_PACKET.as_slice()) {
        if closes_exec(ts, 3) {
            return Some(Response::Error(ResponseError::BadPacket));
        }
        return None;
    }
    let no_route = bytes_eq(e, WORD_NO_ROUTE.as_slice());
    let busy = bytes_eq(e, WORD_ROUTE_BUSY.as_slice());
    let down = bytes_eq(e, WORD_ROUTE_DOWN.as_slice());
    if no_route || busy || down {
        if !closes_exec(ts, 4) {
            return None;
        }
        assert(words[2] == ts@[2]@);
        if !valid_route_token(ts[2]) {
            return None;
        }
        let error = if no_route {
            ResponseError::NoRoute { destination: ts[2] }
        } else if busy {
            ResponseError::RouteBusy { next_hop: ts[2] }
        } else {
            ResponseError::RouteDown { next_hop: ts[2] }
        };
        return Some(Response::Error(error));
    }
    if !valid_target_token(e) || !closes_exec(ts, 4) {
        return None;
    }
    assert(words[2] == ts@[2]@);
    match parse_target_reason(ts[2]) {
        Some(reason) => Some(Response::Error(ResponseError::Target { target: e, reason })),
        None => None,
    }
}

fn decode_hyg<'a>(ts: &Vec<&'a [u8]>) -> (res: Option<DecodedResponse<'a>>)
    ensures
        match res {
            Some(r) => spec_decode_hyg(views(ts@)) == Some(r@),
            None => spec_decode_hyg(views(ts@)) is None,
        },
{
    let ghost words = views(ts@);
    let n = ts.len();
    if n < 3 {
        return None;
    }
    assert(words[1] == ts@[1]@ && words[2] == ts@[2]@);
    if !valid_target_token(ts[1]) {
        return None;
    }
    let target = ts[1];
    if let Ok(level) = Level::parse_token(ts[2]) {
        if closes_exec(ts, 4) {
            return Some(Response::Value { target, level });
        }
        return None;
    }
    let what = match Query::parse_token(ts[2]) {
        Ok(what) => what,
        Err(_) => {
            return None;
        },
    };
    if !closes_exec(ts, 5) {
        return None;
    }
    assert(words[3] == ts@[3]@);
    match parse_query_value(what, ts[3]) {
        Some(value) => Some(Response::State { target, what, value }),
        None => None,
    }
}

/// Decodes the body of a response packet; errors keep the packet's identifier.
pub fn decode_response<'a>(packet: Packet<&'a [u8]>) -> (res: Result<Packet<DecodedResponse<'a>>, DecodeError>)
    ensures
        match res {
            Ok(p) => p.id == packet.id && spec_decode_response_body(packet.body@) == Ok::<
                Response<Seq<u8>, Seq<u8>>,
                DecodeErrorKind,
            >(p.body@),
            Err(e) => e.id == Some(packet.id) && spec_decode_response_body(packet.body@) == Err::<
                Response<Seq<u8>, Seq<u8>>,
                DecodeErrorKind,
            >(e.kind),
        },
{
    let id = packet.id;
    let ts = split_tokens(packet.body);
    let ghost words = views(ts@);
    let malformed = DecodeError { id: Some(id), kind: DecodeErrorKind::Malformed };
    if ts.len() == 0 {
        return Err(malformed);
    }
    let c: &'a [u8] = ts[0];
    assert(words[0] == c@);
    let decoded: Option<DecodedResponse<'a>> = if bytes_eq(c, WORD_HII.as_slice()) {
        if closes_exec(&ts, 2) {
            Some(Response::Hello)
        } else {
            None
        }
    } else if bytes_eq(c, WORD_IAM.as_slice()) {
        match status_identity(packet.body) {
            Some(identity) => Some(Response::Status { identity }),
            None => None,
        }
    } else if bytes_eq(c, WORD_MAP.as_slice()) {
        decode_map(&ts)
    } else if bytes_eq(c, WORD_OKA.as_slice()) || bytes_eq(c, WORD_CYA.as_slice()) || bytes_eq(
        c,
        WORD_IDK.as_slice(),
    ) {
        if closes_exec(&ts, 2) {
            Some(
                if bytes_eq(c, WORD_OKA.as_slice()) {
                    Response::Ack
                } else if bytes_eq(c, WORD_CYA.as_slice()) {
                    Response::Bye
                } else {
                    Response::Unknown
                },
            )
        } else {
            None
        }
    } else if bytes_eq(c, WORD_UMM.as_slice()) {
        decode_umm(&ts)
    } else if bytes_eq(c, WORD_HYG.as_slice()) {
        decode_hyg(&ts)
    } else {
        return Err(DecodeError { id: Some(id), kind: DecodeErrorKind::UnknownCommand });
    };
    match decoded {
        Some(body) => Ok(Packet { id, body }),
        None => Err(malformed),
    }
}


/// The word a query answer is written with.
pub open spec fn spec_query_value_word(v: QueryValue) -> Seq<u8> {
    match v {
        QueryValue::Unset => WORD_UNSET@,
        QueryValue::Direction(d) => spec_direction_word(d),
        QueryValue::Enabled(b) => spec_enabled_word(b),
    }
}

pub open spec fn spec_reason_word(r: TargetError) -> Seq<u8> {
    match r {
        TargetError::Unset => WORD_UNSET@,
        TargetError::Unavailable => WORD_UNAVAILABLE@,
    }
}

/// A single space.
pub open spec fn space_piece() -> Piece {
    bytes_piece(seq![ASCII_SPACE])
}

/// An identity, refused before anything of the body is written when it is
/// not a valid identity.
pub open spec fn identity_check_piece(identity: Seq<u8>) -> Piece {
    Piece {
        bytes: status_prefix(),
        error: if spec_valid_identity(identity) {
            None
        } else {
            Some(EncodeError::InvalidIdentity)
        },
    }
}

/// The writes that encode a response body.
pub open spec fn spec_response_pieces(r: Response<Seq<u8>, Seq<u8>>) -> Seq<Piece> {
    match r {
        Response::Hello => seq![bytes_piece(WORD_HII@ + heart_suffix())],
        Response::Status { identity } => seq![
            identity_check_piece(identity),
            bytes_piece(identity),
            bytes_piece(heart_suffix()),
        ],
        Response::MapBank { bank } => seq![
            bytes_piece(lead(WORD_MAP@) + lead(WORD_BANK@)),
            target_piece(bank),
            bytes_piece(heart_suffix()),
        ],
        Response::MapPin { target, package_pin, bank, bit, capabilities } => seq![
            bytes_piece(lead(WORD_MAP@) + lead(WORD_PIN@)),
            target_piece(target),
            space_piece(),
            bytes_piece(
                match package_pin {
                    Some(v) => spec_decimal(v as nat),
                    None => WORD_DASH@,
                },
            ),
            space_piece(),
            target_piece(bank),
            space_piece(),
            bytes_piece(spec_decimal(bit as nat)),
            space_piece(),
            bytes_piece(seq![(0x30 + capabilities.spec_bits()) as u8]),
            bytes_piece(heart_suffix()),
        ],
        Response::Ack => seq![bytes_piece(WORD_OKA@ + heart_suffix())],
        Response::Value { target, level } => seq![
            bytes_piece(lead(WORD_HYG@)),
            target_piece(target),
            bytes_piece(tail1(spec_level_word(level)) + heart_suffix()),
        ],
        Response::State { target, what, value } => seq![
            bytes_piece(lead(WORD_HYG@)),
            target_piece(target),
            bytes_piece(tail1(spec_query_word(what)) + seq![ASCII_SPACE]),
            bytes_piece(spec_query_value_word(value)),
            bytes_piece(heart_suffix()),
        ],
        Response::Error(ResponseError::BadPacket) => seq![
            bytes_piece(lead(WORD_UMM@) + WORD_BAD_PACKET@ + heart_suffix()),
        ],
        Response::Error(ResponseError::Target { target, reason }) => seq![
            bytes_piece(lead(WORD_UMM@)),
            target_piece(target),
            bytes_piece(tail1(spec_reason_word(reason)) + heart_suffix()),
        ],
        Response::Error(ResponseError::NoRoute { destination }) => seq![
            bytes_piece(lead(WORD_UMM@) + lead(WORD_NO_ROUTE@)),
            route_piece(destination),
            bytes_piece(heart_suffix()),
        ],
        Response::Error(ResponseError::RouteBusy { next_hop }) => seq![
            bytes_piece(lead(WORD_UMM@) + lead(WORD_ROUTE_BUSY@)),
            route_piece(next_hop),
            bytes_piece(heart_suffix()),
        ],
        Response::Error(ResponseError::RouteDown { next_hop }) => seq![
            bytes_piece(lead(WORD_UMM@) + lead(WORD_ROUTE_DOWN@)),
            route_piece(next_hop),
            bytes_piece(heart_suffix()),
        ],
        Response::Unknown => seq![bytes_piece(WORD_IDK@ + heart_suffix())],
        Response::Bye => seq![bytes_piece(WORD_CYA@ + heart_suffix())],
    }
}

/// A write of the concatenation of `a`, `b` and `c`.
fn joined_exec(a: &[u8], b: &[u8], c: &[u8]) -> (p: ExecPiece)
    ensures
        p@ == bytes_piece(a@ + b@ + c@),
{
    let mut v: Vec<u8> = Vec::new();
    push_bytes(&mut v, a);
    push_bytes(&mut v, b);
    push_bytes(&mut v, c);
    assert(v@ =~= a@ + b@ + c@);
    ExecPiece { bytes: v, error: None }
}

fn query_value_word(v: QueryValue) -> (r: &'static [u8])
    ensures
        r@ == spec_query_value_word(v),
{
    match v {
        QueryValue::Unset => WORD_UNSET.as_slice(),
        QueryValue::Direction(Direction::Input) => WORD_IN.as_slice(),
        QueryValue::Direction(Direction::Output) => WORD_OUT.as_slice(),
        QueryValue::Enabled(true) => WORD_ON.as_slice(),
        QueryValue::Enabled(false) => WORD_OFF.as_slice(),
    }
}

/// Appends the writes of a response body.
fn push_response_pieces(pieces: &mut Vec<ExecPiece>, body: Response<&[u8], &[u8]>)
    ensures
        piece_views(final(pieces)@) == piece_views(old(pieces)@) + spec_response_pieces(body@),
{
    let ghost before = piece_views(pieces@);
    let space_array = [ASCII_SPACE];
    let space = space_array.as_slice();
    let heart_array = [ASCII_SPACE, ASCII_LT, ASCII_3];
    let heart = heart_array.as_slice();
    let none_array: [u8; 0] = [];
    let none = none_array.as_slice();
    assert(space@ =~= seq![ASCII_SPACE]);
    assert(heart@ =~= heart_suffix());
    assert(none@ =~= Seq::<u8>::empty());
    match body {
        Response::Hello => {
            push_piece(pieces, joined_exec(WORD_HII.as_slice(), heart, none));
        },
        Response::Status { identity } => {
            let error = if valid_identity(identity) {
                None
            } else {
                Some(EncodeError::InvalidIdentity)
            };
            let p = joined_exec(WORD_IAM.as_slice(), space, none);
            push_piece(pieces, ExecPiece { bytes: p.bytes, error });
            push_piece(pieces, ExecPiece { bytes: copy_bytes(identity), error: None });
            push_piece(pieces, joined_exec(heart, none, none));
        },
        Response::MapBank { bank } => {
            let mut v: Vec<u8> = Vec::new();
            push_bytes(&mut v, WORD_MAP.as_slice());
            push_bytes(&mut v, space);
            push_bytes(&mut v, WORD_BANK.as_slice());
            push_bytes(&mut v, space);
            assert(v@ =~= lead(WORD_MAP@) + lead(WORD_BANK@));
            push_piece(pieces, ExecPiece { bytes: v, error: None });
            push_piece(pieces, target_exec(bank));
            push_piece(pieces, joined_exec(heart, none, none));
        },
        Response::MapPin { target, package_pin, bank, bit, capabilities } => {
            let mut v: Vec<u8> = Vec::new();
            push_bytes(&mut v, WORD_MAP.as_slice());
            push_bytes(&mut v, space);
            push_bytes(&mut v, WORD_PIN.as_slice());
            push_bytes(&mut v, space);
            assert(v@ =~= lead(WORD_MAP@) + lead(WORD_PIN@));
            push_piece(pieces, ExecPiece { bytes: v, error: None });
            push_piece(pieces, target_exec(target));
            push_piece(pieces, joined_exec(space, none, none));
            match package_pin {
                Some(number) => push_piece(pieces, ExecPiece { bytes: decimal(number), error: None }),
                None => push_piece(pieces, joined_exec(WORD_DASH.as_slice(), none, none)),
            }
            push_piece(pieces, joined_exec(space, none, none));
            push_piece(pieces, target_exec(bank));
            push_piece(pieces, joined_exec(space, none, none));
            push_piece(pieces, ExecPiece { bytes: decimal(bit as u16), error: None });
            push_piece(pieces, joined_exec(space, none, none));
            let digit = ASCII_0 + capabilities.bits();
            let mut d: Vec<u8> = Vec::new();
            d.push(digit);
            assert(d@ =~= seq![(0x30 + capabilities.spec_bits()) as u8]);
            push_piece(pieces, ExecPiece { bytes: d, error: None });
            push_piece(pieces, joined_exec(heart, none, none));
        },
        Response::Ack => {
            push_piece(pieces, joined_exec(WORD_OKA.as_slice(), heart, none));
        },
        Response::Value { target, level } => {
            push_piece(pieces, joined_exec(WORD_HYG.as_slice(), space, none));
            push_piece(pieces, target_exec(target));
            let word = match level {
                Level::Low => WORD_LOW.as_slice(),
                Level::High => WORD_HIGH.as_slice(),
            };
            push_piece(pieces, joined_exec(space, word, heart));
        },
        Response::State { target, what, value } => {
            push_piece(pieces, joined_exec(WORD_HYG.as_slice(), space, none));
            push_piece(pieces, target_exec(target));
            let word = match what {
                Query::Direction => WORD_DIR.as_slice(),
                Query::Pullup => WORD_PLL.as_slice(),
                Query::Listen => WORD_LSN.as_slice(),
            };
            push_piece(pieces, joined_exec(space, word, space));
            push_piece(pieces, joined_exec(query_value_word(value), none, none));
            push_piece(pieces, joined_exec(heart, none, none));
        },
        Response::Error(ResponseError::BadPacket) => {
            let mut v: Vec<u8> = Vec::new();
            push_bytes(&mut v, WORD_UMM.as_slice());
            push_bytes(&mut v, space);
            push_bytes(&mut v, WORD_BAD_PACKET.as_slice());
            push_bytes(&mut v, heart);
            assert(v@ =~= lead(WORD_UMM@) + WORD_BAD_PACKET@ + heart_suffix());
            push_piece(pieces, ExecPiece { bytes: v, error: None });
        },
        Response::Error(ResponseError::Target { target, reason }) => {
            push_piece(pieces, joined_exec(WORD_UMM.as_slice(), space, none));
            push_piece(pieces, target_exec(target));
            let word = match reason {
                TargetError::Unset => WORD_UNSET.as_slice(),
                TargetError::Unavailable => WORD_UNAVAILABLE.as_slice(),
            };
            push_piece(pieces, joined_exec(space, word, heart));
        },
        Response::Error(ResponseError::NoRoute { destination }) => {
            let mut v: Vec<u8> = Vec::new();
            push_bytes(&mut v, WORD_UMM.as_slice());
            push_bytes(&mut v, space);
            push_bytes(&mut v, WORD_NO_ROUTE.as_slice());
            push_bytes(&mut v, space);
            assert(v@ =~= lead(WORD_UMM@) + lead(WORD_NO_ROUTE@));
            push_piece(pieces, ExecPiece { bytes: v, error: None });
            push_piece(pieces, route_exec(destination));
            push_piece(pieces, joined_exec(heart, none, none));
        },
        Response::Error(ResponseError::RouteBusy { next_hop }) => {
            let mut v: Vec<u8> = Vec::new();
            push_bytes(&mut v, WORD_UMM.as_slice());
            push_bytes(&mut v, space);
            push_bytes(&mut v, WORD_ROUTE_BUSY.as_slice());
            push_bytes(&mut v, space);
            assert(v@ =~= lead(WORD_UMM@) + lead(WORD_ROUTE_BUSY@));
            push_piece(pieces, ExecPiece { bytes: v, error: None });
            push_piece(pieces, route_exec(next_hop));
            push_piece(pieces, joined_exec(heart, none, none));
        },
        Response::Error(ResponseError::RouteDown { next_hop }) => {
            let mut v: Vec<u8> = Vec::new();
            push_bytes(&mut v, WORD_UMM.as_slice());
            push_bytes(&mut v, space);
            push_bytes(&mut v, WORD_ROUTE_DOWN.as_slice());
            push_bytes(&mut v, space);
            assert(v@ =~= lead(WORD_UMM@) + lead(WORD_ROUTE_DOWN@));
            push_piece(pieces, ExecPiece { bytes: v, error: None });
            push_piece(pieces, route_exec(next_hop));
            push_piece(pieces, joined_exec(heart, none, none));
        },
        Response::Unknown => {
            push_piece(pieces, joined_exec(WORD_IDK.as_slice(), heart, none));
        },
        Response::Bye => {
            push_piece(pieces, joined_exec(WORD_CYA.as_slice(), heart, none));
        },
    }
    proof {
        assert(WORD_HII@ + heart_suffix() + Seq::<u8>::empty() =~= WORD_HII@ + heart_suffix());
        assert(WORD_OKA@ + heart_suffix() + Seq::<u8>::empty() =~= WORD_OKA@ + heart_suffix());
        assert(WORD_IDK@ + heart_suffix() + Seq::<u8>::empty() =~= WORD_IDK@ + heart_suffix());
        assert(WORD_CYA@ + heart_suffix() + Seq::<u8>::empty() =~= WORD_CYA@ + heart_suffix());
        assert(heart_suffix() + Seq::<u8>::empty() + Seq::<u8>::empty() =~= heart_suffix());
        assert(seq![ASCII_SPACE] + Seq::<u8>::empty() + Seq::<u8>::empty() =~= seq![ASCII_SPACE]);
        assert(WORD_DASH@ + Seq::<u8>::empty() + Seq::<u8>::empty() =~= WORD_DASH@);
        assert(WORD_HYG@ + seq![ASCII_SPACE] + Seq::<u8>::empty() =~= lead(WORD_HYG@));
        assert(WORD_UMM@ + seq![ASCII_SPACE] + Seq::<u8>::empty() =~= lead(WORD_UMM@));
        assert(WORD_IAM@ + seq![ASCII_SPACE] + Seq::<u8>::empty() =~= status_prefix());
        match body@ {
            Response::Value { level, .. } => {
                assert(seq![ASCII_SPACE] + spec_level_word(level) + heart_suffix() =~= tail1(
                    spec_level_word(level),
                ) + heart_suffix());
            },
            Response::State { what, value, .. } => {
                assert(seq![ASCII_SPACE] + spec_query_word(what) + seq![ASCII_SPACE] =~= tail1(
                    spec_query_word(what),
                ) + seq![ASCII_SPACE]);
                assert(spec_query_value_word(value) + Seq::<u8>::empty() + Seq::<u8>::empty()
                    =~= spec_query_value_word(value));
            },
            Response::Error(ResponseError::Target { reason, .. }) => {
                assert(seq![ASCII_SPACE] + spec_reason_word(reason) + heart_suffix() =~= tail1(
                    spec_reason_word(reason),
                ) + heart_suffix());
            },
            _ => {},
        }
    }
    assert(piece_views(pieces@) =~= before + spec_response_pieces(body@));
}

/// Encodes a response packet sent from `source` into `out`.
pub fn encode_response(packet: Packet<Response<&[u8], &[u8]>>, source: &[u8], out: &mut [u8]) -> (res:
    Result<usize, EncodeError>)
    ensures
        (final(out)@, res) == encoded(
            message_pieces(packet.id.value(), source@, spec_response_pieces(packet.body@)),
            old(out)@,
        ),
{
    let mut pieces: Vec<ExecPiece> = Vec::new();
    push_message_head(&mut pieces, packet.id, source);
    push_response_pieces(&mut pieces, packet.body);
    push_message_tail(&mut pieces);
    assert(piece_views(pieces@) =~= message_pieces(
        packet.id.value(),
        source@,
        spec_response_pieces(packet.body@),
    ));
    run_pieces(&pieces, out)
}

} // verus!
