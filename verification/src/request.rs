use vstd::prelude::*;

use crate::ascii::{bytes_eq, spec_valid_target_token, valid_target_token, ASCII_SPACE};
use crate::message::{
    bytes_piece, copy_bytes, encoded, message_pieces, piece_views, push_message_head,
    push_message_tail, push_piece, run_pieces, DecodeError, DecodeErrorKind, EncodeError,
    ExecPiece, Packet, Piece, push_bytes,
};
use crate::tokens::{spec_tokens, split_tokens, views};
use crate::values::{
    parse_enabled, spec_direction_word, spec_enabled_word, spec_level_word, spec_parse_direction,
    spec_parse_enabled, spec_parse_level, spec_parse_query, spec_query_word, Direction, Level,
    Query,
};
use crate::words::{
    WORD_BYE, WORD_DIR, WORD_GET, WORD_HAI, WORD_HIGH, WORD_HRU, WORD_IN, WORD_LOW, WORD_LSN,
    WORD_MAP, WORD_OFF, WORD_OK, WORD_ON, WORD_OUT, WORD_PLL, WORD_SET, WORD_WYD,
};

verus! {

/// A host request; `T` is how a pin target is named.
#[derive(Clone, Copy, Debug, PartialEq, Eq, Structural)]
pub enum Request<T> {
    Hello,
    Status,
    PinMap,
    Direction { target: T, direction: Direction },
    Get { target: T },
    SetLevel { target: T, level: Level },
    Pullup { target: T, enabled: bool },
    Listen { target: T, enabled: bool },
    Query { target: T, what: Query },
    Bye,
}

impl<T: View> View for Request<T> {
    type V = Request<T::V>;

    open spec fn view(&self) -> Request<T::V> {
        match *self {
            Request::Hello => Request::Hello,
            Request::Status => Request::Status,
            Request::PinMap => Request::PinMap,
            Request::Direction { target, direction } => Request::Direction {
                target: target@,
                direction,
            },
            Request::Get { target } => Request::Get { target: target@ },
            Request::SetLevel { target, level } => Request::SetLevel { target: target@, level },
            Request::Pullup { target, enabled } => Request::Pullup { target: target@, enabled },
            Request::Listen { target, enabled } => Request::Listen { target: target@, enabled },
            Request::Query { target, what } => Request::Query { target: target@, what },
            Request::Bye => Request::Bye,
        }
    }
}

/// A request as decoded from the wire, naming its target by token.
pub type DecodedRequest<'a> = Request<&'a [u8]>;

/// The target a request names, if it names one.
pub open spec fn request_target<T>(r: Request<T>) -> Option<T> {
    match r {
        Request::Direction { target, .. } => Some(target),
        Request::Get { target } => Some(target),
        Request::SetLevel { target, .. } => Some(target),
        Request::Pullup { target, .. } => Some(target),
        Request::Listen { target, .. } => Some(target),
        Request::Query { target, .. } => Some(target),
        _ => None,
    }
}

/// `a` and `b` are the same request apart from their targets.
pub open spec fn same_shape<T, U>(a: Request<T>, b: Request<U>) -> bool {
    match (a, b) {
        (Request::Hello, Request::Hello) => true,
        (Request::Status, Request::Status) => true,
        (Request::PinMap, Request::PinMap) => true,
        (Request::Bye, Request::Bye) => true,
        (Request::Direction { direction: x, .. }, Request::Direction { direction: y, .. }) => x
            == y,
        (Request::Get { .. }, Request::Get { .. }) => true,
        (Request::SetLevel { level: x, .. }, Request::SetLevel { level: y, .. }) => x == y,
        (Request::Pullup { enabled: x, .. }, Request::Pullup { enabled: y, .. }) => x == y,
        (Request::Listen { enabled: x, .. }, Request::Listen { enabled: y, .. }) => x == y,
        (Request::Query { what: x, .. }, Request::Query { what: y, .. }) => x == y,
        _ => false,
    }
}

impl<T> Request<T> {
    /// The same request with its target, if any, mapped through `map`.
    pub fn map_target<U, F: FnOnce(T) -> U>(self, map: F) -> (res: Request<U>)
        requires
            request_target(self) matches Some(t) ==> call_requires(map, (t,)),
        ensures
            same_shape(self, res),
            request_target(self) matches Some(t) ==> request_target(res) matches Some(u)
                && call_ensures(map, (t,), u),
    {
        match self {
            Request::Hello => Request::Hello,
            Request::Status => Request::Status,
            Request::PinMap => Request::PinMap,
            Request::Direction { target, direction } => Request::Direction {
                target: map(target),
                direction,
            },
            Request::Get { target } => Request::Get { target: map(target) },
            Request::SetLevel { target, level } => Request::SetLevel { target: map(target), level },
            Request::Pullup { target, enabled } => Request::Pullup { target: map(target), enabled },
            Request::Listen { target, enabled } => Request::Listen { target: map(target), enabled },
            Request::Query { target, what } => Request::Query { target: map(target), what },
            Request::Bye => Request::Bye,
        }
    }

    /// The same request with its target, if any, mapped through `map`, or the
    /// first error `map` returns.
    pub fn try_map_target<U, E, F: FnOnce(T) -> Result<U, E>>(self, map: F) -> (res: Result<
        Request<U>,
        E,
    >)
        requires
            request_target(self) matches Some(t) ==> call_requires(map, (t,)),
        ensures
            match res {
                Ok(r) => same_shape(self, r) && (request_target(self) matches Some(t)
                    ==> request_target(r) matches Some(u) && call_ensures(map, (t,), Ok::<U, E>(u))),
                Err(e) => request_target(self) matches Some(t) && call_ensures(
                    map,
                    (t,),
                    Err::<U, E>(e),
                ),
            },
    {
        match self {
            Request::Hello => Ok(Request::Hello),
            Request::Status => Ok(Request::Status),
            Request::PinMap => Ok(Request::PinMap),
            Request::Direction { target, direction } => {
                let target = map(target)?;
                Ok(Request::Direction { target, direction })
            },
            Request::Get { target } => {
                let target = map(target)?;
                Ok(Request::Get { target })
            },
            Request::SetLevel { target, level } => {
                let target = map(target)?;
                Ok(Request::SetLevel { target, level })
            },
            Request::Pullup { target, enabled } => {
                let target = map(target)?;
                Ok(Request::Pullup { target, enabled })
            },
            Request::Listen { target, enabled } => {
                let target = map(target)?;
                Ok(Request::Listen { target, enabled })
            },
            Request::Query { target, what } => {
                let target = map(target)?;
                Ok(Request::Query { target, what })
            },
            Request::Bye => Ok(Request::Bye),
        }
    }
}

/// The request a body's words spell, or why they spell none.
pub open spec fn spec_decode_request_words(ts: Seq<Seq<u8>>) -> Result<Request<Seq<u8>>, DecodeErrorKind> {
    if ts.len() == 0 {
        Err(DecodeErrorKind::Malformed)
    } else {
        let c = ts[0];
        if c == WORD_HAI@ || c == WORD_HRU@ || c == WORD_MAP@ || c == WORD_BYE@ {
            if ts.len() != 1 {
                Err(DecodeErrorKind::Malformed)
            } else if c == WORD_HAI@ {
                Ok(Request::Hello)
            } else if c == WORD_HRU@ {
                Ok(Request::Status)
            } else if c == WORD_MAP@ {
                Ok(Request::PinMap)
            } else {
                Ok(Request::Bye)
            }
        } else if c == WORD_DIR@ {
            if ts.len() == 4 && spec_valid_target_token(ts[1]) && spec_parse_direction(ts[2]) is Some
                && ts[3] == WORD_OK@ {
                Ok(Request::Direction { target: ts[1], direction: spec_parse_direction(ts[2]).unwrap() })
            } else {
                Err(DecodeErrorKind::Malformed)
            }
        } else if c == WORD_GET@ {
            if ts.len() == 3 && spec_valid_target_token(ts[1]) && ts[2] == WORD_OK@ {
                Ok(Request::Get { target: ts[1] })
            } else {
                Err(DecodeErrorKind::Malformed)
            }
        } else if c == WORD_SET@ {
            if ts.len() == 4 && spec_valid_target_token(ts[1]) && spec_parse_level(ts[2]) is Some
                && ts[3] == WORD_OK@ {
                Ok(Request::SetLevel { target: ts[1], level: spec_parse_level(ts[2]).unwrap() })
            } else {
                Err(DecodeErrorKind::Malformed)
            }
        } else if c == WORD_PLL@ || c == WORD_LSN@ {
            if ts.len() == 4 && spec_valid_target_token(ts[1]) && spec_parse_enabled(ts[2]) is Some
                && ts[3] == WORD_OK@ {
                if c == WORD_PLL@ {
                    Ok(Request::Pullup { target: ts[1], enabled: spec_parse_enabled(ts[2]).unwrap() })
                } else {
                    Ok(Request::Listen { target: ts[1], enabled: spec_parse_enabled(ts[2]).unwrap() })
                }
            } else {
                Err(DecodeErrorKind::Malformed)
            }
        } else if c == WORD_WYD@ {
            if ts.len() == 3 && spec_valid_target_token(ts[1]) && spec_parse_query(ts[2]) is Some {
                Ok(Request::Query { target: ts[1], what: spec_parse_query(ts[2]).unwrap() })
            } else {
                Err(DecodeErrorKind::Malformed)
            }
        } else {
            Err(DecodeErrorKind::UnknownCommand)
        }
    }
}

/// Whether a word is one of the request commands.
pub open spec fn is_request_command(c: Seq<u8>) -> bool {
    ||| c == WORD_HAI@
    ||| c == WORD_HRU@
    ||| c == WORD_MAP@
    ||| c == WORD_BYE@
    ||| c == WORD_DIR@
    ||| c == WORD_GET@
    ||| c == WORD_SET@
    ||| c == WORD_PLL@
    ||| c == WORD_LSN@
    ||| c == WORD_WYD@
}

/// A body is refused as an unknown command exactly when it has a first word
/// and that word is none of the request commands: a known command that is
/// badly formed is refused as malformed.
pub proof fn lemma_unknown_command_only_for_unknown_words(ts: Seq<Seq<u8>>)
    ensures
        (spec_decode_request_words(ts) == Err::<Request<Seq<u8>>, DecodeErrorKind>(DecodeErrorKind::UnknownCommand))
            <==> (ts.len() > 0 && !is_request_command(ts[0])),
        ts.len() > 0 && is_request_command(ts[0]) ==> match spec_decode_request_words(ts) {
            Ok(_) => true,
            Err(kind) => kind == DecodeErrorKind::Malformed,
        },
{
}

/// Decodes the body of a request packet; errors keep the packet's identifier.
pub fn decode_request<'a>(packet: Packet<&'a [u8]>) -> (res: Result<Packet<DecodedRequest<'a>>, DecodeError>)
    ensures
        match res {
            Ok(p) => p.id == packet.id && spec_decode_request_words(spec_tokens(packet.body@))
                == Ok::<Request<Seq<u8>>, DecodeErrorKind>(p.body@),
            Err(e) => e.id == Some(packet.id) && spec_decode_request_words(
                spec_tokens(packet.body@),
            ) == Err::<Request<Seq<u8>>, DecodeErrorKind>(e.kind),
        },
{
    let id = packet.id;
    let ts = split_tokens(packet.body);
    let ghost words = views(ts@);
    assert(words.len() == ts@.len());
    let malformed = DecodeError { id: Some(id), kind: DecodeErrorKind::Malformed };
    if ts.len() == 0 {
        return Err(malformed);
    }
    let c: &'a [u8] = ts[0];
    assert(words[0] == c@);
    let n = ts.len();
    let body: DecodedRequest<'a> = if bytes_eq(c, WORD_HAI.as_slice()) || bytes_eq(
        c,
        WORD_HRU.as_slice(),
    ) || bytes_eq(c, WORD_MAP.as_slice()) || bytes_eq(c, WORD_BYE.as_slice()) {
        if n != 1 {
            return Err(malformed);
        }
        if bytes_eq(c, WORD_HAI.as_slice()) {
            Request::Hello
        } else if bytes_eq(c, WORD_HRU.as_slice()) {
            Request::Status
        } else if bytes_eq(c, WORD_MAP.as_slice()) {
            Request::PinMap
        } else {
            Request::Bye
        }
    } else if bytes_eq(c, WORD_DIR.as_slice()) {
        if n != 4 || !valid_target_token(ts[1]) || !bytes_eq(ts[3], WORD_OK.as_slice()) {
            return Err(malformed);
        }
        assert(words[1] == ts@[1]@ && words[2] == ts@[2]@ && words[3] == ts@[3]@);
        match Direction::parse_token(ts[2]) {
            Ok(direction) => Request::Direction { target: ts[1], direction },
            Err(_) => {
                return Err(malformed);
            },
        }
    } else if bytes_eq(c, WORD_GET.as_slice()) {
        if n != 3 || !valid_target_token(ts[1]) || !bytes_eq(ts[2], WORD_OK.as_slice()) {
            return Err(malformed);
        }
        assert(words[1] == ts@[1]@ && words[2] == ts@[2]@);
        Request::Get { target: ts[1] }
    } else if bytes_eq(c, WORD_SET.as_slice()) {
        if n != 4 || !valid_target_token(ts[1]) || !bytes_eq(ts[3], WORD_OK.as_slice()) {
            return Err(malformed);
        }
        assert(words[1] == ts@[1]@ && words[2] == ts@[2]@ && words[3] == ts@[3]@);
        match Level::parse_token(ts[2]) {
            Ok(level) => Request::SetLevel { target: ts[1], level },
            Err(_) => {
                return Err(malformed);
            },
        }
    } else if bytes_eq(c, WORD_PLL.as_slice()) || bytes_eq(c, WORD_LSN.as_slice()) {
        if n != 4 || !valid_target_token(ts[1]) || !bytes_eq(ts[3], WORD_OK.as_slice()) {
            return Err(malformed);
        }
        assert(words[1] == ts@[1]@ && words[2] == ts@[2]@ && words[3] == ts@[3]@);
        match parse_enabled(ts[2]) {
            Some(enabled) => {
                if bytes_eq(c, WORD_PLL.as_slice()) {
                    Request::Pullup { target: ts[1], enabled }
                } else {
                    Request::Listen { target: ts[1], enabled }
                }
            },
            None => {
                return Err(malformed);
            },
        }
    } else if bytes_eq(c, WORD_WYD.as_slice()) {
        if n != 3 || !valid_target_token(ts[1]) {
            return Err(malformed);
        }
        assert(words[1] == ts@[1]@ && words[2] == ts@[2]@);
        match Query::parse_token(ts[2]) {
            Ok(what) => Request::Query { target: ts[1], what },
            Err(_) => {
                return Err(malformed);
            },
        }
    } else {
        return Err(DecodeError { id: Some(id), kind: DecodeErrorKind::UnknownCommand });
    };
    Ok(Packet { id, body })
}

/// A target token, refused when it is not a well-formed target.
pub open spec fn target_piece(target: Seq<u8>) -> Piece {
    Piece {
        bytes: target,
        error: if spec_valid_target_token(target) {
            None
        } else {
            Some(EncodeError::InvalidTargetToken)
        },
    }
}

/// `word` and a space, as written before a target.
pub open spec fn lead(word: Seq<u8>) -> Seq<u8> {
    word + seq![ASCII_SPACE]
}

/// A space and `word`, as written after a target.
pub open spec fn tail1(word: Seq<u8>) -> Seq<u8> {
    seq![ASCII_SPACE] + word
}

/// A space, `a`, a space and `b`.
pub open spec fn tail2(a: Seq<u8>, b: Seq<u8>) -> Seq<u8> {
    seq![ASCII_SPACE] + a + seq![ASCII_SPACE] + b
}

/// The writes that encode a request body.
pub open spec fn spec_request_pieces(r: Request<Seq<u8>>) -> Seq<Piece> {
    match r {
        Request::Hello => seq![bytes_piece(WORD_HAI@)],
        Request::Status => seq![bytes_piece(WORD_HRU@)],
        Request::PinMap => seq![bytes_piece(WORD_MAP@)],
        Request::Direction { target, direction } => seq![
            bytes_piece(lead(WORD_DIR@)),
            target_piece(target),
            bytes_piece(tail2(spec_direction_word(direction), WORD_OK@)),
        ],
        Request::Get { target } => seq![
            bytes_piece(lead(WORD_GET@)),
            target_piece(target),
            bytes_piece(tail1(WORD_OK@)),
        ],
        Request::SetLevel { target, level } => seq![
            bytes_piece(lead(WORD_SET@)),
            target_piece(target),
            bytes_piece(tail2(spec_level_word(level), WORD_OK@)),
        ],
        Request::Pullup { target, enabled } => seq![
            bytes_piece(lead(WORD_PLL@)),
            target_piece(target),
            bytes_piece(tail2(spec_enabled_word(enabled), WORD_OK@)),
        ],
        Request::Listen { target, enabled } => seq![
            bytes_piece(lead(WORD_LSN@)),
            target_piece(target),
            bytes_piece(tail2(spec_enabled_word(enabled), WORD_OK@)),
        ],
        Request::Query { target, what } => seq![
            bytes_piece(lead(WORD_WYD@)),
            target_piece(target),
            bytes_piece(tail1(spec_query_word(what))),
        ],
        Request::Bye => seq![bytes_piece(WORD_BYE@)],
    }
}

pub fn target_exec(target: &[u8]) -> (p: ExecPiece)
    ensures
        p@ == target_piece(target@),
{
    let error = if valid_target_token(target) {
        None
    } else {
        Some(EncodeError::InvalidTargetToken)
    };
    ExecPiece { bytes: copy_bytes(target), error }
}

pub fn lead_exec(word: &[u8]) -> (p: ExecPiece)
    ensures
        p@ == bytes_piece(lead(word@)),
{
    let mut v: Vec<u8> = Vec::new();
    push_bytes(&mut v, word);
    v.push(ASCII_SPACE);
    assert(v@ =~= lead(word@));
    ExecPiece { bytes: v, error: None }
}

pub fn tail1_exec(word: &[u8]) -> (p: ExecPiece)
    ensures
        p@ == bytes_piece(tail1(word@)),
{
    let mut v: Vec<u8> = Vec::new();
    v.push(ASCII_SPACE);
    push_bytes(&mut v, word);
    assert(v@ =~= tail1(word@));
    ExecPiece { bytes: v, error: None }
}

pub fn tail2_exec(a: &[u8], b: &[u8]) -> (p: ExecPiece)
    ensures
        p@ == bytes_piece(tail2(a@, b@)),
{
    let mut v: Vec<u8> = Vec::new();
    v.push(ASCII_SPACE);
    push_bytes(&mut v, a);
    v.push(ASCII_SPACE);
    push_bytes(&mut v, b);
    assert(v@ =~= tail2(a@, b@));
    ExecPiece { bytes: v, error: None }
}

fn direction_word(d: Direction) -> (r: &'static [u8])
    ensures
        r@ == spec_direction_word(d),
{
    match d {
        Direction::Input => WORD_IN.as_slice(),
        Direction::Output => WORD_OUT.as_slice(),
    }
}

fn level_word(l: Level) -> (r: &'static [u8])
    ensures
        r@ == spec_level_word(l),
{
    match l {
        Level::Low => WORD_LOW.as_slice(),
        Level::High => WORD_HIGH.as_slice(),
    }
}

fn enabled_word(enabled: bool) -> (r: &'static [u8])
    ensures
        r@ == spec_enabled_word(enabled),
{
    if enabled {
        WORD_ON.as_slice()
    } else {
        WORD_OFF.as_slice()
    }
}

fn query_word(q: Query) -> (r: &'static [u8])
    ensures
        r@ == spec_query_word(q),
{
    match q {
        Query::Direction => WORD_DIR.as_slice(),
        Query::Pullup => WORD_PLL.as_slice(),
        Query::Listen => WORD_LSN.as_slice(),
    }
}

/// Appends the writes of a request body.
fn push_request_pieces(pieces: &mut Vec<ExecPiece>, body: Request<&[u8]>)
    ensures
        piece_views(final(pieces)@) == piece_views(old(pieces)@) + spec_request_pieces(body@),
{
    let ghost before = piece_views(pieces@);
    match body {
        Request::Hello => push_piece(pieces, ExecPiece { bytes: copy_bytes(WORD_HAI.as_slice()), error: None }),
        Request::Status => push_piece(pieces, ExecPiece { bytes: copy_bytes(WORD_HRU.as_slice()), error: None }),
        Request::PinMap => push_piece(pieces, ExecPiece { bytes: copy_bytes(WORD_MAP.as_slice()), error: None }),
        Request::Bye => push_piece(pieces, ExecPiece { bytes: copy_bytes(WORD_BYE.as_slice()), error: None }),
        Request::Direction { target, direction } => {
            push_piece(pieces, lead_exec(WORD_DIR.as_slice()));
            push_piece(pieces, target_exec(target));
            push_piece(pieces, tail2_exec(direction_word(direction), WORD_OK.as_slice()));
        },
        Request::Get { target } => {
            push_piece(pieces, lead_exec(WORD_GET.as_slice()));
            push_piece(pieces, target_exec(target));
            push_piece(pieces, tail1_exec(WORD_OK.as_slice()));
        },
        Request::SetLevel { target, level } => {
            push_piece(pieces, lead_exec(WORD_SET.as_slice()));
            push_piece(pieces, target_exec(target));
            push_piece(pieces, tail2_exec(level_word(level), WORD_OK.as_slice()));
        },
        Request::Pullup { target, enabled } => {
            push_piece(pieces, lead_exec(WORD_PLL.as_slice()));
            push_piece(pieces, target_exec(target));
            push_piece(pieces, tail2_exec(enabled_word(enabled), WORD_OK.as_slice()));
        },
        Request::Listen { target, enabled } => {
            push_piece(pieces, lead_exec(WORD_LSN.as_slice()));
            push_piece(pieces, target_exec(target));
            push_piece(pieces, tail2_exec(enabled_word(enabled), WORD_OK.as_slice()));
        },
        Request::Query { target, what } => {
            push_piece(pieces, lead_exec(WORD_WYD.as_slice()));
            push_piece(pieces, target_exec(target));
            push_piece(pieces, tail1_exec(query_word(what)));
        },
    }
    assert(piece_views(pieces@) =~= before + spec_request_pieces(body@));
}

/// Encodes a request packet routed to `destination` into `out`.
pub fn encode_request(packet: Packet<Request<&[u8]>>, destination: &[u8], out: &mut [u8]) -> (res:
    Result<usize, EncodeError>)
    ensures
        (final(out)@, res) == encoded(
            message_pieces(packet.id.value(), destination@, spec_request_pieces(packet.body@)),
            old(out)@,
        ),
{
    let mut pieces: Vec<ExecPiece> = Vec::new();
    push_message_head(&mut pieces, packet.id, destination);
    push_request_pieces(&mut pieces, packet.body);
    push_message_tail(&mut pieces);
    assert(piece_views(pieces@) =~= message_pieces(
        packet.id.value(),
        destination@,
        spec_request_pieces(packet.body@),
    ));
    run_pieces(&pieces, out)
}

} // verus!
