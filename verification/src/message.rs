use vstd::prelude::*;

use crate::ascii::{spec_valid_route_token, valid_route_token, ASCII_NEWLINE, ASCII_SPACE};
use crate::line::MAX_PACKET_LEN;
use crate::numbers::{decimal3, parse_packet_id, spec_decimal3, spec_parse_packet_id};
use crate::request_id::RequestId;
use crate::tokens::{next_token, spec_next_token, spec_trim, trim_ascii};

verus! {

/// A packet body together with the request identifier it answers or carries.
#[derive(Clone, Copy, Debug, PartialEq, Eq)]
pub struct Packet<T> {
    pub id: RequestId,
    pub body: T,
}

impl<T: View> View for Packet<T> {
    type V = Packet<T::V>;

    open spec fn view(&self) -> Packet<T::V> {
        Packet { id: self.id, body: self.body@ }
    }
}

/// A routed line split into its identifier, route token and opaque body.
#[derive(Clone, Copy, Debug, PartialEq, Eq)]
pub struct Message<'a> {
    pub id: RequestId,
    pub route: &'a [u8],
    pub body: &'a [u8],
}

#[derive(Clone, Copy, Debug, PartialEq, Eq, Structural)]
pub enum DecodeErrorKind {
    Malformed,
    UnknownCommand,
}

/// A line that could not be decoded, with its identifier when that much was read.
#[derive(Clone, Copy, Debug, PartialEq, Eq, Structural)]
pub struct DecodeError {
    pub id: Option<RequestId>,
    pub kind: DecodeErrorKind,
}

#[derive(Clone, Copy, Debug, PartialEq, Eq, Structural)]
pub enum EncodeError {
    OutputTooSmall,
    InvalidRouteToken,
    InvalidTargetToken,
    InvalidIdentity,
}

/// What decoding a routed line yields: the identifier, route and body, or the
/// identifier read so far and why decoding stopped.
pub open spec fn spec_decode_message(line: Seq<u8>) -> Result<(u16, Seq<u8>, Seq<u8>), Option<u16>> {
    match spec_next_token(line) {
        None => Err(None),
        Some((id_token, rest)) => match spec_parse_packet_id(id_token) {
            None => Err(None),
            Some(id) => match spec_next_token(rest) {
                None => Err(Some(id)),
                Some((route, rest)) => {
                    if !spec_valid_route_token(route) || spec_trim(rest).len() == 0 {
                        Err(Some(id))
                    } else {
                        Ok((id, route, spec_trim(rest)))
                    }
                },
            },
        },
    }
}

/// Splits a routed line `ID ROUTE BODY` into its parts; the body keeps its
/// inner whitespace.
pub fn decode_message<'a>(line: &'a [u8]) -> (res: Result<Message<'a>, DecodeError>)
    ensures
        match (res, spec_decode_message(line@)) {
            (Ok(m), Ok((id, route, body))) => m.id.value() == id && m.route@ == route && m.body@
                == body,
            (Err(e), Err(id)) => e.kind == DecodeErrorKind::Malformed && match (e.id, id) {
                (Some(a), Some(b)) => a.value() == b,
                (None, None) => true,
                _ => false,
            },
            _ => false,
        },
{
    let (id_token, rest) = match next_token(line) {
        Some(pair) => pair,
        None => {
            return Err(DecodeError { id: None, kind: DecodeErrorKind::Malformed });
        },
    };
    let id = match parse_packet_id(id_token) {
        Some(id) => id,
        None => {
            return Err(DecodeError { id: None, kind: DecodeErrorKind::Malformed });
        },
    };
    let (route, rest) = match next_token(rest) {
        Some(pair) => pair,
        None => {
            return Err(DecodeError { id: Some(id), kind: DecodeErrorKind::Malformed });
        },
    };
    if !valid_route_token(route) {
        return Err(DecodeError { id: Some(id), kind: DecodeErrorKind::Malformed });
    }
    let body = trim_ascii(rest);
    if body.len() == 0 {
        return Err(DecodeError { id: Some(id), kind: DecodeErrorKind::Malformed });
    }
    Ok(Message { id, route, body })
}

/// One write of an encoder: a check that may fail, then bytes that are written
/// whole or not at all.
pub struct Piece {
    pub bytes: Seq<u8>,
    pub error: Option<EncodeError>,
}

/// Running an encoder's writes into a buffer of `cap` bytes that already holds
/// `written`: what ends up written, and the first error.
pub open spec fn spec_run(pieces: Seq<Piece>, cap: nat, written: Seq<u8>) -> (Seq<u8>, Option<EncodeError>)
    decreases pieces.len(),
{
    if pieces.len() == 0 {
        (written, None)
    } else if pieces[0].error is Some {
        (written, pieces[0].error)
    } else if written.len() + pieces[0].bytes.len() > cap {
        (written, Some(EncodeError::OutputTooSmall))
    } else {
        spec_run(pieces.drop_first(), cap, written + pieces[0].bytes)
    }
}

/// Constant bytes.
pub open spec fn bytes_piece(bytes: Seq<u8>) -> Piece {
    Piece { bytes, error: None }
}

/// A route token, refused when it is not printable ASCII without spaces.
pub open spec fn route_piece(route: Seq<u8>) -> Piece {
    Piece {
        bytes: route,
        error: if spec_valid_route_token(route) {
            None
        } else {
            Some(EncodeError::InvalidRouteToken)
        },
    }
}

/// The writes of a routed line around its body: `ID ROUTE BODY\n`.
pub open spec fn message_pieces(id: u16, route: Seq<u8>, body: Seq<Piece>) -> Seq<Piece> {
    seq![
        bytes_piece(spec_decimal3(id as nat)),
        bytes_piece(seq![ASCII_SPACE]),
        route_piece(route),
        bytes_piece(seq![ASCII_SPACE]),
    ] + body + seq![bytes_piece(seq![ASCII_NEWLINE])]
}

/// What an encoder leaves in `out` and returns, given the writes it makes.
pub open spec fn encoded(pieces: Seq<Piece>, out: Seq<u8>) -> (Seq<u8>, Result<usize, EncodeError>) {
    let cap = if out.len() < 64 {
        out.len()
    } else {
        64
    };
    let (written, error) = spec_run(pieces, cap, seq![]);
    (
        written + out.skip(written.len() as int),
        match error {
            None => Ok(written.len() as usize),
            Some(e) => Err(e),
        },
    )
}

/// An executable write of an encoder.
pub struct ExecPiece {
    pub bytes: Vec<u8>,
    pub error: Option<EncodeError>,
}

impl View for ExecPiece {
    type V = Piece;

    open spec fn view(&self) -> Piece {
        Piece { bytes: self.bytes@, error: self.error }
    }
}

pub open spec fn piece_views(v: Seq<ExecPiece>) -> Seq<Piece> {
    v.map_values(|p: ExecPiece| p@)
}

/// Pushes a write and tells what the writes then are.
pub fn push_piece(pieces: &mut Vec<ExecPiece>, p: ExecPiece)
    ensures
        piece_views(final(pieces)@) == piece_views(old(pieces)@).push(p@),
{
    let ghost v = p@;
    pieces.push(p);
    assert(piece_views(pieces@) =~= piece_views(old(pieces)@).push(v));
}

/// A copy of `s`.
pub fn copy_bytes(s: &[u8]) -> (res: Vec<u8>)
    ensures
        res@ == s@,
{
    let mut v: Vec<u8> = Vec::new();
    let mut i: usize = 0;
    while i < s.len()
        invariant
            i <= s@.len(),
            v@ == s@.take(i as int),
        decreases s@.len() - i,
    {
        v.push(s[i]);
        assert(s@.take(i + 1) =~= s@.take(i as int).push(s@[i as int]));
        i = i + 1;
    }
    assert(s@.take(s@.len() as int) =~= s@);
    v
}

/// Appends the bytes of `s` to `v`.
pub fn push_bytes(v: &mut Vec<u8>, s: &[u8])
    ensures
        final(v)@ == old(v)@ + s@,
{
    let mut i: usize = 0;
    while i < s.len()
        invariant
            i <= s@.len(),
            v@ == old(v)@ + s@.take(i as int),
        decreases s@.len() - i,
    {
        v.push(s[i]);
        assert(s@.take(i + 1) =~= s@.take(i as int).push(s@[i as int]));
        i = i + 1;
    }
    assert(s@.take(s@.len() as int) =~= s@);
}

pub fn bytes_exec(s: &[u8]) -> (p: ExecPiece)
    ensures
        p@ == bytes_piece(s@),
{
    ExecPiece { bytes: copy_bytes(s), error: None }
}

pub fn route_exec(route: &[u8]) -> (p: ExecPiece)
    ensures
        p@ == route_piece(route@),
{
    let error = if valid_route_token(route) {
        None
    } else {
        Some(EncodeError::InvalidRouteToken)
    };
    ExecPiece { bytes: copy_bytes(route), error }
}

/// Appends the writes of the message envelope before the body.
pub fn push_message_head(pieces: &mut Vec<ExecPiece>, id: RequestId, route: &[u8])
    ensures
        piece_views(final(pieces)@) == piece_views(old(pieces)@) + seq![
            bytes_piece(spec_decimal3(id.value() as nat)),
            bytes_piece(seq![ASCII_SPACE]),
            route_piece(route@),
            bytes_piece(seq![ASCII_SPACE]),
        ],
{
    let ghost before = piece_views(pieces@);
    push_piece(pieces, ExecPiece { bytes: decimal3(id.get()), error: None });
    let space_array = [ASCII_SPACE];
    let space = space_array.as_slice();
    assert(space@ =~= seq![ASCII_SPACE]);
    push_piece(pieces, bytes_exec(space));
    push_piece(pieces, route_exec(route));
    push_piece(pieces, bytes_exec(space));
    assert(piece_views(pieces@) =~= before + seq![
        bytes_piece(spec_decimal3(id.value() as nat)),
        bytes_piece(seq![ASCII_SPACE]),
        route_piece(route@),
        bytes_piece(seq![ASCII_SPACE]),
    ]);
}

/// Appends the final newline write.
pub fn push_message_tail(pieces: &mut Vec<ExecPiece>)
    ensures
        piece_views(final(pieces)@) == piece_views(old(pieces)@) + seq![bytes_piece(seq![ASCII_NEWLINE])],
{
    let ghost before = piece_views(pieces@);
    let newline_array = [ASCII_NEWLINE];
    let newline = newline_array.as_slice();
    assert(newline@ =~= seq![ASCII_NEWLINE]);
    push_piece(pieces, bytes_exec(newline));
    assert(piece_views(pieces@) =~= before + seq![bytes_piece(seq![ASCII_NEWLINE])]);
}

/// Runs the writes into `out`, at most `MAX_PACKET_LEN` bytes of it.
pub fn run_pieces(pieces: &Vec<ExecPiece>, out: &mut [u8]) -> (res: Result<usize, EncodeError>)
    ensures
        (final(out)@, res) == encoded(piece_views(pieces@), old(out)@),
{
    let cap: usize = if out.len() < MAX_PACKET_LEN {
        out.len()
    } else {
        MAX_PACKET_LEN
    };
    let ghost all = piece_views(pieces@);
    let mut written: Vec<u8> = Vec::new();
    let mut error: Option<EncodeError> = None;
    let mut i: usize = 0;
    assert(all.skip(0) =~= all);
    while i < pieces.len() && error.is_none()
        invariant
            i <= pieces@.len(),
            all == piece_views(pieces@),
            all.len() == pieces@.len(),
            cap <= 64,
            written@.len() <= cap,
            spec_run(all, cap as nat, seq![]) == (if error is None {
                spec_run(all.skip(i as int), cap as nat, written@)
            } else {
                (written@, error)
            }),
        decreases pieces@.len() - i + (if error is None {
            1int
        } else {
            0int
        }),
    {
        let piece = &pieces[i];
        proof {
            assert(all.skip(i as int)[0] == piece@);
            assert(all.skip(i as int).drop_first() =~= all.skip(i + 1));
        }
        if let Some(e) = piece.error {
            error = Some(e);
        } else if piece.bytes.len() > cap - written.len() {
            error = Some(EncodeError::OutputTooSmall);
        } else {
            let ghost before = written@;
            let mut k: usize = 0;
            while k < piece.bytes.len()
                invariant
                    k <= piece.bytes@.len(),
                    written@ == before + piece.bytes@.take(k as int),
                decreases piece.bytes@.len() - k,
            {
                written.push(piece.bytes[k]);
                assert(piece.bytes@.take(k + 1) =~= piece.bytes@.take(k as int).push(
                    piece.bytes@[k as int],
                ));
                k = k + 1;
            }
            assert(piece.bytes@.take(piece.bytes@.len() as int) =~= piece.bytes@);
            i = i + 1;
        }
    }
    proof {
        if error is None {
            assert(all.skip(i as int) =~= Seq::<Piece>::empty());
        }
    }
    let ghost result = spec_run(all, cap as nat, seq![]);
    assert(written@ == result.0 && error == result.1);
    let mut j: usize = 0;
    while j < written.len()
        invariant
            j <= written@.len() <= cap <= out@.len(),
            out@.len() == old(out)@.len(),
            out@ == written@.take(j as int) + old(out)@.skip(j as int),
        decreases written@.len() - j,
    {
        out[j] = written[j];
        assert(out@ =~= written@.take(j + 1) + old(out)@.skip(j + 1));
        j = j + 1;
    }
    assert(written@.take(written@.len() as int) =~= written@);
    match error {
        None => Ok(written.len()),
        Some(e) => Err(e),
    }
}

/// Encodes a routed line with an opaque body.
pub fn encode_message(message: Message<'_>, out: &mut [u8]) -> (res: Result<usize, EncodeError>)
    ensures
        (final(out)@, res) == encoded(
            message_pieces(message.id.value(), message.route@, seq![bytes_piece(message.body@)]),
            old(out)@,
        ),
{
    let mut pieces: Vec<ExecPiece> = Vec::new();
    push_message_head(&mut pieces, message.id, message.route);
    let ghost head = piece_views(pieces@);
    push_piece(&mut pieces, bytes_exec(message.body));
    assert(piece_views(pieces@) =~= head + seq![bytes_piece(message.body@)]);
    push_message_tail(&mut pieces);
    assert(piece_views(pieces@) =~= message_pieces(
        message.id.value(),
        message.route@,
        seq![bytes_piece(message.body@)],
    ));
    run_pieces(&pieces, out)
}

} // verus!
