use vstd::prelude::*;

use crate::ascii::{
    spec_is_digit, spec_is_space, spec_valid_route_token, spec_valid_target_token,
    ASCII_NEWLINE, ASCII_SPACE,
};
use crate::message::{
    bytes_piece, encoded, message_pieces, route_piece, spec_decode_message, spec_run,
    DecodeErrorKind, Piece,
};
use crate::numbers::{
    all_digits, lemma_decimal3_round_trip, lemma_decimal_round_trip, spec_decimal,
    spec_decimal3, spec_parse_decimal,
};
use crate::request::{lead, spec_decode_request_words, spec_request_pieces, tail1, tail2, Request};
use crate::connection::{
    announced_pins, feed_banks, feed_pins, lemma_discovery_rebuilds_announced_map,
    lemma_index_of, spec_index_of, BankKey, BuilderView, PinInfoView, PinRefusal, RouteKey,
};
use crate::gpio::{map_pin_response, map_wf, BankInfo, PinMapView};
use crate::request_id::RequestId;
use vstd::string::StringSliceAdditionalSpecFns;
use crate::response::{
    heart_suffix, spec_decode_response_body, spec_query_value_word, spec_reason_word,
    spec_response_pieces, status_prefix, Response, ResponseError,
};
use crate::tokens::{
    is_word, join_words, lemma_join_ends, lemma_leading_spaces, lemma_leading_word,
    lemma_tokens_after_word, lemma_tokens_of_join, lemma_trailing_spaces, spec_tokens,
};
use crate::values::{
    spec_direction_word, spec_enabled_word, spec_level_word, spec_query_word, PinCapabilities,
    Query, QueryValue,
};
use crate::words::{
    WORD_BAD_PACKET, WORD_BANK, WORD_BYE, WORD_CYA, WORD_DASH, WORD_DIR, WORD_GET, WORD_HAI,
    WORD_HEART, WORD_HII, WORD_HRU, WORD_HYG, WORD_IAM, WORD_IDK, WORD_LSN, WORD_MAP,
    WORD_NO_ROUTE, WORD_OK, WORD_OKA, WORD_PIN, WORD_PLL, WORD_ROUTE_BUSY, WORD_ROUTE_DOWN,
    WORD_SET, WORD_UMM, WORD_WYD,
};

verus! {

/// The bytes of all writes, in order.
pub open spec fn all_bytes(pieces: Seq<Piece>) -> Seq<u8>
    decreases pieces.len(),
{
    if pieces.len() == 0 {
        seq![]
    } else {
        pieces[0].bytes + all_bytes(pieces.drop_first())
    }
}

proof fn lemma_all_bytes_concat(a: Seq<Piece>, b: Seq<Piece>)
    ensures
        all_bytes(a + b) == all_bytes(a) + all_bytes(b),
    decreases a.len(),
{
    if a.len() == 0 {
        assert(a + b =~= b);
        assert(Seq::<u8>::empty() + all_bytes(b) =~= all_bytes(b));
    } else {
        lemma_all_bytes_concat(a.drop_first(), b);
        assert((a + b).drop_first() =~= a.drop_first() + b);
        assert((a + b)[0] == a[0]);
        assert(a[0].bytes + (all_bytes(a.drop_first()) + all_bytes(b)) =~= (a[0].bytes
            + all_bytes(a.drop_first())) + all_bytes(b));
    }
}

/// A run that meets no error writes every piece, and never more than its
/// capacity.
proof fn lemma_run_ok(pieces: Seq<Piece>, cap: nat, written: Seq<u8>)
    requires
        spec_run(pieces, cap, written).1 is None,
        written.len() <= cap,
    ensures
        spec_run(pieces, cap, written).0 == written + all_bytes(pieces),
        spec_run(pieces, cap, written).0.len() <= cap,
        forall|i: int| 0 <= i < pieces.len() ==> (#[trigger] pieces[i]).error is None,
    decreases pieces.len(),
{
    if pieces.len() == 0 {
        assert(written + Seq::<u8>::empty() =~= written);
    } else {
        lemma_run_ok(pieces.drop_first(), cap, written + pieces[0].bytes);
        assert(written + pieces[0].bytes + all_bytes(pieces.drop_first()) =~= written + all_bytes(
            pieces,
        ));
        assert forall|i: int| 0 <= i < pieces.len() implies (#[trigger] pieces[i]).error is None by {
            if i > 0 {
                assert(pieces[i] == pieces.drop_first()[i - 1]);
            }
        }
    }
}

/// An encoder that succeeds leaves exactly the bytes of its writes at the
/// front of the buffer, and none of its checks failed.
proof fn lemma_encoded_ok(pieces: Seq<Piece>, out: Seq<u8>)
    requires
        encoded(pieces, out).1 is Ok,
    ensures
        encoded(pieces, out).0.take(encoded(pieces, out).1.unwrap() as int) == all_bytes(pieces),
        forall|i: int| 0 <= i < pieces.len() ==> (#[trigger] pieces[i]).error is None,
{
    let cap: nat = if out.len() < 64 {
        out.len()
    } else {
        64
    };
    lemma_run_ok(pieces, cap, seq![]);
    let written = spec_run(pieces, cap, seq![]).0;
    assert(Seq::<u8>::empty() + all_bytes(pieces) =~= all_bytes(pieces));
    assert((written + out.skip(written.len() as int)).take(written.len() as int) =~= written);
}

proof fn lemma_message_bytes(id: u16, route: Seq<u8>, body: Seq<Piece>)
    ensures
        all_bytes(message_pieces(id, route, body)) == spec_decimal3(id as nat) + seq![ASCII_SPACE]
            + route + seq![ASCII_SPACE] + all_bytes(body) + seq![ASCII_NEWLINE],
{
    let head = seq![
        bytes_piece(spec_decimal3(id as nat)),
        bytes_piece(seq![ASCII_SPACE]),
        route_piece(route),
        bytes_piece(seq![ASCII_SPACE]),
    ];
    let tail = seq![bytes_piece(seq![ASCII_NEWLINE])];
    lemma_all_bytes_concat(head, body);
    lemma_all_bytes_concat(head + body, tail);
    reveal_with_fuel(all_bytes, 5);
    assert(all_bytes(head) =~= spec_decimal3(id as nat) + seq![ASCII_SPACE] + route + seq![
        ASCII_SPACE,
    ]);
    assert(all_bytes(tail) =~= seq![ASCII_NEWLINE]);
    assert(all_bytes(message_pieces(id, route, body)) =~= spec_decimal3(id as nat) + seq![
        ASCII_SPACE,
    ] + route + seq![ASCII_SPACE] + all_bytes(body) + seq![ASCII_NEWLINE]);
}

/// A framed line `ID ROUTE BODY\n` decodes to its identifier, route and body
/// when the route is a route token and the body starts and ends with a
/// printable byte.
pub proof fn lemma_decode_framed_line(id: u16, route: Seq<u8>, body: Seq<u8>)
    requires
        1 <= id <= 999,
        spec_valid_route_token(route),
        body.len() > 0,
        !spec_is_space(body[0]),
        !spec_is_space(body.last()),
    ensures
        spec_decode_message(
            spec_decimal3(id as nat) + seq![ASCII_SPACE] + route + seq![ASCII_SPACE] + body + seq![
                ASCII_NEWLINE,
            ],
        ) == Ok::<(u16, Seq<u8>, Seq<u8>), Option<u16>>((id, route, body)),
{
    let d3 = spec_decimal3(id as nat);
    let rest2 = seq![ASCII_SPACE] + body + seq![ASCII_NEWLINE];
    let tail = seq![ASCII_SPACE] + route + rest2;
    let line = d3 + tail;
    assert(line =~= d3 + seq![ASCII_SPACE] + route + seq![ASCII_SPACE] + body + seq![
        ASCII_NEWLINE,
    ]);
    lemma_decimal3_round_trip(id as nat);
    assert(all_digits(d3));
    assert(spec_is_digit(line[0]));
    lemma_leading_spaces(line, 0);
    assert forall|j: int| 0 <= j < 3 implies !spec_is_space(#[trigger] line[j]) by {
        assert(spec_is_digit(d3[j]));
    }
    lemma_leading_word(line, 3);
    assert(line.skip(0) =~= line);
    assert(line.take(3) =~= d3);
    assert(line.skip(3) =~= tail);
    assert(spec_is_space(tail[0]));
    assert(tail[1] == route[0]);
    lemma_leading_spaces(tail, 1);
    let r = tail.skip(1);
    assert(r =~= route + rest2);
    assert forall|j: int| 0 <= j < route.len() implies !spec_is_space(#[trigger] r[j]) by {
        assert(r[j] == route[j]);
    }
    lemma_leading_word(r, route.len() as int);
    assert(r.take(route.len() as int) =~= route);
    assert(r.skip(route.len() as int) =~= rest2);
    assert(rest2[1] == body[0]);
    lemma_leading_spaces(rest2, 1);
    assert(rest2[rest2.len() - 2] == body.last());
    lemma_trailing_spaces(rest2, 1);
    assert(rest2.subrange(1, rest2.len() - 1) =~= body);
}

proof fn lemma_all_bytes_1(p0: Piece)
    ensures
        all_bytes(seq![p0]) == p0.bytes,
{
    reveal_with_fuel(all_bytes, 2);
    assert(p0.bytes + Seq::<u8>::empty() =~= p0.bytes);
}

proof fn lemma_all_bytes_3(p0: Piece, p1: Piece, p2: Piece)
    ensures
        all_bytes(seq![p0, p1, p2]) == p0.bytes + p1.bytes + p2.bytes,
{
    reveal_with_fuel(all_bytes, 4);
    assert(all_bytes(seq![p0, p1, p2]) =~= p0.bytes + p1.bytes + p2.bytes);
}

proof fn lemma_all_bytes_5(p0: Piece, p1: Piece, p2: Piece, p3: Piece, p4: Piece)
    ensures
        all_bytes(seq![p0, p1, p2, p3, p4]) == p0.bytes + p1.bytes + p2.bytes + p3.bytes + p4.bytes,
{
    reveal_with_fuel(all_bytes, 6);
    assert(all_bytes(seq![p0, p1, p2, p3, p4]) =~= p0.bytes + p1.bytes + p2.bytes + p3.bytes
        + p4.bytes);
}

proof fn lemma_all_bytes_11(
    p0: Piece,
    p1: Piece,
    p2: Piece,
    p3: Piece,
    p4: Piece,
    p5: Piece,
    p6: Piece,
    p7: Piece,
    p8: Piece,
    p9: Piece,
    p10: Piece,
)
    ensures
        all_bytes(seq![p0, p1, p2, p3, p4, p5, p6, p7, p8, p9, p10]) == p0.bytes + p1.bytes
            + p2.bytes + p3.bytes + p4.bytes + p5.bytes + p6.bytes + p7.bytes + p8.bytes
            + p9.bytes + p10.bytes,
{
    reveal_with_fuel(all_bytes, 12);
    assert(all_bytes(seq![p0, p1, p2, p3, p4, p5, p6, p7, p8, p9, p10]) =~= p0.bytes + p1.bytes
        + p2.bytes + p3.bytes + p4.bytes + p5.bytes + p6.bytes + p7.bytes + p8.bytes + p9.bytes
        + p10.bytes);
}

proof fn lemma_join_2(a: Seq<u8>, b: Seq<u8>)
    ensures
        join_words(seq![a, b]) == a + seq![ASCII_SPACE] + b,
{
    reveal_with_fuel(join_words, 3);
    assert(seq![a, b].drop_last() =~= seq![a]);
}

proof fn lemma_join_3(a: Seq<u8>, b: Seq<u8>, c: Seq<u8>)
    ensures
        join_words(seq![a, b, c]) == a + seq![ASCII_SPACE] + b + seq![ASCII_SPACE] + c,
{
    reveal_with_fuel(join_words, 4);
    assert(seq![a, b, c].drop_last() =~= seq![a, b]);
    assert(seq![a, b].drop_last() =~= seq![a]);
}

proof fn lemma_join_push(ws: Seq<Seq<u8>>, w: Seq<u8>)
    requires
        ws.len() > 0,
    ensures
        join_words(ws.push(w)) == join_words(ws) + seq![ASCII_SPACE] + w,
{
    assert(ws.push(w).drop_last() =~= ws);
}

proof fn lemma_join_4(a: Seq<u8>, b: Seq<u8>, c: Seq<u8>, d: Seq<u8>)
    ensures
        join_words(seq![a, b, c, d]) == a + seq![ASCII_SPACE] + b + seq![ASCII_SPACE] + c + seq![
            ASCII_SPACE,
        ] + d,
{
    lemma_join_3(a, b, c);
    lemma_join_push(seq![a, b, c], d);
    assert(seq![a, b, c].push(d) =~= seq![a, b, c, d]);
}

proof fn lemma_join_5(a: Seq<u8>, b: Seq<u8>, c: Seq<u8>, d: Seq<u8>, e: Seq<u8>)
    ensures
        join_words(seq![a, b, c, d, e]) == a + seq![ASCII_SPACE] + b + seq![ASCII_SPACE] + c
            + seq![ASCII_SPACE] + d + seq![ASCII_SPACE] + e,
{
    lemma_join_4(a, b, c, d);
    lemma_join_push(seq![a, b, c, d], e);
    assert(seq![a, b, c, d].push(e) =~= seq![a, b, c, d, e]);
}

proof fn lemma_join_8(
    a: Seq<u8>,
    b: Seq<u8>,
    c: Seq<u8>,
    d: Seq<u8>,
    e: Seq<u8>,
    f: Seq<u8>,
    g: Seq<u8>,
    h: Seq<u8>,
)
    ensures
        join_words(seq![a, b, c, d, e, f, g, h]) == a + seq![ASCII_SPACE] + b + seq![ASCII_SPACE]
            + c + seq![ASCII_SPACE] + d + seq![ASCII_SPACE] + e + seq![ASCII_SPACE] + f + seq![
            ASCII_SPACE,
        ] + g + seq![ASCII_SPACE] + h,
{
    lemma_join_5(a, b, c, d, e);
    lemma_join_push(seq![a, b, c, d, e], f);
    assert(seq![a, b, c, d, e].push(f) =~= seq![a, b, c, d, e, f]);
    lemma_join_push(seq![a, b, c, d, e, f], g);
    assert(seq![a, b, c, d, e, f].push(g) =~= seq![a, b, c, d, e, f, g]);
    lemma_join_push(seq![a, b, c, d, e, f, g], h);
    assert(seq![a, b, c, d, e, f, g].push(h) =~= seq![a, b, c, d, e, f, g, h]);
}

/// The words a request body is written with.
pub open spec fn request_words(r: Request<Seq<u8>>) -> Seq<Seq<u8>> {
    match r {
        Request::Hello => seq![WORD_HAI@],
        Request::Status => seq![WORD_HRU@],
        Request::PinMap => seq![WORD_MAP@],
        Request::Direction { target, direction } => seq![
            WORD_DIR@,
            target,
            spec_direction_word(direction),
            WORD_OK@,
        ],
        Request::Get { target } => seq![WORD_GET@, target, WORD_OK@],
        Request::SetLevel { target, level } => seq![
            WORD_SET@,
            target,
            spec_level_word(level),
            WORD_OK@,
        ],
        Request::Pullup { target, enabled } => seq![
            WORD_PLL@,
            target,
            spec_enabled_word(enabled),
            WORD_OK@,
        ],
        Request::Listen { target, enabled } => seq![
            WORD_LSN@,
            target,
            spec_enabled_word(enabled),
            WORD_OK@,
        ],
        Request::Query { target, what } => seq![WORD_WYD@, target, spec_query_word(what)],
        Request::Bye => seq![WORD_BYE@],
    }
}

proof fn lemma_target_is_word(t: Seq<u8>)
    requires
        spec_valid_target_token(t),
    ensures
        is_word(t),
{
    assert forall|i: int| 0 <= i < t.len() implies !spec_is_space(#[trigger] t[i]) by {
        assert(crate::ascii::spec_is_target_byte(t[i]));
    }
}

proof fn lemma_route_is_word(t: Seq<u8>)
    requires
        spec_valid_route_token(t),
    ensures
        is_word(t),
{
    assert forall|i: int| 0 <= i < t.len() implies !spec_is_space(#[trigger] t[i]) by {
        assert(crate::ascii::spec_is_graphic(t[i]));
    }
}

/// A request body whose writes all pass is its words joined by spaces.
proof fn lemma_request_bytes(r: Request<Seq<u8>>)
    ensures
        all_bytes(spec_request_pieces(r)) == join_words(request_words(r)),
{
    let ws = request_words(r);
    let ps = spec_request_pieces(r);
    match r {
        Request::Direction { target, direction } => {
            lemma_all_bytes_3(ps[0], ps[1], ps[2]);
            lemma_join_4(ws[0], ws[1], ws[2], ws[3]);
        },
        Request::SetLevel { target, level } => {
            lemma_all_bytes_3(ps[0], ps[1], ps[2]);
            lemma_join_4(ws[0], ws[1], ws[2], ws[3]);
        },
        Request::Pullup { target, enabled } => {
            lemma_all_bytes_3(ps[0], ps[1], ps[2]);
            lemma_join_4(ws[0], ws[1], ws[2], ws[3]);
        },
        Request::Listen { target, enabled } => {
            lemma_all_bytes_3(ps[0], ps[1], ps[2]);
            lemma_join_4(ws[0], ws[1], ws[2], ws[3]);
        },
        Request::Get { target } => {
            lemma_all_bytes_3(ps[0], ps[1], ps[2]);
            lemma_join_3(ws[0], ws[1], ws[2]);
        },
        Request::Query { target, what } => {
            lemma_all_bytes_3(ps[0], ps[1], ps[2]);
            lemma_join_3(ws[0], ws[1], ws[2]);
        },
        _ => {
            lemma_all_bytes_1(ps[0]);
        },
    }
    assert(all_bytes(ps) =~= join_words(ws));
}

/// The words of a request whose target passed its check are words, and
/// decode back to the request.
proof fn lemma_request_words(r: Request<Seq<u8>>)
    requires
        forall|i: int|
            0 <= i < spec_request_pieces(r).len() ==> (#[trigger] spec_request_pieces(r)[i]).error
                is None,
    ensures
        request_words(r).len() > 0,
        forall|i: int| 0 <= i < request_words(r).len() ==> is_word(#[trigger] request_words(r)[i]),
        spec_decode_request_words(request_words(r)) == Ok::<Request<Seq<u8>>, DecodeErrorKind>(r),
{
    let ws = request_words(r);
    let ps = spec_request_pieces(r);
    match r {
        Request::Direction { target, .. } => {
            assert(ps[1].error is None);
            lemma_target_is_word(target);
        },
        Request::Get { target } => {
            assert(ps[1].error is None);
            lemma_target_is_word(target);
        },
        Request::SetLevel { target, .. } => {
            assert(ps[1].error is None);
            lemma_target_is_word(target);
        },
        Request::Pullup { target, .. } => {
            assert(ps[1].error is None);
            lemma_target_is_word(target);
        },
        Request::Listen { target, .. } => {
            assert(ps[1].error is None);
            lemma_target_is_word(target);
        },
        Request::Query { target, .. } => {
            assert(ps[1].error is None);
            lemma_target_is_word(target);
        },
        _ => {},
    }
    assert forall|i: int| 0 <= i < ws.len() implies is_word(#[trigger] ws[i]) by {
        match r {
            Request::Direction { direction, .. } => {
                lemma_route_is_word(spec_direction_word(direction));
            },
            Request::SetLevel { level, .. } => {
                lemma_route_is_word(spec_level_word(level));
            },
            Request::Pullup { enabled, .. } => {
                lemma_route_is_word(spec_enabled_word(enabled));
            },
            Request::Listen { enabled, .. } => {
                lemma_route_is_word(spec_enabled_word(enabled));
            },
            Request::Query { what, .. } => {
                lemma_route_is_word(spec_query_word(what));
            },
            _ => {},
        }
        lemma_route_is_word(WORD_OK@);
        if i == 0 {
            lemma_route_is_word(ws[0]);
        }
    }
}

/// Encoding a request and decoding the bytes written gives back the same
/// identifier, route and request, whenever the encoding succeeds.
pub proof fn lemma_request_round_trip(
    id: RequestId,
    route: Seq<u8>,
    body: Request<Seq<u8>>,
    out: Seq<u8>,
)
    requires
        1 <= id.value() <= 999,
        encoded(message_pieces(id.value(), route, spec_request_pieces(body)), out).1 is Ok,
    ensures
        ({
            let (written, res) = encoded(
                message_pieces(id.value(), route, spec_request_pieces(body)),
                out,
            );
            spec_decode_message(written.take(res.unwrap() as int)) matches Ok((i, r, b)) && i
                == id.value() && r == route && spec_decode_request_words(spec_tokens(b)) == Ok::<
                Request<Seq<u8>>,
                DecodeErrorKind,
            >(body)
        }),
{
    let bp = spec_request_pieces(body);
    let pieces = message_pieces(id.value(), route, bp);
    lemma_encoded_ok(pieces, out);
    lemma_message_bytes(id.value(), route, bp);
    assert(pieces[2].error is None);
    assert forall|i: int| 0 <= i < bp.len() implies (#[trigger] bp[i]).error is None by {
        assert(pieces[4 + i] == bp[i]);
    }
    lemma_request_bytes(body);
    lemma_request_words(body);
    let ws = request_words(body);
    lemma_join_ends(ws);
    lemma_tokens_of_join(ws);
    assert(is_word(ws[0]) && is_word(ws.last()));
    lemma_decode_framed_line(id.value(), route, join_words(ws));
}

/// The error names a device answers with in place of a pin target.
pub open spec fn is_error_name(t: Seq<u8>) -> bool {
    t == WORD_BAD_PACKET@ || t == WORD_NO_ROUTE@ || t == WORD_ROUTE_BUSY@ || t == WORD_ROUTE_DOWN@
}

/// A query answer of the kind the query asks for.
pub open spec fn value_fits_query(what: Query, value: QueryValue) -> bool {
    match value {
        QueryValue::Unset => true,
        QueryValue::Direction(_) => what == Query::Direction,
        QueryValue::Enabled(_) => what != Query::Direction,
    }
}

/// The responses that read back as themselves: a pin error does not name a
/// pin after an error name, and a query answer is of the kind asked for.
pub open spec fn response_reads_back(r: Response<Seq<u8>, Seq<u8>>) -> bool {
    match r {
        Response::State { what, value, .. } => value_fits_query(what, value),
        Response::Error(ResponseError::Target { target, .. }) => !is_error_name(target),
        _ => true,
    }
}

/// Capabilities carry at most the three capability bits.
pub open spec fn response_valid(r: Response<Seq<u8>, Seq<u8>>) -> bool {
    match r {
        Response::MapPin { capabilities, .. } => capabilities.spec_bits() <= 7,
        _ => true,
    }
}

/// The words a response body other than a status is written with.
pub open spec fn response_words(r: Response<Seq<u8>, Seq<u8>>) -> Seq<Seq<u8>> {
    match r {
        Response::Hello => seq![WORD_HII@, WORD_HEART@],
        Response::Status { identity } => seq![WORD_IAM@, identity, WORD_HEART@],
        Response::MapBank { bank } => seq![WORD_MAP@, WORD_BANK@, bank, WORD_HEART@],
        Response::MapPin { target, package_pin, bank, bit, capabilities } => seq![
            WORD_MAP@,
            WORD_PIN@,
            target,
            match package_pin {
                Some(v) => spec_decimal(v as nat),
                None => WORD_DASH@,
            },
            bank,
            spec_decimal(bit as nat),
            seq![(0x30 + capabilities.spec_bits()) as u8],
            WORD_HEART@,
        ],
        Response::Ack => seq![WORD_OKA@, WORD_HEART@],
        Response::Value { target, level } => seq![
            WORD_HYG@,
            target,
            spec_level_word(level),
            WORD_HEART@,
        ],
        Response::State { target, what, value } => seq![
            WORD_HYG@,
            target,
            spec_query_word(what),
            spec_query_value_word(value),
            WORD_HEART@,
        ],
        Response::Error(ResponseError::BadPacket) => seq![WORD_UMM@, WORD_BAD_PACKET@, WORD_HEART@],
        Response::Error(ResponseError::Target { target, reason }) => seq![
            WORD_UMM@,
            target,
            spec_reason_word(reason),
            WORD_HEART@,
        ],
        Response::Error(ResponseError::NoRoute { destination }) => seq![
            WORD_UMM@,
            WORD_NO_ROUTE@,
            destination,
            WORD_HEART@,
        ],
        Response::Error(ResponseError::RouteBusy { next_hop }) => seq![
            WORD_UMM@,
            WORD_ROUTE_BUSY@,
            next_hop,
            WORD_HEART@,
        ],
        Response::Error(ResponseError::RouteDown { next_hop }) => seq![
            WORD_UMM@,
            WORD_ROUTE_DOWN@,
            next_hop,
            WORD_HEART@,
        ],
        Response::Unknown => seq![WORD_IDK@, WORD_HEART@],
        Response::Bye => seq![WORD_CYA@, WORD_HEART@],
    }
}

proof fn lemma_decimal_word(v: nat)
    requires
        v <= 65535,
    ensures
        is_word(spec_decimal(v)),
        spec_decimal(v) != WORD_DASH@,
        spec_parse_decimal(spec_decimal(v), 65535) == Some(v),
        v <= 255 ==> spec_parse_decimal(spec_decimal(v), 255) == Some(v),
{
    lemma_decimal_round_trip(v);
    let s = spec_decimal(v);
    assert forall|i: int| 0 <= i < s.len() implies !spec_is_space(#[trigger] s[i]) by {
        assert(spec_is_digit(s[i]));
    }
    assert(spec_is_digit(s[0]));
}

proof fn lemma_map_pin_bytes(r: Response<Seq<u8>, Seq<u8>>)
    requires
        r is MapPin,
    ensures
        all_bytes(spec_response_pieces(r)) == join_words(response_words(r)),
{
    let ws = response_words(r);
    let ps = spec_response_pieces(r);
    lemma_all_bytes_11(ps[0], ps[1], ps[2], ps[3], ps[4], ps[5], ps[6], ps[7], ps[8], ps[9], ps[10]);
    lemma_join_8(ws[0], ws[1], ws[2], ws[3], ws[4], ws[5], ws[6], ws[7]);
    assert(ps =~= seq![ps[0], ps[1], ps[2], ps[3], ps[4], ps[5], ps[6], ps[7], ps[8], ps[9], ps[10]]);
    assert(ws =~= seq![ws[0], ws[1], ws[2], ws[3], ws[4], ws[5], ws[6], ws[7]]);
    assert(all_bytes(ps) =~= join_words(ws));
}

proof fn lemma_state_bytes(r: Response<Seq<u8>, Seq<u8>>)
    requires
        r is State,
    ensures
        all_bytes(spec_response_pieces(r)) == join_words(response_words(r)),
{
    let ws = response_words(r);
    let ps = spec_response_pieces(r);
    lemma_all_bytes_5(ps[0], ps[1], ps[2], ps[3], ps[4]);
    lemma_join_5(ws[0], ws[1], ws[2], ws[3], ws[4]);
    assert(ps =~= seq![ps[0], ps[1], ps[2], ps[3], ps[4]]);
    assert(ws =~= seq![ws[0], ws[1], ws[2], ws[3], ws[4]]);
    assert(all_bytes(ps) =~= join_words(ws));
}

/// A response body other than a status is its words joined by spaces.
proof fn lemma_response_bytes(r: Response<Seq<u8>, Seq<u8>>)
    requires
        !(r is Status),
    ensures
        all_bytes(spec_response_pieces(r)) == join_words(response_words(r)),
{
    let ws = response_words(r);
    let ps = spec_response_pieces(r);
    match r {
        Response::MapPin { .. } => {
            lemma_map_pin_bytes(r);
            return;
        },
        Response::State { .. } => {
            lemma_state_bytes(r);
            return;
        },
        Response::MapBank { .. } | Response::Value { .. } | Response::Error(ResponseError::Target { .. })
        | Response::Error(ResponseError::NoRoute { .. }) | Response::Error(
            ResponseError::RouteBusy { .. },
        ) | Response::Error(ResponseError::RouteDown { .. }) => {
            lemma_all_bytes_3(ps[0], ps[1], ps[2]);
            lemma_join_4(ws[0], ws[1], ws[2], ws[3]);
        },
        Response::Error(ResponseError::BadPacket) => {
            lemma_all_bytes_1(ps[0]);
            lemma_join_3(ws[0], ws[1], ws[2]);
        },
        _ => {
            lemma_all_bytes_1(ps[0]);
            lemma_join_2(ws[0], ws[1]);
        },
    }
    assert(all_bytes(ps) =~= join_words(ws));
}

/// The words of a response other than a status, whose writes all pass, are
/// words.
proof fn lemma_response_words(r: Response<Seq<u8>, Seq<u8>>)
    requires
        !(r is Status),
        response_valid(r),
        forall|i: int|
            0 <= i < spec_response_pieces(r).len() ==> (#[trigger] spec_response_pieces(
                r,
            )[i]).error is None,
    ensures
        response_words(r).len() > 0,
        forall|i: int| 0 <= i < response_words(r).len() ==> is_word(#[trigger] response_words(r)[i]),
{
    let ws = response_words(r);
    let ps = spec_response_pieces(r);
    lemma_route_is_word(WORD_HEART@);
    match r {
        Response::MapBank { bank } => {
            assert(ps[1].error is None);
            lemma_target_is_word(bank);
        },
        Response::MapPin { target, package_pin, bank, bit, capabilities } => {
            assert(ps[1].error is None);
            assert(ps[5].error is None);
            lemma_target_is_word(target);
            lemma_target_is_word(bank);
            lemma_decimal_word(bit as nat);
            match package_pin {
                Some(v) => lemma_decimal_word(v as nat),
                None => lemma_route_is_word(WORD_DASH@),
            }
        },
        Response::Value { target, level } => {
            assert(ps[1].error is None);
            lemma_target_is_word(target);
            lemma_route_is_word(spec_level_word(level));
        },
        Response::State { target, what, value } => {
            assert(ps[1].error is None);
            lemma_target_is_word(target);
            lemma_route_is_word(spec_query_word(what));
            lemma_route_is_word(spec_query_value_word(value));
        },
        Response::Error(ResponseError::Target { target, reason }) => {
            assert(ps[1].error is None);
            lemma_target_is_word(target);
            lemma_route_is_word(spec_reason_word(reason));
        },
        Response::Error(ResponseError::NoRoute { destination }) => {
            assert(ps[1].error is None);
            lemma_route_is_word(destination);
        },
        Response::Error(ResponseError::RouteBusy { next_hop }) => {
            assert(ps[1].error is None);
            lemma_route_is_word(next_hop);
        },
        Response::Error(ResponseError::RouteDown { next_hop }) => {
            assert(ps[1].error is None);
            lemma_route_is_word(next_hop);
        },
        _ => {},
    }
    assert forall|i: int| 0 <= i < ws.len() implies is_word(#[trigger] ws[i]) by {
        if i == 0 {
            lemma_route_is_word(ws[0]);
        }
        if i == 6 {
            match r {
                Response::MapPin { capabilities, .. } => {
                    assert(!spec_is_space(ws[6][0]));
                },
                _ => {},
            }
        }
        if i == 1 {
            match r {
                Response::MapBank { .. } => lemma_route_is_word(WORD_BANK@),
                Response::MapPin { .. } => lemma_route_is_word(WORD_PIN@),
                Response::Error(ResponseError::BadPacket) => lemma_route_is_word(WORD_BAD_PACKET@),
                Response::Error(ResponseError::NoRoute { .. }) => lemma_route_is_word(WORD_NO_ROUTE@),
                Response::Error(ResponseError::RouteBusy { .. }) => lemma_route_is_word(
                    WORD_ROUTE_BUSY@,
                ),
                Response::Error(ResponseError::RouteDown { .. }) => lemma_route_is_word(
                    WORD_ROUTE_DOWN@,
                ),
                _ => {},
            }
        }
    }
}

/// The words of a response other than a status decode back to it.
proof fn lemma_response_words_decode(r: Response<Seq<u8>, Seq<u8>>, body: Seq<u8>)
    requires
        !(r is Status),
        response_valid(r),
        response_reads_back(r),
        spec_tokens(body) == response_words(r),
        match r {
            Response::MapBank { bank } => spec_valid_target_token(bank),
            Response::MapPin { target, bank, .. } => spec_valid_target_token(target)
                && spec_valid_target_token(bank),
            Response::Value { target, .. } => spec_valid_target_token(target),
            Response::State { target, .. } => spec_valid_target_token(target),
            Response::Error(ResponseError::Target { target, .. }) => spec_valid_target_token(target),
            Response::Error(ResponseError::NoRoute { destination }) => spec_valid_route_token(
                destination,
            ),
            Response::Error(ResponseError::RouteBusy { next_hop }) => spec_valid_route_token(
                next_hop,
            ),
            Response::Error(ResponseError::RouteDown { next_hop }) => spec_valid_route_token(
                next_hop,
            ),
            _ => true,
        },
    ensures
        spec_decode_response_body(body) == Ok::<Response<Seq<u8>, Seq<u8>>, DecodeErrorKind>(r),
{
    match r {
        Response::MapPin { package_pin, bit, capabilities, .. } => {
            lemma_decimal_word(bit as nat);
            match package_pin {
                Some(v) => lemma_decimal_word(v as nat),
                None => {},
            }
            let bits = capabilities.spec_bits();
            PinCapabilities::lemma_spec_from_bits(bits);
            PinCapabilities::lemma_bits_determine(capabilities, PinCapabilities::spec_from_bits(bits));
        },
        _ => {},
    }
}

/// Encoding a response and decoding the bytes written gives back the same
/// identifier, route and response, whenever the encoding succeeds and the
/// response is one that reads back as itself.
pub proof fn lemma_response_round_trip(
    id: RequestId,
    route: Seq<u8>,
    body: Response<Seq<u8>, Seq<u8>>,
    out: Seq<u8>,
)
    requires
        1 <= id.value() <= 999,
        response_valid(body),
        response_reads_back(body),
        encoded(message_pieces(id.value(), route, spec_response_pieces(body)), out).1 is Ok,
    ensures
        ({
            let (written, res) = encoded(
                message_pieces(id.value(), route, spec_response_pieces(body)),
                out,
            );
            spec_decode_message(written.take(res.unwrap() as int)) matches Ok((i, r, b)) && i
                == id.value() && r == route && spec_decode_response_body(b) == Ok::<
                Response<Seq<u8>, Seq<u8>>,
                DecodeErrorKind,
            >(body)
        }),
{
    let bp = spec_response_pieces(body);
    let pieces = message_pieces(id.value(), route, bp);
    lemma_encoded_ok(pieces, out);
    lemma_message_bytes(id.value(), route, bp);
    assert(pieces[2].error is None);
    assert forall|i: int| 0 <= i < bp.len() implies (#[trigger] bp[i]).error is None by {
        assert(pieces[4 + i] == bp[i]);
    }
    match body {
        Response::Status { identity } => {
            lemma_status_body(identity);
            lemma_decode_framed_line(id.value(), route, all_bytes(bp));
        },
        _ => {
            lemma_response_bytes(body);
            lemma_response_words(body);
            let ws = response_words(body);
            lemma_join_ends(ws);
            lemma_tokens_of_join(ws);
            assert(is_word(ws[0]) && is_word(ws.last()));
            match body {
                Response::MapBank { .. } => assert(bp[1].error is None),
                Response::MapPin { .. } => assert(bp[1].error is None && bp[5].error is None),
                Response::Value { .. } => assert(bp[1].error is None),
                Response::State { .. } => assert(bp[1].error is None),
                Response::Error(ResponseError::Target { .. }) => assert(bp[1].error is None),
                Response::Error(ResponseError::NoRoute { .. }) => assert(bp[1].error is None),
                Response::Error(ResponseError::RouteBusy { .. }) => assert(bp[1].error is None),
                Response::Error(ResponseError::RouteDown { .. }) => assert(bp[1].error is None),
                _ => {},
            }
            lemma_response_words_decode(body, join_words(ws));
            lemma_decode_framed_line(id.value(), route, join_words(ws));
        },
    }
}

/// A status body with a valid identity starts with `IAM`, ends with `<3`, and
/// decodes back to its identity.
proof fn lemma_status_body(identity: Seq<u8>)
    requires
        crate::response::spec_valid_identity(identity),
    ensures
        ({
            let b = all_bytes(spec_response_pieces(Response::Status { identity }));
            &&& b.len() > 0
            &&& !spec_is_space(b[0])
            &&& !spec_is_space(b.last())
            &&& spec_decode_response_body(b) == Ok::<Response<Seq<u8>, Seq<u8>>, DecodeErrorKind>(
                Response::Status { identity },
            )
        }),
{
    reveal_with_fuel(all_bytes, 4);
    let b = all_bytes(spec_response_pieces(Response::<Seq<u8>, Seq<u8>>::Status { identity }));
    assert(b =~= status_prefix() + identity + heart_suffix());
    let rest = identity + heart_suffix();
    assert(b =~= WORD_IAM@ + seq![ASCII_SPACE] + rest);
    lemma_route_is_word(WORD_IAM@);
    lemma_tokens_after_word(WORD_IAM@, rest);
    assert(spec_tokens(b)[0] == WORD_IAM@);
    assert(b.take(4) =~= status_prefix());
    assert(b.skip(b.len() - 3) =~= heart_suffix());
    assert(b.subrange(4, b.len() - 3) =~= identity);
}


/// Encoding a routed line and decoding the bytes written gives back the same
/// identifier, route and body, whenever the encoding succeeds and the body
/// is not empty and neither starts nor ends with whitespace.
pub proof fn lemma_message_round_trip(id: RequestId, route: Seq<u8>, body: Seq<u8>, out: Seq<u8>)
    requires
        1 <= id.value() <= 999,
        body.len() > 0,
        !spec_is_space(body[0]),
        !spec_is_space(body.last()),
        encoded(message_pieces(id.value(), route, seq![bytes_piece(body)]), out).1 is Ok,
    ensures
        ({
            let (written, res) = encoded(message_pieces(id.value(), route, seq![bytes_piece(body)]), out);
            spec_decode_message(written.take(res.unwrap() as int)) == Ok::<
                (u16, Seq<u8>, Seq<u8>),
                Option<u16>,
            >((id.value(), route, body))
        }),
{
    let pieces = message_pieces(id.value(), route, seq![bytes_piece(body)]);
    lemma_encoded_ok(pieces, out);
    lemma_message_bytes(id.value(), route, seq![bytes_piece(body)]);
    lemma_all_bytes_1(bytes_piece(body));
    assert(pieces[2].error is None);
    lemma_decode_framed_line(id.value(), route, body);
}

/// The bank tokens a firmware's `MAP` stream announces, in order.
pub open spec fn streamed_banks(m: PinMapView) -> Seq<Seq<u8>> {
    m.banks.map_values(|b: BankInfo| b.token.spec_bytes())
}

/// The pins a firmware's `MAP` stream announces, as a host's discovery takes
/// each `MAP PIN` line: the pin's description and its bank's token.
pub open spec fn streamed_pins(route: RouteKey, m: PinMapView) -> Seq<(PinInfoView, Seq<u8>)> {
    Seq::new(
        m.pins.len(),
        |i: int|
            match map_pin_response(m, i) {
                Response::MapPin { target, package_pin, bank, bit, capabilities } => (
                    PinInfoView { token: target, package_pin, bank: BankKey { route, index: 0 }, bit, capabilities },
                    bank,
                ),
                _ => (PinInfoView { token: seq![], package_pin: None, bank: BankKey { route, index: 0 }, bit: 0, capabilities: PinCapabilities::spec_from_bits(0) }, seq![]),
            },
    )
}

/// A firmware pin map whose bank tokens are distinct, whose pin tokens are
/// distinct and whose pins sit at distinct bits of their banks.
pub open spec fn distinct_map(m: PinMapView) -> bool {
    &&& forall|i: int, j: int|
        0 <= i < j < m.banks.len() ==> (#[trigger] m.banks[i]).token.spec_bytes() != (#[trigger] m.banks[j]).token.spec_bytes()
    &&& forall|i: int, j: int|
        0 <= i < j < m.pins.len() ==> (#[trigger] m.pins[i]).token.spec_bytes() != (#[trigger] m.pins[j]).token.spec_bytes()
            && !(m.pins[i].bank == m.pins[j].bank && m.pins[i].bit == m.pins[j].bit)
}

/// What a host discovers from a firmware's `MAP` stream is the firmware's
/// map: fed the announced banks and then the announced pins, the discovery
/// accepts every line, holds the banks' tokens in order, and holds each pin
/// with its token, package pin, bit and capabilities, in the bank the
/// firmware put it in.
pub proof fn lemma_map_stream_discovered(route: RouteKey, m: PinMapView)
    requires
        map_wf(m),
        distinct_map(m),
    ensures
        feed_banks(BuilderView { route, banks: seq![], pins: seq![] }, streamed_banks(m)) == Some(
            BuilderView { route, banks: streamed_banks(m), pins: seq![] },
        ),
        feed_pins(BuilderView { route, banks: streamed_banks(m), pins: seq![] }, streamed_pins(route, m))
            == Ok::<BuilderView, PinRefusal>(
            BuilderView {
                route,
                banks: streamed_banks(m),
                pins: announced_pins(route, streamed_banks(m), streamed_pins(route, m)),
            },
        ),
        forall|i: int|
            0 <= i < m.pins.len() ==> {
                let d = #[trigger] announced_pins(route, streamed_banks(m), streamed_pins(route, m))[i];
                &&& d.token == m.pins[i].token.spec_bytes()
                &&& d.package_pin == m.pins[i].package_pin
                &&& d.bit == m.pins[i].bit
                &&& d.capabilities.spec_bits() == m.pins[i].capabilities.spec_bits()
                &&& d.bank == BankKey { route, index: m.pins[i].bank.spec_index() as usize }
            },
{
    let banks = streamed_banks(m);
    let pins = streamed_pins(route, m);
    assert(banks.no_duplicates()) by {
        assert forall|i: int, j: int| 0 <= i < banks.len() && 0 <= j < banks.len() && i != j implies banks[i] != banks[j] by {
            if i < j {
                assert(m.banks[i].token.spec_bytes() != m.banks[j].token.spec_bytes());
            } else {
                assert(m.banks[j].token.spec_bytes() != m.banks[i].token.spec_bytes());
            }
        }
    }
    assert forall|i: int| 0 <= i < pins.len() implies banks.contains(#[trigger] pins[i].1) by {
        let k = m.pins[i].bank.spec_index() as int;
        assert(banks[k] == pins[i].1);
    }
    assert forall|i: int, j: int| 0 <= i < j < pins.len() implies (#[trigger] pins[i]).0.token != (#[trigger] pins[j]).0.token
        && !(pins[i].1 == pins[j].1 && pins[i].0.bit == pins[j].0.bit) by {
        assert(m.pins[i].token.spec_bytes() != m.pins[j].token.spec_bytes());
        if pins[i].1 == pins[j].1 && pins[i].0.bit == pins[j].0.bit {
            let bi = m.pins[i].bank.spec_index() as int;
            let bj = m.pins[j].bank.spec_index() as int;
            if bi != bj {
                if bi < bj {
                    assert(m.banks[bi].token.spec_bytes() != m.banks[bj].token.spec_bytes());
                } else {
                    assert(m.banks[bj].token.spec_bytes() != m.banks[bi].token.spec_bytes());
                }
            }
            crate::gpio::BankId::lemma_index_determines(m.pins[i].bank, m.pins[j].bank);
        }
    }
    assert(banks.len() <= usize::MAX);
    lemma_discovery_rebuilds_announced_map(route, banks, pins);
    assert forall|i: int| 0 <= i < m.pins.len() implies {
        let d = #[trigger] announced_pins(route, banks, pins)[i];
        &&& d.token == m.pins[i].token.spec_bytes()
        &&& d.package_pin == m.pins[i].package_pin
        &&& d.bit == m.pins[i].bit
        &&& d.capabilities.spec_bits() == m.pins[i].capabilities.spec_bits()
        &&& d.bank == BankKey { route, index: m.pins[i].bank.spec_index() as usize }
    } by {
        let k = m.pins[i].bank.spec_index() as int;
        lemma_index_of(banks, pins[i].1);
        let found = spec_index_of(banks, pins[i].1).unwrap() as int;
        assert(banks[found] == banks[k]);
        if found != k {
            if found < k {
                assert(m.banks[found].token.spec_bytes() != m.banks[k].token.spec_bytes());
            } else {
                assert(m.banks[k].token.spec_bytes() != m.banks[found].token.spec_bytes());
            }
        }
        PinCapabilities::lemma_spec_from_bits(m.pins[i].capabilities.spec_bits());
    }
}

} // verus!
