use gpiodemo::line::{LineBuffer, LineError, MAX_PACKET_LEN};
use gpiodemo::message::{
    decode_message, encode_message, DecodeError, DecodeErrorKind, EncodeError, Message, Packet,
};
use gpiodemo::pins::{Pin, PinTable, PinTarget, Port, WIRE_PIN_COUNT};
use gpiodemo::request::{decode_request, encode_request, DecodedRequest, Request};
use gpiodemo::request_id::RequestId;
use gpiodemo::response::{decode_response, encode_response, DecodedResponse, Response, ResponseError};
use gpiodemo::values::{Direction, Level, PinCapabilities, Query, QueryValue, TargetError};

fn id(raw: u16) -> RequestId {
    RequestId::new(raw).unwrap()
}

fn pin(index: u8) -> Pin {
    Pin::from_wire_index(index).unwrap()
}

fn decoded_request(line: &[u8]) -> Result<Packet<DecodedRequest<'_>>, DecodeError> {
    let envelope = decode_message(line)?;
    decode_request(Packet { id: envelope.id, body: envelope.body })
}

fn decoded_response(line: &[u8]) -> Result<Packet<DecodedResponse<'_>>, DecodeError> {
    let envelope = decode_message(line)?;
    decode_response(Packet { id: envelope.id, body: envelope.body })
}

fn encoded_request(id: RequestId, body: Request<&[u8]>) -> Vec<u8> {
    let mut out = [0u8; MAX_PACKET_LEN];
    let len = encode_request(Packet { id, body }, b"SAM", &mut out).unwrap();
    out[..len].to_vec()
}

#[test]
fn line_buffer_frames_and_recovers_after_overflow() {
    let mut buffer = LineBuffer::new();
    let mut seen = false;
    for &byte in b"\r001 SAM HAI\r\n" {
        if let Some(line) = buffer.push(byte).unwrap() {
            assert_eq!(line, b"001 SAM HAI");
            seen = true;
        }
    }
    assert!(seen);

    for _ in 0..MAX_PACKET_LEN - 1 {
        assert_eq!(buffer.push(b'x'), Ok(None));
    }
    assert_eq!(buffer.push(b'x'), Err(LineError::TooLong));
    assert_eq!(buffer.push(b'x'), Ok(None));
    assert_eq!(buffer.push(b'\n'), Ok(None));

    for &byte in b"008 SAM HII <3\n" {
        if let Some(line) = buffer.push(byte).unwrap() {
            assert_eq!(line, b"008 SAM HII <3");
        }
    }
}

#[test]
fn empty_line_and_carriage_returns_alone_report_nothing() {
    let mut buffer = LineBuffer::new();
    assert_eq!(buffer.push(b'\n'), Ok(None));
    assert_eq!(buffer.push(b'\r'), Ok(None));
    assert_eq!(buffer.push(b'\r'), Ok(None));
    assert_eq!(buffer.push(b'\n'), Ok(None));
    assert_eq!(buffer.push(b'a'), Ok(None));
    assert_eq!(buffer.push(b'\n').unwrap(), Some(&b"a"[..]));
}

#[test]
fn only_the_sixty_fourth_byte_besides_carriage_returns_is_too_long() {
    let mut buffer = LineBuffer::new();
    let mut reports = Vec::new();
    for index in 0..70 {
        reports.push(buffer.push(b'y').map(|line| line.is_some()));
        if index % 3 == 0 {
            reports.push(buffer.push(b'\r').map(|line| line.is_some()));
        }
    }
    let errors: Vec<usize> = reports.iter().enumerate().filter(|(_, r)| r.is_err()).map(|(i, _)| i).collect();
    assert_eq!(errors.len(), 1);
    let bytes_before = reports[..errors[0]].len() - (0..63).filter(|i| i % 3 == 0).count();
    assert_eq!(bytes_before, 63);
    assert_eq!(reports[errors[0]], Err(LineError::TooLong));
    assert!(reports.iter().all(|report| *report != Ok(true)));
    assert_eq!(buffer.push(b'\n'), Ok(None));

    let mut line = vec![b'z'; 63];
    line.push(b'\r');
    for &byte in &line {
        assert_eq!(buffer.push(byte), Ok(None));
    }
    assert_eq!(buffer.push(b'\n').unwrap(), Some(&[b'z'; 63][..]));
}

#[test]
fn routed_envelopes_borrow_route_and_opaque_body() {
    let request = b"001 SAM HAI";
    let envelope = decode_message(request).unwrap();
    assert_eq!(envelope, Message { id: id(1), route: b"SAM", body: b"HAI" });
    assert_eq!(envelope.route.as_ptr(), request[4..].as_ptr());
    assert_eq!(envelope.body.as_ptr(), request[8..].as_ptr());

    assert_eq!(
        decode_message(b"002 LPC GET PIO2_3 OK?"),
        Ok(Message { id: id(2), route: b"LPC", body: b"GET PIO2_3 OK?" })
    );
    assert_eq!(
        decode_message(b"003 ABC WAT opaque body"),
        Ok(Message { id: id(3), route: b"ABC", body: b"WAT opaque body" })
    );
    assert_eq!(
        decode_message(b"002 LPC HYG PIO2_3 HIGH <3"),
        Ok(Message { id: id(2), route: b"LPC", body: b"HYG PIO2_3 HIGH <3" })
    );
}

#[test]
fn routed_envelope_encoding_validates_route_tokens_and_preserves_ids() {
    let mut out = [0; MAX_PACKET_LEN];
    let request = Message { id: id(999), route: b"ABC", body: b"HAI" };
    let len = encode_message(request, &mut out).unwrap();
    assert_eq!(&out[..len], b"999 ABC HAI\n");
    assert_eq!(decode_message(&out[..len]), Ok(request));

    let response = Message { id: id(7), route: b"SAM", body: b"HII <3" };
    let len = encode_message(response, &mut out).unwrap();
    assert_eq!(&out[..len], b"007 SAM HII <3\n");
    assert_eq!(decode_message(&out[..len]), Ok(response));

    for route in [b"".as_slice(), b"BAD ROUTE", b"BAD\nROUTE", b"\x01"] {
        assert_eq!(
            encode_message(Message { id: id(1), route, body: b"HAI" }, &mut out),
            Err(EncodeError::InvalidRouteToken)
        );
    }
}

#[test]
fn request_wire_examples_use_symbolic_targets() {
    let cases: [(Request<&[u8]>, &str); 17] = [
        (Request::Hello, "001 SAM HAI\n"),
        (Request::Status, "001 SAM HRU\n"),
        (Request::PinMap, "001 SAM MAP\n"),
        (
            Request::Direction { target: b"PA00".as_slice(), direction: Direction::Input },
            "001 SAM DIR PA00 IN OK?\n",
        ),
        (
            Request::Direction { target: b"PE05".as_slice(), direction: Direction::Output },
            "001 SAM DIR PE05 OUT OK?\n",
        ),
        (Request::Get { target: b"PA05".as_slice() }, "001 SAM GET PA05 OK?\n"),
        (
            Request::SetLevel { target: b"PIOC".as_slice(), level: Level::High },
            "001 SAM SET PIOC HIGH OK?\n",
        ),
        (
            Request::Pullup { target: b"PIOB".as_slice(), enabled: false },
            "001 SAM PLL PIOB OFF OK?\n",
        ),
        (
            Request::Listen { target: b"PIOE".as_slice(), enabled: true },
            "001 SAM LSN PIOE ON OK?\n",
        ),
        (
            Request::Query { target: b"PC25".as_slice(), what: Query::Direction },
            "001 SAM WYD PC25 DIR\n",
        ),
        (
            Request::Direction { target: b"ALL".as_slice(), direction: Direction::Input },
            "001 SAM DIR ALL IN OK?\n",
        ),
        (Request::Get { target: b"ALL".as_slice() }, "001 SAM GET ALL OK?\n"),
        (
            Request::SetLevel { target: b"ALL".as_slice(), level: Level::High },
            "001 SAM SET ALL HIGH OK?\n",
        ),
        (
            Request::Pullup { target: b"ALL".as_slice(), enabled: true },
            "001 SAM PLL ALL ON OK?\n",
        ),
        (
            Request::Listen { target: b"ALL".as_slice(), enabled: true },
            "001 SAM LSN ALL ON OK?\n",
        ),
        (
            Request::Query { target: b"ALL".as_slice(), what: Query::Listen },
            "001 SAM WYD ALL LSN\n",
        ),
        (Request::Bye, "001 SAM BYE\n"),
    ];

    for (body, expected) in cases {
        let out = encoded_request(id(1), body);
        assert_eq!(&out[..expected.len()], expected.as_bytes());
    }
}

#[test]
fn response_wire_examples_use_symbolic_pins() {
    let cases: [(Response<&[u8], &[u8]>, &str); 18] = [
        (Response::Hello, "008 SAM HII <3\n"),
        (Response::Status { identity: b"SAM4E8E GPIO".as_slice() }, "008 SAM IAM SAM4E8E GPIO <3\n"),
        (Response::MapBank { bank: b"PIOA".as_slice() }, "008 SAM MAP BANK PIOA <3\n"),
        (
            Response::MapPin {
                target: b"PA00".as_slice(),
                package_pin: Some(102),
                bank: b"PIOA".as_slice(),
                bit: 0,
                capabilities: PinCapabilities::GPIO(),
            },
            "008 SAM MAP PIN PA00 102 PIOA 0 7 <3\n",
        ),
        (
            Response::MapPin {
                target: b"PIO2_3".as_slice(),
                package_pin: None,
                bank: b"PIO2".as_slice(),
                bit: 3,
                capabilities: PinCapabilities::INPUT(),
            },
            "008 SAM MAP PIN PIO2_3 - PIO2 3 1 <3\n",
        ),
        (Response::Ack, "008 SAM OKA <3\n"),
        (
            Response::Value { target: b"PA00".as_slice(), level: Level::High },
            "008 SAM HYG PA00 HIGH <3\n",
        ),
        (
            Response::State {
                target: b"PA00".as_slice(),
                what: Query::Direction,
                value: QueryValue::Direction(Direction::Input),
            },
            "008 SAM HYG PA00 DIR IN <3\n",
        ),
        (
            Response::State {
                target: b"PA00".as_slice(),
                what: Query::Pullup,
                value: QueryValue::Enabled(true),
            },
            "008 SAM HYG PA00 PLL ON <3\n",
        ),
        (
            Response::State {
                target: b"PA00".as_slice(),
                what: Query::Listen,
                value: QueryValue::Unset,
            },
            "008 SAM HYG PA00 LSN UNSET <3\n",
        ),
        (Response::Error(ResponseError::BadPacket), "008 SAM UMM BAD_PACKET <3\n"),
        (
            Response::Error(ResponseError::Target {
                target: b"PB08".as_slice(),
                reason: TargetError::Unavailable,
            }),
            "008 SAM UMM PB08 UNAVAILABLE <3\n",
        ),
        (
            Response::Error(ResponseError::Target {
                target: b"PA03".as_slice(),
                reason: TargetError::Unset,
            }),
            "008 SAM UMM PA03 UNSET <3\n",
        ),
        (
            Response::Error(ResponseError::NoRoute { destination: b"LPC".as_slice() }),
            "008 SAM UMM NO_ROUTE LPC <3\n",
        ),
        (
            Response::Error(ResponseError::RouteBusy { next_hop: b"LPC".as_slice() }),
            "008 SAM UMM ROUTE_BUSY LPC <3\n",
        ),
        (
            Response::Error(ResponseError::RouteDown { next_hop: b"LPC".as_slice() }),
            "008 SAM UMM ROUTE_DOWN LPC <3\n",
        ),
        (Response::Unknown, "008 SAM IDK <3\n"),
        (Response::Bye, "008 SAM CYA <3\n"),
    ];

    for (body, expected) in cases {
        let packet = Packet { id: id(8), body };
        let mut out = [0u8; MAX_PACKET_LEN];
        let len = encode_response(packet, b"SAM", &mut out).unwrap();
        assert_eq!(&out[..len], expected.as_bytes());
        assert_eq!(decoded_response(&out[..len]), Ok(packet));
    }
}

#[test]
fn map_codec_rejects_bad_numeric_and_capability_fields() {
    for line in [
        b"008 SAM MAP PIN PA00 nope PIOA 0 7 <3".as_slice(),
        b"008 SAM MAP PIN PA00 102 PIOA 999 7 <3",
        b"008 SAM MAP PIN PA00 102 PIOA 0 8 <3",
    ] {
        assert_eq!(
            decoded_response(line),
            Err(DecodeError { id: Some(id(8)), kind: DecodeErrorKind::Malformed })
        );
    }
}

#[test]
fn malformed_known_and_unknown_requests_are_distinct() {
    assert_eq!(
        decoded_request(b"007 SAM DIR PA00 SIDEWAYS OK?\n"),
        Err(DecodeError { id: Some(id(7)), kind: DecodeErrorKind::Malformed })
    );
    assert_eq!(
        decoded_request(b"007 SAM WAT PA00\n"),
        Err(DecodeError { id: Some(id(7)), kind: DecodeErrorKind::UnknownCommand })
    );
    assert_eq!(
        decoded_request(b"nope SAM HAI\n"),
        Err(DecodeError { id: None, kind: DecodeErrorKind::Malformed })
    );
}

#[test]
fn packet_ids_remain_decimal_but_numeric_gpio_targets_are_rejected() {
    assert_eq!(RequestId::new(0), None);
    assert_eq!(RequestId::new(1), Some(RequestId::FIRST()));
    assert_eq!(RequestId::new(999).unwrap().next(), RequestId::FIRST());
    assert_eq!(RequestId::new(1000), None);
    assert_eq!(RequestId::new(1).unwrap().slot(), 0);
    assert_eq!(RequestId::new(999).unwrap().slot(), RequestId::COUNT - 1);
    assert!(decoded_request(b"000 SAM HAI").is_err());
    assert_eq!(
        decoded_request(b"9 SAM GET PE05 OK?"),
        Ok(Packet { id: id(9), body: Request::Get { target: b"PE05".as_slice() } })
    );
    assert!(decoded_request(b"1000 SAM HAI").is_err());
    assert!(decoded_request(b"001 SAM GET 116 OK?").is_err());
    assert_eq!(
        decoded_request(b"001 SAM GET PE06 OK?"),
        Ok(Packet { id: id(1), body: Request::Get { target: b"PE06".as_slice() } })
    );
    assert_eq!(
        decoded_request(b"002 LPC GET PIO2_3 OK?"),
        Ok(Packet { id: id(2), body: Request::Get { target: b"PIO2_3".as_slice() } })
    );
}

#[test]
fn typed_codec_round_trips_non_sam_targets_and_identity() {
    let request = Packet {
        id: id(21),
        body: Request::SetLevel { target: b"PIO2_3".as_slice(), level: Level::High },
    };
    let mut out = [0; MAX_PACKET_LEN];
    let len = encode_request(request, b"LPC", &mut out).unwrap();
    assert_eq!(&out[..len], b"021 LPC SET PIO2_3 HIGH OK?\n");
    assert_eq!(decoded_request(&out[..len]), Ok(request));

    let response = Packet {
        id: id(22),
        body: Response::Value { target: b"PIO2_3".as_slice(), level: Level::Low },
    };
    let len = encode_response(response, b"LPC", &mut out).unwrap();
    assert_eq!(&out[..len], b"022 LPC HYG PIO2_3 LOW <3\n");
    assert_eq!(decoded_response(&out[..len]), Ok(response));

    let status = Packet {
        id: id(23),
        body: Response::<&[u8], &[u8]>::Status { identity: b"LPC1115 GPIO" },
    };
    let len = encode_response(status, b"LPC", &mut out).unwrap();
    assert_eq!(&out[..len], b"023 LPC IAM LPC1115 GPIO <3\n");
    assert_eq!(decoded_response(&out[..len]), Ok(status));
}

#[test]
fn pin_mapping_has_physical_package_numbers() {
    assert_eq!(pin(0).to_token(), b"PA00".to_vec());
    assert_eq!(pin(44).to_token(), b"PB12".to_vec());
    assert_eq!(pin(44).package_pin(), 87);
    assert_eq!(pin(72).to_token(), b"PC25".to_vec());
    assert_eq!(Pin::from_port_bit(Port::E, 5), Ok(pin(116)));
}

#[test]
fn pin_targets_iterate_contiguous_scope_and_filter_reserved_pins() {
    let single = PinTarget::Pin(pin(44));
    assert_eq!(single.pins(), [pin(44)]);

    let bank = PinTarget::Bank(Port::B);
    let bank_pins = bank.pins();
    assert_eq!(bank_pins.first(), Some(&pin(32)));
    assert_eq!(bank_pins.last(), Some(&pin(46)));
    assert_eq!(bank_pins.len(), 15);
    assert_eq!(bank.available_pins().len(), 11);

    assert_eq!(PinTarget::All.pins().len(), WIRE_PIN_COUNT as usize);
    assert_eq!(PinTarget::All.available_pins().len(), 113);
}

#[test]
fn pin_table_indexes_with_pin_values() {
    let mut table = PinTable::filled(Level::Low);
    let target = pin(72);
    table.set(target, Level::High);
    assert_eq!(table[target], Level::High);
    assert_eq!(table[pin(71)], Level::Low);
}

#[test]
fn pin_table_fills_and_iterates_in_wire_order() {
    let mut table = PinTable::filled(0u8);
    for (index, slot) in table.iter_mut().enumerate() {
        *slot = (index % 7) as u8;
    }
    assert_eq!(table[pin(0)], 0);
    assert_eq!(table[pin(8)], 1);
    assert_eq!(table.iter().count(), WIRE_PIN_COUNT as usize);
    assert_eq!(table.as_slice()[116], (116 % 7) as u8);
    table.fill(3);
    assert!(table.iter().all(|&value| value == 3));
    assert_eq!(*table.get(pin(44)), 3);
}
