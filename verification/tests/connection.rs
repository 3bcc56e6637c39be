use gpiodemo::connection::{
    completion, BankInfo, BankKey, Completion, Connection, ConnectionError, DeviceEvent,
    ListenerPin, ListenerRoute, ListenerValue, OwnedResponse, PinInfo, PinKey, RouteKey, RoutePin,
    Target,
};
use gpiodemo::io_state::{
    active_listener, coalesce_listener_update, route_line, transient_io_kind, IoAction,
    IoCommand, IoErrorKind, IoState,
};
use gpiodemo::message::{DecodeError, DecodeErrorKind, EncodeError, Packet};
use gpiodemo::request::Request;
use gpiodemo::request_id::RequestId;
use gpiodemo::response::{Response, ResponseError};
use gpiodemo::values::{Direction, Level, PinCapabilities};

type WireResponse = Response<Vec<u8>, Vec<u8>>;

fn route_pin(token: &[u8], package_pin: u16, bank: BankKey, bit: u8, capabilities: PinCapabilities) -> RoutePin {
    RoutePin {
        info: PinInfo { token: token.to_vec(), package_pin: Some(package_pin), bank, bit, capabilities },
        input: false,
        listener: None,
    }
}

fn install_sam(connection: &mut Connection, sam: RouteKey) {
    let bank = BankKey { route: sam, index: 0 };
    connection.install_map(
        sam,
        vec![BankInfo { token: b"PIOA".to_vec() }],
        vec![
            route_pin(b"PA00", 102, bank, 0, PinCapabilities::GPIO()),
            route_pin(b"PA01", 99, bank, 1, PinCapabilities::GPIO()),
        ],
    );
}

fn install_lpc(connection: &mut Connection, lpc: RouteKey) {
    let bank = BankKey { route: lpc, index: 0 };
    connection.install_map(
        lpc,
        vec![BankInfo { token: b"PIO2".to_vec() }],
        vec![route_pin(b"PIO2_3", 38, bank, 3, PinCapabilities::INPUT())],
    );
}

fn routes() -> (Connection, RouteKey, RouteKey) {
    let connection = Connection::new(&[b"SAM".as_slice(), b"LPC".as_slice()]);
    let sam = connection.route_key(b"SAM").unwrap();
    let lpc = connection.route_key(b"LPC").unwrap();
    (connection, sam, lpc)
}

fn setup() -> (Connection, RouteKey, RouteKey, PinKey, PinKey, BankKey) {
    let (mut connection, sam, lpc) = routes();
    install_sam(&mut connection, sam);
    install_lpc(&mut connection, lpc);
    let pa00 = connection.pin_key(sam, b"PA00").unwrap();
    let lpc23 = connection.pin_key(lpc, b"PIO2_3").unwrap();
    let pioa = connection.bank_key(sam, b"PIOA").unwrap();
    (connection, sam, lpc, pa00, lpc23, pioa)
}

/// The routes of `setup` with no pin map on SAM yet.
fn setup_without_sam_map() -> (Connection, RouteKey, RouteKey) {
    let (mut connection, sam, lpc) = routes();
    install_lpc(&mut connection, lpc);
    (connection, sam, lpc)
}

fn request_id(raw: u16) -> RequestId {
    RequestId::new(raw).unwrap()
}

fn incoming(source: &str, id: RequestId, body: WireResponse) -> OwnedResponse {
    OwnedResponse { source: source.as_bytes().to_vec(), packet: Packet { id, body } }
}

fn listener_pin(key: PinKey, token: &[u8], id: RequestId) -> ListenerPin {
    ListenerPin { key, token: token.to_vec(), id }
}

#[test]
fn route_request_encoding_uses_discovered_targets_and_global_ids() {
    let (mut connection, sam, lpc, pa00, lpc23, _) = setup();
    let (sam_id, sam_wire) = connection.prepare(sam, Request::Get { target: Target::Pin(pa00) }).unwrap();
    let (lpc_id, lpc_wire) = connection.prepare(lpc, Request::Get { target: Target::Pin(lpc23) }).unwrap();
    assert_eq!(sam_id, request_id(1));
    assert_eq!(lpc_id, request_id(2));
    assert_eq!(sam_wire, b"001 SAM GET PA00 OK?\n");
    assert_eq!(lpc_wire, b"002 LPC GET PIO2_3 OK?\n");
}

#[test]
fn route_normal_response_source_is_checked_without_retiring_request() {
    let (mut connection, sam, _, _, _, _) = setup();
    let (id, _) = connection.prepare(sam, Request::Hello).unwrap();
    assert_eq!(
        connection.received(incoming("LPC", id, WireResponse::Hello)).unwrap_err(),
        ConnectionError::WrongSource { id, source: b"LPC".to_vec(), expected: b"SAM".to_vec() }
    );
    assert!(connection.is_pending(id));
    assert_eq!(
        connection.received(incoming("SAM", id, WireResponse::Hello)).unwrap(),
        DeviceEvent::Hello { route: sam }
    );
    assert!(!connection.is_pending(id));
}

#[test]
fn route_intermediate_error_can_retire_downstream_request() {
    let (mut connection, _, lpc, _, _, _) = setup();
    let (id, _) = connection.prepare(lpc, Request::Hello).unwrap();
    assert_eq!(
        connection
            .received(incoming(
                "SAM",
                id,
                WireResponse::Error(ResponseError::RouteDown { next_hop: b"LPC".to_vec() }),
            ))
            .unwrap(),
        DeviceEvent::DeviceError {
            route: lpc,
            source: b"SAM".to_vec(),
            request: Request::Hello,
            error: ResponseError::RouteDown { next_hop: b"LPC".to_vec() },
        }
    );
    assert!(!connection.is_pending(id));
}

#[test]
fn map_stream_builds_dynamic_route_state_only_on_ack() {
    let (mut connection, sam, _) = setup_without_sam_map();
    let (id, wire) = connection.prepare(sam, Request::PinMap).unwrap();
    assert_eq!(wire, b"001 SAM MAP\n");
    assert_eq!(completion(Request::PinMap), Completion::Stream);

    for body in [
        WireResponse::MapBank { bank: b"GPIO0".to_vec() },
        WireResponse::MapBank { bank: b"GPIO1".to_vec() },
        WireResponse::MapPin {
            target: b"P0_7".to_vec(),
            package_pin: None,
            bank: b"GPIO0".to_vec(),
            bit: 7,
            capabilities: PinCapabilities::INPUT_PULLUP(),
        },
        WireResponse::MapPin {
            target: b"LED_A".to_vec(),
            package_pin: Some(48),
            bank: b"GPIO1".to_vec(),
            bit: 3,
            capabilities: PinCapabilities::GPIO(),
        },
    ] {
        assert_eq!(connection.received(incoming("SAM", id, body)).unwrap(), DeviceEvent::Untracked);
        assert!(!connection.has_map(sam));
        assert!(connection.is_pending(id));
    }

    assert_eq!(
        connection.received(incoming("SAM", id, WireResponse::Ack)).unwrap(),
        DeviceEvent::MapReady { route: sam }
    );
    assert!(!connection.is_pending(id));
    assert_eq!(connection.banks(sam).len(), 2);
    assert_eq!(connection.pins(sam).len(), 2);
    let led = connection.pin_key(sam, b"LED_A").unwrap();
    assert_eq!(connection.pin_info(led).unwrap().package_pin, Some(48));
    assert!(connection.pin_info(led).unwrap().capabilities.output());
}

#[test]
fn malformed_correlated_response_retires_partial_map() {
    let (mut connection, sam, _) = setup_without_sam_map();
    let (id, _) = connection.prepare(sam, Request::PinMap).unwrap();
    connection.received(incoming("SAM", id, WireResponse::MapBank { bank: b"PIOA".to_vec() })).unwrap();

    let error = DecodeError { id: Some(id), kind: DecodeErrorKind::Malformed };
    assert_eq!(connection.received_line(Err(error)), Err(ConnectionError::Malformed(error)));
    assert!(!connection.is_pending(id));
    assert!(!connection.discovery_in_progress(sam));
}

#[test]
fn map_validation_failure_retires_request_and_discards_partial_map() {
    let (mut connection, sam, _) = setup_without_sam_map();
    let (id, _) = connection.prepare(sam, Request::PinMap).unwrap();
    connection.received(incoming("SAM", id, WireResponse::MapBank { bank: b"PIOA".to_vec() })).unwrap();

    let error = connection
        .received(incoming(
            "SAM",
            id,
            WireResponse::MapPin {
                target: b"PA00".to_vec(),
                package_pin: Some(102),
                bank: b"MISSING".to_vec(),
                bit: 0,
                capabilities: PinCapabilities::GPIO(),
            },
        ))
        .unwrap_err();

    assert_eq!(error, ConnectionError::UnknownBank { pin: b"PA00".to_vec(), bank: b"MISSING".to_vec() });
    assert!(!connection.is_pending(id));
    assert!(!connection.discovery_in_progress(sam));
    assert!(!connection.has_map(sam));
}

#[test]
fn route_target_keys_cannot_cross_routes() {
    let (mut connection, sam, lpc, _, lpc23, _) = setup();
    let error = connection.prepare(sam, Request::Get { target: Target::Pin(lpc23) }).unwrap_err();
    assert_eq!(error, ConnectionError::ForeignTarget);
    assert!(connection.prepare(lpc, Request::PinMap).is_ok());
    assert!(connection.prepare(lpc, Request::PinMap).is_err());
}

#[test]
fn route_typed_requests_do_not_interrupt_map_discovery() {
    let (mut connection, sam, _) = setup_without_sam_map();
    let (map_id, _) = connection.prepare(sam, Request::PinMap).unwrap();

    assert_eq!(
        connection.prepare(sam, Request::Hello).unwrap_err(),
        ConnectionError::DiscoveryInProgress { route: b"SAM".to_vec() }
    );
    assert!(connection.is_pending(map_id));
    assert!(connection.discovery_in_progress(sam));
}

#[test]
fn listener_lifetime_persists_and_grouped_streams_end_at_ack() {
    let (mut connection, sam, _, pa00, _, pioa) = setup();
    let direction = Request::Direction { target: Target::Pin(pa00), direction: Direction::Input };
    let (direction_id, _) = connection.prepare(sam, direction).unwrap();
    connection.received(incoming("SAM", direction_id, WireResponse::Ack)).unwrap();

    let listen = Request::Listen { target: Target::Pin(pa00), enabled: true };
    let (listen_id, _) = connection.prepare(sam, listen).unwrap();
    connection.received(incoming("SAM", listen_id, WireResponse::Ack)).unwrap();
    assert!(connection.is_pending(listen_id));
    assert_eq!(
        connection
            .received(incoming(
                "SAM",
                listen_id,
                WireResponse::Value { target: b"PA00".to_vec(), level: Level::High },
            ))
            .unwrap(),
        DeviceEvent::PinValue { pin: pa00, level: Level::High }
    );
    assert!(connection.is_pending(listen_id));

    let (get_id, _) = connection.prepare(sam, Request::Get { target: Target::Bank(pioa) }).unwrap();
    connection
        .received(incoming("SAM", get_id, WireResponse::Value { target: b"PA00".to_vec(), level: Level::Low }))
        .unwrap();
    assert!(connection.is_pending(get_id));
    connection.received(incoming("SAM", get_id, WireResponse::Ack)).unwrap();
    assert!(!connection.is_pending(get_id));
}

#[test]
fn listener_updates_coalesce_by_route_and_pin_key() {
    let (_connection, sam, lpc, pa00, lpc23, _) = setup();
    let routes = vec![
        ListenerRoute { name: b"SAM".to_vec(), pin_count: 2, pins: vec![listener_pin(pa00, b"PA00", request_id(8))] },
        ListenerRoute {
            name: b"LPC".to_vec(),
            pin_count: 1,
            pins: vec![listener_pin(lpc23, b"PIO2_3", request_id(9))],
        },
    ];
    let mut updates: Vec<Vec<Option<ListenerValue>>> = vec![vec![None; 2], vec![None; 1]];
    assert_eq!(active_listener(&routes, b"SAM", request_id(8), b"PA00"), Some(pa00));
    assert_eq!(active_listener(&routes, b"LPC", request_id(9), b"PIO2_3"), Some(lpc23));
    assert_eq!(active_listener(&routes, b"SAM", request_id(9), b"PIO2_3"), None);

    coalesce_listener_update(&mut updates, pa00, b"008 SAM HYG PA00 LOW <3".to_vec(), request_id(8), Level::Low);
    coalesce_listener_update(&mut updates, pa00, b"008 SAM HYG PA00 HIGH <3".to_vec(), request_id(8), Level::High);
    coalesce_listener_update(
        &mut updates,
        lpc23,
        b"009 LPC HYG PIO2_3 HIGH <3".to_vec(),
        request_id(9),
        Level::High,
    );
    assert_eq!(updates[sam.0][pa00.index].as_ref().unwrap().coalesced, 1);
    assert_eq!(updates[sam.0][pa00.index].as_ref().unwrap().level, Level::High);
    assert_eq!(updates[lpc.0][lpc23.index].as_ref().unwrap().coalesced, 0);
    assert_eq!(updates[lpc.0][lpc23.index].as_ref().unwrap().pin, lpc23);
}

#[test]
fn listener_map_discards_stale_updates_when_snapshot_changes() {
    let mut state = IoState::new();
    let route = RouteKey(0);
    let pin = PinKey { route, index: 0 };
    state.handle_command(IoCommand::Listeners(vec![ListenerRoute {
        name: b"SAM".to_vec(),
        pin_count: 1,
        pins: vec![listener_pin(pin, b"PA00", request_id(8))],
    }]));
    coalesce_listener_update(
        &mut state.listener_updates,
        pin,
        b"008 SAM HYG PA00 HIGH <3".to_vec(),
        request_id(8),
        Level::High,
    );
    state.handle_command(IoCommand::Listeners(vec![ListenerRoute {
        name: b"SAM".to_vec(),
        pin_count: 1,
        pins: vec![listener_pin(pin, b"PA00", request_id(9))],
    }]));
    let action = state.handle_command(IoCommand::DrainListeners);
    assert!(matches!(action, IoAction::Idle));
}

#[test]
fn listener_snapshot_preserves_updates_for_unchanged_listener() {
    let mut state = IoState::new();
    let route = RouteKey(0);
    let first = PinKey { route, index: 0 };
    let second = PinKey { route, index: 1 };
    state.handle_command(IoCommand::Listeners(vec![ListenerRoute {
        name: b"SAM".to_vec(),
        pin_count: 2,
        pins: vec![listener_pin(first, b"PA00", request_id(8))],
    }]));
    coalesce_listener_update(
        &mut state.listener_updates,
        first,
        b"008 SAM HYG PA00 HIGH <3".to_vec(),
        request_id(8),
        Level::High,
    );

    state.handle_command(IoCommand::Listeners(vec![ListenerRoute {
        name: b"SAM".to_vec(),
        pin_count: 2,
        pins: vec![listener_pin(first, b"PA00", request_id(8)), listener_pin(second, b"PA01", request_id(9))],
    }]));
    let IoAction::ListenerValues(values) = state.handle_command(IoCommand::DrainListeners) else {
        panic!("expected preserved listener update");
    };
    assert_eq!(values.len(), 1);
    assert_eq!(values[0].pin, first);
    assert_eq!(values[0].level, Level::High);
}

#[test]
fn request_ids_wrap_and_skip_persistent_listener() {
    let (mut connection, sam, lpc) = routes();
    let bank = BankKey { route: sam, index: 0 };
    let mut pa00_pin = route_pin(b"PA00", 102, bank, 0, PinCapabilities::GPIO());
    pa00_pin.input = true;
    connection.install_map(
        sam,
        vec![BankInfo { token: b"PIOA".to_vec() }],
        vec![pa00_pin, route_pin(b"PA01", 99, bank, 1, PinCapabilities::GPIO())],
    );
    install_lpc(&mut connection, lpc);
    let pa00 = connection.pin_key(sam, b"PA00").unwrap();

    let (listener, _) = connection.prepare(sam, Request::Listen { target: Target::Pin(pa00), enabled: true }).unwrap();
    connection.received(incoming("SAM", listener, WireResponse::Ack)).unwrap();
    for _ in 2..=RequestId::MAX {
        let (id, _) = connection.prepare(sam, Request::Hello).unwrap();
        connection.received(incoming("SAM", id, WireResponse::Hello)).unwrap();
    }
    let (id, _) = connection.prepare(sam, Request::Hello).unwrap();
    assert_eq!(id, request_id(2));
    assert!(connection.is_pending(listener));
}

#[test]
fn transient_serial_errors_are_retryable() {
    for kind in [IoErrorKind::TimedOut, IoErrorKind::WouldBlock, IoErrorKind::Interrupted] {
        assert!(transient_io_kind(kind));
    }
    assert!(!transient_io_kind(IoErrorKind::BrokenPipe));
}

#[test]
fn stale_write_after_disconnect_is_dropped_without_error() {
    let mut state = IoState::new();
    let action = state.handle_command(IoCommand::Write(b"001 SAM HAI\n".to_vec()));
    assert!(state.writes.is_empty());
    assert!(matches!(action, IoAction::Idle));
}

#[test]
fn transient_kinds_are_the_three_retryable_ones() {
    assert!(transient_io_kind(IoErrorKind::TimedOut));
    assert!(transient_io_kind(IoErrorKind::WouldBlock));
    assert!(transient_io_kind(IoErrorKind::Interrupted));
    assert!(!transient_io_kind(IoErrorKind::Other));
    assert!(!transient_io_kind(IoErrorKind::UnexpectedEof));
    assert!(!transient_io_kind(IoErrorKind::Unlisted));
}

#[test]
fn unknown_route_and_keys_are_refused() {
    let (mut connection, sam, _, _, _, _) = setup();
    assert_eq!(connection.prepare(RouteKey(7), Request::Hello), Err(ConnectionError::UnknownRoute));
    assert_eq!(
        connection.prepare(sam, Request::Get { target: Target::Pin(PinKey { route: sam, index: 9 }) }),
        Err(ConnectionError::UnknownPinKey)
    );
    assert_eq!(
        connection.prepare(sam, Request::Get { target: Target::Bank(BankKey { route: sam, index: 9 }) }),
        Err(ConnectionError::UnknownBankKey)
    );
    let (id, wire) = connection.prepare(sam, Request::Get { target: Target::All }).unwrap();
    assert_eq!(wire, format!("{:03} SAM GET ALL OK?\n", id.get()).into_bytes());
}

#[test]
fn map_in_progress_and_duplicate_discoveries_are_refused() {
    let (mut connection, sam, _) = setup_without_sam_map();
    let (id, _) = connection.prepare(sam, Request::PinMap).unwrap();
    assert_eq!(
        connection.prepare(sam, Request::PinMap),
        Err(ConnectionError::MapInProgress { route: b"SAM".to_vec() })
    );
    connection.received(incoming("SAM", id, WireResponse::MapBank { bank: b"PIOA".to_vec() })).unwrap();
    assert_eq!(
        connection.received(incoming("SAM", id, WireResponse::MapBank { bank: b"PIOA".to_vec() })),
        Err(ConnectionError::DuplicateBank { token: b"PIOA".to_vec() })
    );
    assert!(!connection.is_pending(id));
}

#[test]
fn encode_errors_surface_from_prepare() {
    let mut connection = Connection::new(&[b"BAD ROUTE".as_slice()]);
    let route = connection.route_key(b"BAD ROUTE").unwrap();
    assert_eq!(connection.prepare(route, Request::Hello), Err(ConnectionError::Encode(EncodeError::InvalidRouteToken)));
}

#[test]
fn cleared_connection_forgets_pending_requests() {
    let (mut connection, sam, _, _, _, _) = setup();
    let (id, _) = connection.prepare(sam, Request::Hello).unwrap();
    connection.clear();
    assert!(!connection.is_pending(id));
    assert!(!connection.has_map(sam));
}

#[test]
fn map_pieces_are_refused_outside_discovery_and_when_they_clash() {
    let (mut connection, sam, _, _, _, _) = setup();
    let (hello, _) = connection.prepare(sam, Request::Hello).unwrap();
    assert_eq!(
        connection.received(incoming("SAM", hello, WireResponse::MapBank { bank: b"PIOB".to_vec() })),
        Err(ConnectionError::UnexpectedMapResponse { id: hello })
    );
    assert!(!connection.is_pending(hello));

    let (mut connection, sam, _) = setup_without_sam_map();
    let (id, _) = connection.prepare(sam, Request::PinMap).unwrap();
    connection.received(incoming("SAM", id, WireResponse::MapBank { bank: b"PIOA".to_vec() })).unwrap();
    let pin = |token: &[u8], bit: u8| WireResponse::MapPin {
        target: token.to_vec(),
        package_pin: None,
        bank: b"PIOA".to_vec(),
        bit,
        capabilities: PinCapabilities::GPIO(),
    };
    assert_eq!(connection.received(incoming("SAM", id, pin(b"PA00", 0))), Ok(DeviceEvent::Untracked));
    assert_eq!(
        connection.received(incoming("SAM", id, pin(b"PA01", 0))),
        Err(ConnectionError::DuplicateBankBit { bank: b"PIOA".to_vec(), bit: 0 })
    );
    assert!(!connection.discovery_in_progress(sam));

    let (id, _) = connection.prepare(sam, Request::PinMap).unwrap();
    connection.received(incoming("SAM", id, WireResponse::MapBank { bank: b"PIOA".to_vec() })).unwrap();
    connection.received(incoming("SAM", id, pin(b"PA00", 0))).unwrap();
    assert_eq!(
        connection.received(incoming("SAM", id, pin(b"PA00", 1))),
        Err(ConnectionError::DuplicatePin { token: b"PA00".to_vec() })
    );
    assert!(!connection.is_pending(id));
}

#[test]
fn answers_naming_undiscovered_pins_are_refused() {
    let (mut connection, sam, _, pa00, _, _) = setup();
    let (id, _) = connection.prepare(sam, Request::Get { target: Target::Pin(pa00) }).unwrap();
    assert_eq!(
        connection.received(incoming("SAM", id, WireResponse::Value { target: b"PZ99".to_vec(), level: Level::Low })),
        Err(ConnectionError::UndiscoveredPin { route: b"SAM".to_vec(), token: b"PZ99".to_vec() })
    );
    assert!(!connection.is_pending(id));
}

#[test]
fn request_ids_run_out_while_all_are_pending() {
    let (mut connection, sam, _, _, _, _) = setup();
    for _ in 0..RequestId::COUNT {
        connection.prepare(sam, Request::Hello).unwrap();
    }
    assert_eq!(connection.prepare(sam, Request::Hello), Err(ConnectionError::RequestIdsExhausted));
}

#[test]
fn answers_to_unknown_ids_are_untracked_and_bye_resets_the_route() {
    let (mut connection, sam, _, pa00, _, _) = setup();
    assert_eq!(connection.received(incoming("SAM", request_id(42), WireResponse::Hello)), Ok(DeviceEvent::Untracked));

    let (direction, _) = connection
        .prepare(sam, Request::Direction { target: Target::Pin(pa00), direction: Direction::Input })
        .unwrap();
    assert_eq!(
        connection.received(incoming("SAM", direction, WireResponse::Ack)),
        Ok(DeviceEvent::Ack {
            route: sam,
            request: Request::Direction { target: Target::Pin(pa00), direction: Direction::Input },
        })
    );
    let (listen, _) = connection.prepare(sam, Request::Listen { target: Target::Pin(pa00), enabled: true }).unwrap();
    connection.received(incoming("SAM", listen, WireResponse::Ack)).unwrap();
    assert!(connection.listener_is_active(pa00, listen));

    let (bye, _) = connection.prepare(sam, Request::Bye).unwrap();
    assert_eq!(connection.received(incoming("SAM", bye, WireResponse::Bye)), Ok(DeviceEvent::Bye { route: sam }));
    assert!(!connection.listener_is_active(pa00, listen));
    assert!(!connection.is_pending(listen));
    assert!(connection.has_map(sam));
}

#[test]
fn serial_worker_routes_lines_and_keeps_listener_updates_in_their_slots() {
    let mut state = IoState::new();
    let pin = PinKey { route: RouteKey(0), index: 1 };
    state.handle_command(IoCommand::Listeners(vec![ListenerRoute {
        name: b"SAM".to_vec(),
        pin_count: 2,
        pins: vec![listener_pin(pin, b"PA01", request_id(8))],
    }]));

    assert!(route_line(&mut state, b"008 SAM HYG PA01 HIGH <3").is_none());
    let stored = state.listener_updates[0][1].as_ref().unwrap();
    assert_eq!((stored.pin, stored.level, stored.coalesced), (pin, Level::High, 0));
    assert_eq!(stored.line, b"008 SAM HYG PA01 HIGH <3");

    let event = route_line(&mut state, b"009 SAM HYG PA00 LOW <3").unwrap();
    let response = event.packet.unwrap();
    assert_eq!(response.source, b"SAM");
    assert_eq!(response.packet.id, request_id(9));
    assert_eq!(response.packet.body, WireResponse::Value { target: b"PA00".to_vec(), level: Level::Low });

    let event = route_line(&mut state, b"010 SAM WAT <3").unwrap();
    assert_eq!(event.packet.err(), Some(DecodeError { id: Some(request_id(10)), kind: DecodeErrorKind::UnknownCommand }));
    let event = route_line(&mut state, b"garbage").unwrap();
    assert_eq!(event.line, b"garbage");
    assert_eq!(event.packet.err(), Some(DecodeError { id: None, kind: DecodeErrorKind::Malformed }));
}

#[test]
fn serial_worker_writes_queued_packets_in_order() {
    let mut state = IoState::new();
    assert!(matches!(state.handle_command(IoCommand::Connect("/dev/ttyACM0".into())), IoAction::Open(name) if name == "/dev/ttyACM0"));
    state.connected = true;
    state.handle_command(IoCommand::Write(b"001 SAM HAI\n".to_vec()));
    state.handle_command(IoCommand::Write(b"002 SAM HRU\n".to_vec()));
    assert_eq!(state.pending_write(), Some(b"001 SAM HAI\n".as_slice()));
    state.wrote(4);
    assert_eq!(state.pending_write(), Some(b"SAM HAI\n".as_slice()));
    state.wrote(8);
    assert_eq!(state.pending_write(), Some(b"002 SAM HRU\n".as_slice()));
    assert!(matches!(state.handle_command(IoCommand::Disconnect), IoAction::Disconnected));
    assert!(!state.connected);
    assert_eq!(state.pending_write(), None);
}
