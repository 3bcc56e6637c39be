use std::cell::Cell;

use gpiodemo::gpio::{
    level_from_bank, with_bank_bit, BankId, BankInfo, Capabilities, Firmware, GpioHal, PadMode, PinId, PinInfo, PinMap,
    PinMapView, Target, MAX_BANKS, MAX_PINS,
};
use gpiodemo::lpc::{iocon_gpio_value, lpc_hw_table, lpc_identity, lpc_pin_map, pin_hw, LpcBank, LpcPadKind};
use gpiodemo::message::{Message, Packet};
use gpiodemo::request::{DecodedRequest, Request};
use gpiodemo::request_id::RequestId;
use gpiodemo::response::{Response, ResponseError};
use gpiodemo::message::{DecodeError, DecodeErrorKind};
use gpiodemo::router::{decode_error_response, Router};
use gpiodemo::values::{Direction, Level, PinCapabilities, Query, QueryValue, TargetError};

const BANK_0: u8 = 0;
const BANK_1: u8 = 1;

fn synth_map() -> &'static PinMap {
    let banks = vec![BankInfo::new("PIO0"), BankInfo::new("PORTX")];
    let pins = vec![
        PinInfo::new("PIO0_0", Some(1), BankId::new(BANK_0), 0, Capabilities::GPIO()),
        PinInfo::new("PIO0_1", Some(2), BankId::new(BANK_0), 1, Capabilities::NONE()),
        PinInfo::new("PX07", None, BankId::new(BANK_1), 7, Capabilities::INPUT_ONLY()),
        PinInfo::new("PX08", Some(8), BankId::new(BANK_1), 8, Capabilities::GPIO()),
    ];
    Box::leak(Box::new(PinMap::new(banks, pins)))
}

struct FakeHal {
    map: &'static PinMap,
    values: [Level; MAX_PINS],
    inputs: [bool; MAX_PINS],
    outputs: [bool; MAX_PINS],
    pull_ups: [bool; MAX_PINS],
    bank_reads: Cell<[u16; MAX_BANKS]>,
}

impl FakeHal {
    fn new(map: &'static PinMap) -> Self {
        Self {
            map,
            values: [Level::Low; MAX_PINS],
            inputs: [false; MAX_PINS],
            outputs: [false; MAX_PINS],
            pull_ups: [false; MAX_PINS],
            bank_reads: Cell::new([0; MAX_BANKS]),
        }
    }

    fn reset_reads(&self) {
        self.bank_reads.set([0; MAX_BANKS]);
    }
}

impl GpioHal for FakeHal {
    /// The view of `self.map`; only the contracts speak of it.
    fn spec_map(&self) -> PinMapView {
        unreachable!("the pin map's view exists only in specifications")
    }

    /// An output drives the level last given to it; any other pin is an
    /// input with its recorded pull-up.
    fn spec_mode(&self, pin: PinId) -> PadMode {
        if self.outputs[pin.index()] {
            PadMode::Output { level: self.values[pin.index()] }
        } else {
            PadMode::Input { pull_up: self.pull_ups[pin.index()] }
        }
    }

    fn pin_map(&self) -> &'static PinMap {
        self.map
    }

    fn input(&mut self, pin: PinId, pull_up: bool) {
        self.inputs[pin.index()] = true;
        self.outputs[pin.index()] = false;
        self.pull_ups[pin.index()] = pull_up;
    }

    fn output(&mut self, pin: PinId, level: Level) {
        self.inputs[pin.index()] = false;
        self.outputs[pin.index()] = true;
        self.pull_ups[pin.index()] = false;
        self.values[pin.index()] = level;
    }

    fn write(&mut self, pin: PinId, level: Level) {
        self.values[pin.index()] = level;
    }

    /// The bank's pins that hold `High`, one bit each.
    fn spec_input_bits(&self, bank: BankId) -> u32 {
        self.map.pins_for(Target::Bank(bank)).into_iter().fold(0, |bits, pin| {
            let info = self.map.pin(pin);
            if self.values[pin.index()] == Level::High {
                bits | (1u32 << info.bit)
            } else {
                bits
            }
        })
    }

    fn read_bank(&self, bank: BankId) -> u32 {
        let mut reads = self.bank_reads.get();
        reads[bank.index()] += 1;
        self.bank_reads.set(reads);
        self.spec_input_bits(bank)
    }
}

fn id(raw: u16) -> RequestId {
    RequestId::new(raw).unwrap()
}

fn request(raw: u16, body: Request<&'static [u8]>) -> Packet<DecodedRequest<'static>> {
    Packet { id: id(raw), body }
}

fn firmware() -> Firmware {
    Firmware::new(b"SYNTH GPIO")
}

fn pin_error(token: &'static [u8], reason: TargetError) -> Response<&'static [u8], &'static [u8]> {
    Response::Error(ResponseError::Target { target: token, reason })
}

#[test]
fn pin_map_resolves_native_pin_bank_and_all_without_mcu_branches() {
    let map = synth_map();
    assert_eq!(map.resolve(b"PIO0"), Some(Target::Bank(BankId::new(BANK_0))));
    assert_eq!(map.resolve(b"ALL"), Some(Target::All));
    assert_eq!(map.resolve(b"PIO0_0"), Some(Target::Pin(PinId::new(0))));
    assert_eq!(map.resolve(b"PX08"), Some(Target::Pin(PinId::new(3))));
    assert_eq!(map.resolve(b"PA00"), None);
}

#[test]
fn direction_pullup_read_and_identity_use_map_metadata() {
    let mut firmware = firmware();
    let mut gpio = FakeHal::new(synth_map());

    assert_eq!(
        firmware.handle(request(1, Request::Status), &mut gpio).body,
        Response::Status { identity: b"SYNTH GPIO".as_slice() }
    );
    assert_eq!(
        firmware.handle(request(2, Request::Get { target: b"PIO0_0" }), &mut gpio).body,
        pin_error(b"PIO0_0", TargetError::Unset)
    );

    firmware.handle(
        request(3, Request::Direction { target: b"PIO0_0", direction: Direction::Input }),
        &mut gpio,
    );
    firmware.handle(request(4, Request::Pullup { target: b"PIO0_0", enabled: true }), &mut gpio);
    assert!(gpio.inputs[0]);
    assert!(gpio.pull_ups[0]);
    gpio.values[0] = Level::High;
    assert_eq!(
        firmware.handle(request(5, Request::Get { target: b"PIO0_0" }), &mut gpio).body,
        Response::Value { target: b"PIO0_0".as_slice(), level: Level::High }
    );
}

#[test]
fn capability_and_unknown_target_errors_are_local_to_the_map() {
    let mut firmware = firmware();
    let mut gpio = FakeHal::new(synth_map());

    assert_eq!(
        firmware
            .handle(
                request(1, Request::Direction { target: b"PIO0_1", direction: Direction::Input }),
                &mut gpio,
            )
            .body,
        pin_error(b"PIO0_1", TargetError::Unavailable)
    );
    assert_eq!(
        firmware.handle(request(2, Request::Get { target: b"PA00" }), &mut gpio).body,
        Response::Error(ResponseError::BadPacket)
    );
    assert_eq!(
        firmware
            .handle(
                request(3, Request::Direction { target: b"PX07", direction: Direction::Output }),
                &mut gpio,
            )
            .body,
        pin_error(b"PX07", TargetError::Unavailable)
    );
}

#[test]
fn grouped_mutations_follow_active_map_and_skip_unavailable_pins() {
    let mut firmware = firmware();
    let mut gpio = FakeHal::new(synth_map());
    firmware.handle(
        request(1, Request::Direction { target: b"ALL", direction: Direction::Output }),
        &mut gpio,
    );
    firmware.handle(request(2, Request::SetLevel { target: b"ALL", level: Level::High }), &mut gpio);

    assert!(gpio.outputs[0]);
    assert!(!gpio.outputs[1]);
    assert!(!gpio.outputs[2]);
    assert!(gpio.outputs[3]);
    assert_eq!(gpio.values[0], Level::High);
    assert_eq!(gpio.values[3], Level::High);
}

#[test]
fn grouped_get_and_query_stream_until_terminal_ack() {
    let mut firmware = firmware();
    let mut gpio = FakeHal::new(synth_map());
    for target in [b"PIO0_0".as_slice(), b"PX08"] {
        firmware.handle(request(1, Request::Direction { target, direction: Direction::Input }), &mut gpio);
    }
    gpio.values[3] = Level::High;

    assert_eq!(
        firmware.handle(request(20, Request::Get { target: b"ALL" }), &mut gpio),
        Packet { id: id(20), body: Response::Value { target: b"PIO0_0".as_slice(), level: Level::Low } }
    );
    assert_eq!(
        firmware.poll_bulk(&gpio),
        Some(Packet { id: id(20), body: Response::Value { target: b"PX08".as_slice(), level: Level::High } })
    );
    assert_eq!(firmware.poll_bulk(&gpio), Some(Packet { id: id(20), body: Response::Ack }));

    let first = firmware.handle(
        request(21, Request::Query { target: b"PORTX", what: Query::Direction }),
        &mut gpio,
    );
    assert_eq!(
        first.body,
        Response::State { target: b"PX07".as_slice(), what: Query::Direction, value: QueryValue::Unset }
    );
    let second = firmware.poll_bulk(&gpio).unwrap();
    assert_eq!(second.id, id(21));
    assert!(matches!(second.body, Response::State { target: b"PX08", .. }));
    assert_eq!(firmware.poll_bulk(&gpio).unwrap().body, Response::Ack);
}

#[test]
fn listeners_keep_request_ids_read_each_bank_once_and_rotate_fairly() {
    let mut firmware = firmware();
    let mut gpio = FakeHal::new(synth_map());
    for (raw, target) in [(10, b"PIO0_0".as_slice()), (11, b"PX08")] {
        firmware.handle(request(raw, Request::Direction { target, direction: Direction::Input }), &mut gpio);
        firmware.handle(request(raw + 100, Request::Listen { target, enabled: true }), &mut gpio);
    }

    gpio.reset_reads();
    assert_eq!(firmware.poll_listener(&gpio), None);
    let reads = gpio.bank_reads.get();
    assert_eq!(reads[BankId::new(BANK_0).index()], 1);
    assert_eq!(reads[BankId::new(BANK_1).index()], 1);

    gpio.values[0] = Level::High;
    gpio.values[3] = Level::High;
    assert_eq!(
        firmware.poll_listener(&gpio),
        Some(Packet { id: id(110), body: Response::Value { target: b"PIO0_0".as_slice(), level: Level::High } })
    );
    gpio.values[0] = Level::Low;
    assert_eq!(
        firmware.poll_listener(&gpio),
        Some(Packet { id: id(111), body: Response::Value { target: b"PX08".as_slice(), level: Level::High } })
    );
}

#[test]
fn bye_releases_initialized_pins_and_listener_state() {
    let mut firmware = firmware();
    let mut gpio = FakeHal::new(synth_map());
    firmware.handle(
        request(1, Request::Direction { target: b"PIO0_0", direction: Direction::Output }),
        &mut gpio,
    );
    firmware.handle(request(2, Request::Listen { target: b"PIO0_0", enabled: true }), &mut gpio);
    assert_eq!(firmware.handle(request(3, Request::Bye), &mut gpio).body, Response::Bye);
    assert!(gpio.inputs[0]);
    assert_eq!(firmware.poll_listener(&gpio), None);
    assert_eq!(
        firmware.handle(request(4, Request::Get { target: b"PIO0_0" }), &mut gpio).body,
        pin_error(b"PIO0_0", TargetError::Unset)
    );
}

#[test]
fn set_drives_configured_outputs_and_bye_releases_pins_without_pull_up() {
    let mut firmware = firmware();
    let mut gpio = FakeHal::new(synth_map());
    firmware.handle(request(1, Request::Direction { target: b"PX08", direction: Direction::Output }), &mut gpio);
    assert!(gpio.outputs[3]);
    assert_eq!(gpio.values[3], Level::Low);
    assert_eq!(
        firmware.handle(request(2, Request::SetLevel { target: b"PORTX", level: Level::High }), &mut gpio).body,
        Response::Ack
    );
    assert_eq!(gpio.values[3], Level::High);
    firmware.handle(request(3, Request::Direction { target: b"PIO0_0", direction: Direction::Input }), &mut gpio);
    firmware.handle(request(4, Request::Pullup { target: b"PIO0_0", enabled: true }), &mut gpio);
    assert!(gpio.pull_ups[0]);
    assert_eq!(firmware.handle(request(5, Request::Bye), &mut gpio).body, Response::Bye);
    assert!(gpio.inputs[3] && !gpio.outputs[3]);
    assert!(gpio.inputs[0] && !gpio.pull_ups[0]);
}

#[test]
fn capabilities_from_flags_are_the_named_sets() {
    assert_eq!(Capabilities::new(true, true, true), Capabilities::GPIO());
    assert_eq!(Capabilities::new(true, false, true), Capabilities::INPUT_ONLY());
    assert_eq!(Capabilities::new(true, false, false), Capabilities::INPUT());
    assert_eq!(Capabilities::new(false, false, false), Capabilities::NONE());
    assert_eq!(Capabilities::new(false, true, false).bits(), 2);
    assert!(!Capabilities::new(false, false, false).available());
}

#[test]
fn map_covers_the_48_pin_package_conservatively() {
    let map = lpc_pin_map();
    assert_eq!(map.banks().len(), 4);
    assert_eq!(map.pins().len(), 42);
    assert_eq!(lpc_hw_table().len(), map.pins().len());

    let mut package_pins = [false; 49];
    for (index, pin) in map.pins().iter().enumerate() {
        let token = pin.token.as_bytes();
        assert!(token.starts_with(b"PIO"));
        assert_eq!(token[3] - b'0', pin.bank.index() as u8);
        assert_eq!(pin.token[5..].parse::<u8>().unwrap(), pin.bit);

        let hw = pin_hw(PinId::new(index as u8));
        assert_eq!(hw.bank().id(), pin.bank);
        assert_eq!(hw.bit(), pin.bit);

        let package_pin = pin.package_pin.unwrap() as usize;
        assert!((1..=48).contains(&package_pin));
        assert!(!package_pins[package_pin]);
        package_pins[package_pin] = true;
    }

    for token in [b"PIO0_0".as_slice(), b"PIO0_10", b"PIO1_3", b"PIO1_6", b"PIO1_7"] {
        let Some(Target::Pin(pin)) = map.resolve(token) else {
            panic!("reserved LPC target must resolve to a pin");
        };
        assert!(!map.pin(pin).capabilities.available());
    }

    for pin in map.pins().iter().filter(|pin| pin.capabilities.available()) {
        assert!(pin.capabilities.input());
        assert!(!pin.capabilities.output());
        assert!(!pin.capabilities.pull_up());
    }
}

#[test]
fn dispatches_local_body_without_route_knowledge_in_handler() {
    let router = Router::new(b"SAM");
    let envelope = Message { id: id(10), route: b"SAM", body: b"HAI" };

    let response = router.dispatch(envelope, |packet| {
        assert_eq!(packet.id, id(10));
        assert_eq!(packet.body, b"HAI");
        Packet { id: packet.id, body: Response::Hello }
    });

    assert_eq!(response.id, id(10));
    assert_eq!(response.body, Response::Hello);
}

#[test]
fn missing_routes_return_local_no_route_errors() {
    let router = Router::new(b"SAM");
    for destination in [b"LPC".as_slice(), b"ABC"] {
        let response = router.dispatch(
            Message { id: id(11), route: destination, body: b"HAI" },
            |_| panic!("missing route must not reach local handler"),
        );

        assert_eq!(response.id, id(11));
        assert_eq!(response.body, Response::Error(ResponseError::NoRoute { destination }));
    }
}

#[test]
fn router_reports_its_local_route() {
    assert_eq!(Router::new(b"LPC").local_route(), b"LPC");
}

#[test]
fn level_from_bank_reads_the_addressed_bit() {
    assert_eq!(level_from_bank(0b1000, 3), Level::High);
    assert_eq!(level_from_bank(0b1000, 2), Level::Low);
    assert_eq!(level_from_bank(0x8000_0000, 31), Level::High);
    assert_eq!(level_from_bank(0, 0), Level::Low);
}

#[test]
fn lpc_identity_and_banks_match_the_wire_names() {
    assert_eq!(lpc_identity(), b"LPC1115 GPIO");
    assert_eq!(LpcBank::from_id(BankId::new(2)), Some(LpcBank::Pio2));
    assert_eq!(LpcBank::from_id(BankId::new(4)), None);
    assert_eq!(LpcBank::Pio3.id(), BankId::new(3));
}

#[test]
fn status_map_and_unknown_requests_get_fixed_answers() {
    let mut firmware = firmware();
    let mut gpio = FakeHal::new(synth_map());
    assert_eq!(firmware.handle(request(1, Request::Hello), &mut gpio).body, Response::Hello);
    assert_eq!(
        firmware.handle(request(3, Request::SetLevel { target: b"PIO0_0", level: Level::High }), &mut gpio).body,
        pin_error(b"PIO0_0", TargetError::Unset)
    );
}

#[test]
fn undecodable_requests_get_error_answers_when_their_id_was_read() {
    assert_eq!(
        decode_error_response(DecodeError { id: Some(id(7)), kind: DecodeErrorKind::Malformed }),
        Some(Packet { id: id(7), body: Response::Error(ResponseError::BadPacket) })
    );
    assert_eq!(
        decode_error_response(DecodeError { id: Some(id(8)), kind: DecodeErrorKind::UnknownCommand }),
        Some(Packet { id: id(8), body: Response::Unknown })
    );
    assert_eq!(decode_error_response(DecodeError { id: None, kind: DecodeErrorKind::Malformed }), None);
}

#[test]
fn iocon_values_make_each_pad_kind_a_gpio() {
    let standard = pin_hw(PinId::new(0));
    assert_eq!(standard.pad_kind(), LpcPadKind::Standard);
    assert_eq!(standard.iocon_offset(), 0x0c);
    assert_eq!(iocon_gpio_value(0xffff_ffff, standard, true), 0xffff_fff0);
    assert_eq!(iocon_gpio_value(0xffff_ffff, standard, false), 0xffff_ffe0);

    let i2c = pin_hw(PinId::new(4));
    assert_eq!(i2c.pad_kind(), LpcPadKind::I2cOpenDrain);
    assert_eq!(iocon_gpio_value(0, i2c, true), 0x100);
    assert_eq!(iocon_gpio_value(0xffff_ffff, i2c, false), 0xffff_fdf8);

    let analog = pin_hw(PinId::new(11));
    assert_eq!(analog.pad_kind(), LpcPadKind::Analog);
    assert_eq!(analog.gpio_function(), 1);
    assert_eq!(iocon_gpio_value(0, analog, false), 0x81);
    assert_eq!(iocon_gpio_value(0, analog, true), 0x91);
}

#[test]
fn bank_bits_change_only_the_addressed_pin() {
    assert_eq!(with_bank_bit(0b1010, 0, true), 0b1011);
    assert_eq!(with_bank_bit(0b1010, 1, false), 0b1000);
    assert_eq!(with_bank_bit(0, 31, true), 0x8000_0000);
    assert_eq!(level_from_bank(with_bank_bit(0xffff_ffff, 7, false), 7), Level::Low);
    assert_eq!(level_from_bank(with_bank_bit(0, 7, true), 7), Level::High);
}

#[test]
fn map_request_streams_banks_then_pins_then_ack() {
    let mut firmware = firmware();
    let mut gpio = FakeHal::new(synth_map());
    let first = firmware.handle(request(30, Request::PinMap), &mut gpio);
    assert_eq!(first, Packet { id: id(30), body: Response::MapBank { bank: b"PIO0".as_slice() } });

    let mut rest = Vec::new();
    while let Some(packet) = firmware.poll_bulk(&gpio) {
        assert_eq!(packet.id, id(30));
        let done = packet.body == Response::Ack;
        rest.push(packet.body);
        if done {
            break;
        }
    }
    assert_eq!(
        rest,
        vec![
            Response::MapBank { bank: b"PORTX".as_slice() },
            Response::MapPin {
                target: b"PIO0_0".as_slice(),
                package_pin: Some(1),
                bank: b"PIO0".as_slice(),
                bit: 0,
                capabilities: PinCapabilities::GPIO(),
            },
            Response::MapPin {
                target: b"PIO0_1".as_slice(),
                package_pin: Some(2),
                bank: b"PIO0".as_slice(),
                bit: 1,
                capabilities: PinCapabilities::NONE(),
            },
            Response::MapPin {
                target: b"PX07".as_slice(),
                package_pin: None,
                bank: b"PORTX".as_slice(),
                bit: 7,
                capabilities: PinCapabilities::INPUT_PULLUP(),
            },
            Response::MapPin {
                target: b"PX08".as_slice(),
                package_pin: Some(8),
                bank: b"PORTX".as_slice(),
                bit: 8,
                capabilities: PinCapabilities::GPIO(),
            },
            Response::Ack,
        ]
    );
    assert_eq!(firmware.poll_bulk(&gpio), None);
}
