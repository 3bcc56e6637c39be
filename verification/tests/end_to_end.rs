use gpiodemo::connection::{Connection, DeviceEvent};
use gpiodemo::gpio::{BankId, BankInfo, Capabilities, Firmware, GpioHal, PadMode, PinId, PinInfo, PinMap, PinMapView, Target};
use gpiodemo::io_state::{route_line, IoState};
use gpiodemo::line::MAX_PACKET_LEN;
use gpiodemo::message::{decode_message, Packet};
use gpiodemo::request::{decode_request, Request};
use gpiodemo::response::{encode_response, Response};
use gpiodemo::router::Router;
use gpiodemo::values::Level;

/// A board that keeps each pin's mode and reads every input low.
struct QuietBoard {
    map: &'static PinMap,
    modes: Vec<PadMode>,
}

impl QuietBoard {
    fn new(map: &'static PinMap) -> Self {
        QuietBoard { map, modes: vec![PadMode::Input { pull_up: false }; map.pins().len()] }
    }
}

impl GpioHal for QuietBoard {
    /// The view of `self.map`; only the contracts speak of it.
    fn spec_map(&self) -> PinMapView {
        unreachable!("the pin map's view exists only in specifications")
    }

    fn spec_mode(&self, pin: PinId) -> PadMode {
        self.modes[pin.index()]
    }

    fn pin_map(&self) -> &'static PinMap {
        self.map
    }

    fn input(&mut self, pin: PinId, pull_up: bool) {
        self.modes[pin.index()] = PadMode::Input { pull_up };
    }

    fn output(&mut self, pin: PinId, level: Level) {
        self.modes[pin.index()] = PadMode::Output { level };
    }

    fn write(&mut self, pin: PinId, level: Level) {
        if let PadMode::Output { .. } = self.modes[pin.index()] {
            self.modes[pin.index()] = PadMode::Output { level };
        }
    }

    fn spec_input_bits(&self, _bank: BankId) -> u32 {
        0
    }

    fn read_bank(&self, bank: BankId) -> u32 {
        self.spec_input_bits(bank)
    }
}

fn board_map() -> &'static PinMap {
    let banks = vec![BankInfo::new("GPIO0"), BankInfo::new("GPIO1")];
    let pins = vec![
        PinInfo::new("P0_7", None, BankId::new(0), 7, Capabilities::INPUT_ONLY()),
        PinInfo::new("LED_A", Some(48), BankId::new(1), 3, Capabilities::GPIO()),
        PinInfo::new("P1_0", Some(12), BankId::new(1), 0, Capabilities::NONE()),
    ];
    Box::leak(Box::new(PinMap::new(banks, pins)))
}

/// Encodes a node's answer as the line it sends.
fn wire(packet: Packet<Response<&[u8], &[u8]>>) -> Vec<u8> {
    let mut out = [0u8; MAX_PACKET_LEN];
    let len = encode_response(packet, b"SYN", &mut out).unwrap();
    out[..len - 1].to_vec()
}

#[test]
fn host_discovers_exactly_the_map_a_node_streams() {
    let map = board_map();
    let mut board = QuietBoard::new(map);
    let mut firmware = Firmware::new(b"SYNTH GPIO");
    let router = Router::new(b"SYN");

    let mut host = Connection::new(&[b"SYN".as_slice()]);
    let route = host.route_key(b"SYN").unwrap();
    let mut worker = IoState::new();

    let (_, request) = host.prepare(route, Request::PinMap).unwrap();
    assert_eq!(request, b"001 SYN MAP\n");

    let message = decode_message(&request[..request.len() - 1]).unwrap();
    let packet = decode_request(Packet { id: message.id, body: message.body }).unwrap();
    assert_eq!(message.route, router.local_route());
    let mut answers = vec![wire(firmware.handle(packet, &mut board))];
    while let Some(next) = firmware.poll_bulk(&board) {
        answers.push(wire(next));
    }
    assert_eq!(answers.first().unwrap(), b"001 SYN MAP BANK GPIO0 <3");
    assert_eq!(answers[3], b"001 SYN MAP PIN LED_A 48 GPIO1 3 7 <3");
    assert_eq!(answers.last().unwrap(), b"001 SYN OKA <3");

    let mut last = None;
    for line in &answers {
        let event = route_line(&mut worker, line).unwrap();
        last = Some(host.received_line(event.packet).unwrap());
    }
    assert_eq!(last, Some(DeviceEvent::MapReady { route }));

    let banks: Vec<Vec<u8>> = host.banks(route).into_iter().map(|(_, bank)| bank.token.clone()).collect();
    assert_eq!(banks, vec![b"GPIO0".to_vec(), b"GPIO1".to_vec()]);
    let pins = host.pins(route);
    assert_eq!(pins.len(), map.pins().len());
    for ((key, discovered), announced) in pins.into_iter().zip(map.pins()) {
        assert_eq!(discovered.token, announced.token.as_bytes());
        assert_eq!(discovered.package_pin, announced.package_pin);
        assert_eq!(discovered.bit, announced.bit);
        assert_eq!(discovered.capabilities.bits(), announced.capabilities.bits());
        assert_eq!(discovered.bank.index, announced.bank.index());
        assert_eq!(host.pin_key(route, &discovered.token), Some(key));
    }
    assert_eq!(map.resolve(b"LED_A"), Some(Target::Pin(PinId::new(1))));
}
