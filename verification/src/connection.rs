use vstd::prelude::*;

use crate::ascii::bytes_eq;
use crate::message::{copy_bytes, encoded, message_pieces, DecodeError, EncodeError, Packet};
use crate::request::{encode_request, request_target, spec_request_pieces, Request};
use crate::request_id::RequestId;
use crate::response::{Response, ResponseError};
use crate::values::{
    spec_caps_input, spec_caps_output, Direction, Level, PinCapabilities, Query, QueryValue,
};
use crate::words::WORD_ALL;

verus! {

/// Which of the connection's routes a key belongs to.
#[derive(Clone, Copy, Debug, PartialEq, Eq, Structural)]
pub struct RouteKey(pub usize);

/// A bank of a route's discovered pin map.
#[derive(Clone, Copy, Debug, PartialEq, Eq, Structural)]
pub struct BankKey {
    pub route: RouteKey,
    pub index: usize,
}

/// A pin of a route's discovered pin map.
#[derive(Clone, Copy, Debug, PartialEq, Eq, Structural)]
pub struct PinKey {
    pub route: RouteKey,
    pub index: usize,
}

impl RouteKey {
    /// Position of the route in the connection's route list.
    pub fn index(self) -> (r: usize)
        ensures
            r == self.0,
    {
        self.0
    }
}

impl BankKey {
    pub fn route(self) -> (r: RouteKey)
        ensures
            r == self.route,
    {
        self.route
    }

    pub fn index(self) -> (r: usize)
        ensures
            r == self.index,
    {
        self.index
    }
}

impl PinKey {
    pub fn route(self) -> (r: RouteKey)
        ensures
            r == self.route,
    {
        self.route
    }

    pub fn index(self) -> (r: usize)
        ensures
            r == self.index,
    {
        self.index
    }
}

/// What a routed request addresses: one discovered pin, one discovered bank,
/// or every pin of the route.
#[derive(Clone, Copy, Debug, PartialEq, Eq, Structural)]
pub enum Target {
    Pin(PinKey),
    Bank(BankKey),
    All,
}

/// A request addressed by discovered keys.
pub type RoutedRequest = Request<Target>;

/// A device error with its pin resolved to a key.
pub type RoutedError = ResponseError<PinKey, Vec<u8>>;

/// A discovered bank.
#[derive(Clone, Debug, PartialEq, Eq)]
pub struct BankInfo {
    pub token: Vec<u8>,
}

/// A discovered pin.
#[derive(Clone, Debug, PartialEq, Eq)]
pub struct PinInfo {
    pub token: Vec<u8>,
    pub package_pin: Option<u16>,
    pub bank: BankKey,
    pub bit: u8,
    pub capabilities: PinCapabilities,
}

/// What a discovered pin is, by value.
pub struct PinInfoView {
    pub token: Seq<u8>,
    pub package_pin: Option<u16>,
    pub bank: BankKey,
    pub bit: u8,
    pub capabilities: PinCapabilities,
}

impl View for PinInfo {
    type V = PinInfoView;

    open spec fn view(&self) -> PinInfoView {
        PinInfoView {
            token: self.token@,
            package_pin: self.package_pin,
            bank: self.bank,
            bit: self.bit,
            capabilities: self.capabilities,
        }
    }
}

/// How a pending request is finished.
#[derive(Clone, Copy, Debug, PartialEq, Eq, Structural)]
pub enum Completion {
    /// The first answer finishes it.
    OneShot,
    /// Answers stream until a final `OKA`.
    Stream,
    /// It stays pending while a pin listens under its identifier.
    Listener,
}

/// A request sent and not yet finished.
#[derive(Clone, Copy, Debug, PartialEq, Eq, Structural)]
pub struct Pending {
    pub route: RouteKey,
    pub request: RoutedRequest,
    pub completion: Completion,
}

/// A discovered pin and what the host has configured on it.
pub struct RoutePin {
    pub info: PinInfo,
    pub input: bool,
    pub listener: Option<RequestId>,
}

/// What the connection knows of a pin, by value.
pub struct PinView {
    pub info: PinInfoView,
    pub input: bool,
    pub listener: Option<RequestId>,
}

impl View for RoutePin {
    type V = PinView;

    open spec fn view(&self) -> PinView {
        PinView { info: self.info@, input: self.input, listener: self.listener }
    }
}

/// A route's discovered pin map.
pub struct RouteMap {
    pub banks: Vec<BankInfo>,
    pub pins: Vec<RoutePin>,
}

/// A pin map by value: bank tokens and pins.
pub struct MapView {
    pub banks: Seq<Seq<u8>>,
    pub pins: Seq<PinView>,
}

impl View for RouteMap {
    type V = MapView;

    open spec fn view(&self) -> MapView {
        MapView {
            banks: self.banks@.map_values(|b: BankInfo| b.token@),
            pins: self.pins@.map_values(|p: RoutePin| p@),
        }
    }
}

/// A pin map being discovered from a `MAP` stream.
pub struct MapBuilder {
    route: RouteKey,
    banks: Vec<BankInfo>,
    pins: Vec<PinInfo>,
}

/// A pin map under discovery, by value.
pub struct BuilderView {
    pub route: RouteKey,
    pub banks: Seq<Seq<u8>>,
    pub pins: Seq<PinInfoView>,
}

impl View for MapBuilder {
    type V = BuilderView;

    closed spec fn view(&self) -> BuilderView {
        BuilderView {
            route: self.route,
            banks: self.banks@.map_values(|b: BankInfo| b.token@),
            pins: self.pins@.map_values(|p: PinInfo| p@),
        }
    }
}

/// One route of the connection: its name, its pin map once discovered, and
/// the discovery in progress.
pub struct RouteState {
    pub name: Vec<u8>,
    pub map: Option<RouteMap>,
    pub discovery: Option<MapBuilder>,
}

/// A route by value.
pub struct RouteView {
    pub name: Seq<u8>,
    pub map: Option<MapView>,
    pub discovery: Option<BuilderView>,
}

impl View for RouteState {
    type V = RouteView;

    open spec fn view(&self) -> RouteView {
        RouteView {
            name: self.name@,
            map: match self.map {
                Some(m) => Some(m@),
                None => None,
            },
            discovery: match self.discovery {
                Some(d) => Some(d@),
                None => None,
            },
        }
    }
}

/// The host side of the routed GPIO protocol: request identifiers, pending
/// requests, and each route's pin map.
pub struct Connection {
    next_id: RequestId,
    pending: Vec<Option<Pending>>,
    routes: Vec<RouteState>,
}

/// The connection by value.
pub struct ConnectionView {
    pub next_id: RequestId,
    pub pending: Seq<Option<Pending>>,
    pub routes: Seq<RouteView>,
}

impl View for Connection {
    type V = ConnectionView;

    closed spec fn view(&self) -> ConnectionView {
        ConnectionView {
            next_id: self.next_id,
            pending: self.pending@,
            routes: self.routes@.map_values(|r: RouteState| r@),
        }
    }
}

/// Why the connection refused a request or a response.
#[derive(Clone, Debug, PartialEq, Eq)]
pub enum ConnectionError {
    UnknownRoute,
    MapInProgress { route: Vec<u8> },
    DiscoveryInProgress { route: Vec<u8> },
    RequestIdsExhausted,
    UnknownPinKey,
    UnknownBankKey,
    ForeignTarget,
    Encode(EncodeError),
    WrongSource { id: RequestId, source: Vec<u8>, expected: Vec<u8> },
    UnexpectedMapResponse { id: RequestId },
    NoDiscovery { id: RequestId },
    DuplicateBank { token: Vec<u8> },
    DuplicatePin { token: Vec<u8> },
    UnknownBank { pin: Vec<u8>, bank: Vec<u8> },
    DuplicateBankBit { bank: Vec<u8>, bit: u8 },
    UndiscoveredPin { route: Vec<u8>, token: Vec<u8> },
    MapWithoutDiscovery { id: RequestId },
    Malformed(DecodeError),
}

/// What a device answer means for the host.
#[derive(Clone, Debug, PartialEq, Eq)]
pub enum DeviceEvent {
    Hello { route: RouteKey },
    Status { route: RouteKey, identity: Vec<u8> },
    MapReady { route: RouteKey },
    Ack { route: RouteKey, request: RoutedRequest },
    PinValue { pin: PinKey, level: Level },
    PinState { pin: PinKey, what: Query, value: QueryValue },
    DeviceError { route: RouteKey, source: Vec<u8>, request: RoutedRequest, error: RoutedError },
    Unknown { route: RouteKey, request: RoutedRequest },
    Bye { route: RouteKey },
    Untracked,
}

/// A decoded response with owned tokens and the route it came from.
pub struct OwnedResponse {
    pub source: Vec<u8>,
    pub packet: Packet<Response<Vec<u8>, Vec<u8>>>,
}

/// A pin listening under a request, as the serial worker needs to know it.
#[derive(Clone, Debug, PartialEq, Eq)]
pub struct ListenerPin {
    pub key: PinKey,
    pub token: Vec<u8>,
    pub id: RequestId,
}

/// The listening pins of one route, as the serial worker needs to know them.
#[derive(Clone, Debug, PartialEq, Eq)]
pub struct ListenerRoute {
    pub name: Vec<u8>,
    pub pin_count: usize,
    pub pins: Vec<ListenerPin>,
}

/// A listening pin by value: its key, token and listener.
pub struct ListenerPinView {
    pub key: PinKey,
    pub token: Seq<u8>,
    pub id: RequestId,
}

impl View for ListenerPin {
    type V = ListenerPinView;

    open spec fn view(&self) -> ListenerPinView {
        ListenerPinView { key: self.key, token: self.token@, id: self.id }
    }
}

/// The listening pins among the first `n` pins of a route, in map order.
pub open spec fn spec_listener_pins(route: RouteKey, pins: Seq<PinView>, n: int) -> Seq<ListenerPinView>
    decreases n,
{
    if n <= 0 {
        seq![]
    } else {
        let rest = spec_listener_pins(route, pins, n - 1);
        match pins[n - 1].listener {
            Some(id) => rest.push(
                ListenerPinView { key: PinKey { route, index: (n - 1) as usize }, token: pins[n - 1].info.token, id },
            ),
            None => rest,
        }
    }
}

/// Every listening pin among the first `n` pins of a route has a key on
/// that route below `n`.
proof fn lemma_listener_pin_keys(route: RouteKey, pins: Seq<PinView>, n: int)
    ensures
        forall|k: int|
            0 <= k < spec_listener_pins(route, pins, n).len() ==> (#[trigger] spec_listener_pins(route, pins, n)[k]).key.route
                == route && spec_listener_pins(route, pins, n)[k].key.index < n,
    decreases n,
{
    if n > 0 {
        lemma_listener_pin_keys(route, pins, n - 1);
        let rest = spec_listener_pins(route, pins, n - 1);
        let all = spec_listener_pins(route, pins, n);
        assert forall|k: int| 0 <= k < all.len() implies (#[trigger] all[k]).key.route == route && all[k].key.index < n by {
            if k < rest.len() {
                assert(all[k] == rest[k]);
            }
        }
    }
}

/// A listener update read from the wire, waiting to be handed to the host.
#[derive(Clone, Debug, PartialEq, Eq)]
pub struct ListenerValue {
    pub line: Vec<u8>,
    pub id: RequestId,
    pub pin: PinKey,
    pub level: Level,
    pub coalesced: u32,
}


/// A listener update by value.
pub struct ListenerValueView {
    pub line: Seq<u8>,
    pub id: RequestId,
    pub pin: PinKey,
    pub level: Level,
    pub coalesced: u32,
}

impl View for ListenerValue {
    type V = ListenerValueView;

    open spec fn view(&self) -> ListenerValueView {
        ListenerValueView { line: self.line@, id: self.id, pin: self.pin, level: self.level, coalesced: self.coalesced }
    }
}

impl ListenerValue {
    /// A copy of the update.
    pub fn copy(&self) -> (r: ListenerValue)
        ensures
            r@ == self@,
    {
        ListenerValue {
            line: copy_bytes(self.line.as_slice()),
            id: self.id,
            pin: self.pin,
            level: self.level,
            coalesced: self.coalesced,
        }
    }
}

/// Whether the pin of an update still listens under the update's identifier.
pub open spec fn spec_listener_value_active(v: ConnectionView, value: ListenerValueView) -> bool {
    spec_pin_exists(v, value.pin) && spec_route_map(v, value.pin.route).unwrap().pins[value.pin.index as int].listener
        == Some(value.id)
}


/// The pending-table slot of an identifier.
pub open spec fn slot_of(id: RequestId) -> int {
    id.value() - 1
}

/// How a request is finished.
pub open spec fn spec_completion(request: RoutedRequest) -> Completion {
    match request {
        Request::PinMap => Completion::Stream,
        Request::Get { target } => if target is Pin {
            Completion::OneShot
        } else {
            Completion::Stream
        },
        Request::Query { target, .. } => if target is Pin {
            Completion::OneShot
        } else {
            Completion::Stream
        },
        Request::Listen { enabled, .. } => if enabled {
            Completion::Listener
        } else {
            Completion::OneShot
        },
        _ => Completion::OneShot,
    }
}

/// Whether an answer finishes a request: any answer a one-shot one, the final
/// `OKA` a stream, and that `OKA` a listener only when no pin listens under
/// its identifier.
pub open spec fn spec_done(c: Completion, terminal_ack: bool, listener_active: bool) -> bool {
    match c {
        Completion::OneShot => true,
        Completion::Stream => terminal_ack,
        Completion::Listener => terminal_ack && !listener_active,
    }
}

/// Whether the pin at `index` of `route`, in bank `bank`, is addressed by
/// `target`.
pub open spec fn spec_target_contains(route: RouteKey, target: Target, index: int, bank: BankKey) -> bool {
    match target {
        Target::Pin(pin) => pin.route == route && pin.index == index,
        Target::Bank(b) => b == bank,
        Target::All => true,
    }
}

/// The map of a route, when the route exists and has one.
pub open spec fn spec_route_map(v: ConnectionView, route: RouteKey) -> Option<MapView> {
    if route.0 < v.routes.len() {
        v.routes[route.0 as int].map
    } else {
        None
    }
}

/// Whether a pin key names a discovered pin.
pub open spec fn spec_pin_exists(v: ConnectionView, pin: PinKey) -> bool {
    spec_route_map(v, pin.route) matches Some(m) && pin.index < m.pins.len()
}

/// Whether a bank key names a discovered bank.
pub open spec fn spec_bank_exists(v: ConnectionView, bank: BankKey) -> bool {
    spec_route_map(v, bank.route) matches Some(m) && bank.index < m.banks.len()
}

/// The listener of the pin at `index` of route `r`, if that pin exists.
pub open spec fn spec_pin_listener(v: ConnectionView, r: int, index: int) -> Option<RequestId> {
    match v.routes[r].map {
        Some(m) => if 0 <= index < m.pins.len() {
            m.pins[index].listener
        } else {
            None
        },
        None => None,
    }
}

/// Whether any pin of any route listens under `id`.
pub open spec fn spec_listener_id_active(v: ConnectionView, id: RequestId) -> bool {
    exists|r: int, i: int| 0 <= r < v.routes.len() && #[trigger] spec_pin_listener(v, r, i) == Some(id)
}

/// A pin with its listener dropped when it listens under `id`.
pub open spec fn pin_without_listener(p: PinView, id: RequestId) -> PinView {
    if p.listener == Some(id) {
        PinView { listener: None, ..p }
    } else {
        p
    }
}

/// A route with every pin listening under `id` dropped from listening.
pub open spec fn route_without_listener(r: RouteView, id: RequestId) -> RouteView {
    RouteView {
        map: match r.map {
            Some(m) => Some(
                MapView { banks: m.banks, pins: m.pins.map_values(|p: PinView| pin_without_listener(p, id)) },
            ),
            None => None,
        },
        ..r
    }
}

/// A route with its discovery dropped.
pub open spec fn route_without_discovery(r: RouteView) -> RouteView {
    RouteView { discovery: None, ..r }
}

/// Retiring a request: pins stop listening under it, a `MAP` it was drops
/// its partial map, and its slot is freed.
pub open spec fn spec_retire(v: ConnectionView, id: RequestId) -> ConnectionView {
    let routes = v.routes.map_values(|r: RouteView| route_without_listener(r, id));
    ConnectionView {
        next_id: v.next_id,
        pending: v.pending.update(slot_of(id), None),
        routes: match v.pending[slot_of(id)] {
            Some(p) => if p.request == Request::<Target>::PinMap {
                routes.update(p.route.0 as int, route_without_discovery(routes[p.route.0 as int]))
            } else {
                routes
            },
            None => routes,
        },
    }
}

/// Cancelling a request that could not be sent: a `MAP` drops its partial
/// map, and its slot is freed.
pub open spec fn spec_cancel(v: ConnectionView, id: RequestId) -> ConnectionView {
    ConnectionView {
        next_id: v.next_id,
        pending: v.pending.update(slot_of(id), None),
        routes: match v.pending[slot_of(id)] {
            Some(p) => if p.request == Request::<Target>::PinMap {
                v.routes.update(p.route.0 as int, route_without_discovery(v.routes[p.route.0 as int]))
            } else {
                v.routes
            },
            None => v.routes,
        },
    }
}

/// An answer to `id` arrived: the request is finished when `spec_done` says so.
pub open spec fn spec_complete(v: ConnectionView, id: RequestId, terminal_ack: bool, listener_active: bool) -> ConnectionView {
    match v.pending[slot_of(id)] {
        Some(p) => if spec_done(p.completion, terminal_ack, listener_active) {
            ConnectionView { pending: v.pending.update(slot_of(id), None), ..v }
        } else {
            v
        },
        None => v,
    }
}

/// A pin released by a device that said goodbye.
pub open spec fn pin_released(p: PinView) -> PinView {
    PinView { input: false, listener: None, ..p }
}

/// A route whose device said goodbye: no pin is an input or listens, no
/// discovery runs, and none of its requests is pending.
pub open spec fn spec_reset_route(v: ConnectionView, route: RouteKey) -> ConnectionView {
    let r = v.routes[route.0 as int];
    ConnectionView {
        next_id: v.next_id,
        pending: v.pending.map_values(
            |p: Option<Pending>|
                match p {
                    Some(q) => if q.route == route {
                        None
                    } else {
                        p
                    },
                    None => None,
                },
        ),
        routes: v.routes.update(
            route.0 as int,
            RouteView {
                name: r.name,
                map: match r.map {
                    Some(m) => Some(MapView { banks: m.banks, pins: m.pins.map_values(|p: PinView| pin_released(p)) }),
                    None => None,
                },
                discovery: None,
            },
        ),
    }
}

/// A connection that was just opened or closed: nothing pending, no route
/// has a map or a discovery.
pub open spec fn spec_clear(v: ConnectionView) -> ConnectionView {
    ConnectionView {
        next_id: v.next_id,
        pending: Seq::new(999, |i: int| None),
        routes: v.routes.map_values(|r: RouteView| RouteView { name: r.name, map: None, discovery: None }),
    }
}

/// Position of the first token equal to `t`.
pub open spec fn spec_index_of(s: Seq<Seq<u8>>, t: Seq<u8>) -> Option<nat>
    decreases s.len(),
{
    if s.len() == 0 {
        None
    } else {
        match spec_index_of(s.drop_last(), t) {
            Some(i) => Some(i),
            None => if s.last() == t {
                Some((s.len() - 1) as nat)
            } else {
                None
            },
        }
    }
}

/// The tokens of discovered pins.
pub open spec fn pin_tokens(pins: Seq<PinView>) -> Seq<Seq<u8>> {
    pins.map_values(|p: PinView| p.info.token)
}

/// The tokens of pins under discovery.
pub open spec fn info_tokens(pins: Seq<PinInfoView>) -> Seq<Seq<u8>> {
    pins.map_values(|p: PinInfoView| p.token)
}

/// The key of the first discovered pin of `route` with this token.
pub open spec fn spec_find_pin(v: ConnectionView, route: RouteKey, token: Seq<u8>) -> Option<PinKey> {
    match spec_route_map(v, route) {
        Some(m) => match spec_index_of(pin_tokens(m.pins), token) {
            Some(i) => Some(PinKey { route, index: i as usize }),
            None => None,
        },
        None => None,
    }
}

/// Whether a pin can be driven in `direction`.
pub open spec fn spec_supports(c: PinCapabilities, direction: Direction) -> bool {
    match direction {
        Direction::Input => spec_caps_input(c.spec_bits()),
        Direction::Output => spec_caps_output(c.spec_bits()),
    }
}

/// A pin after its device acknowledged a direction change.
pub open spec fn pin_after_direction(p: PinView, direction: Direction) -> PinView {
    if spec_supports(p.info.capabilities, direction) {
        PinView { input: direction == Direction::Input, ..p }
    } else {
        p
    }
}

/// A pin after its device acknowledged listening being switched.
pub open spec fn pin_after_listen(p: PinView, enabled: bool, id: RequestId) -> PinView {
    if enabled {
        if p.input && spec_caps_input(p.info.capabilities.spec_bits()) {
            PinView { listener: Some(id), ..p }
        } else {
            p
        }
    } else {
        PinView { listener: None, ..p }
    }
}

/// The map of `route` with `f` applied to the pins `target` addresses.
pub open spec fn spec_update_targets(
    v: ConnectionView,
    route: RouteKey,
    target: Target,
    f: spec_fn(PinView) -> PinView,
) -> ConnectionView {
    let r = v.routes[route.0 as int];
    match r.map {
        Some(m) => ConnectionView {
            routes: v.routes.update(
                route.0 as int,
                RouteView {
                    map: Some(
                        MapView {
                            banks: m.banks,
                            pins: Seq::new(
                                m.pins.len(),
                                |i: int|
                                    if spec_target_contains(route, target, i, m.pins[i].info.bank) {
                                        f(m.pins[i])
                                    } else {
                                        m.pins[i]
                                    },
                            ),
                        },
                    ),
                    ..r
                },
            ),
            ..v
        },
        None => v,
    }
}

/// The listeners of the first `n` pins that `target` addresses, in map order.
pub open spec fn spec_listener_ids(route: RouteKey, target: Target, pins: Seq<PinView>, n: int) -> Seq<RequestId>
    decreases n,
{
    if n <= 0 {
        seq![]
    } else {
        let rest = spec_listener_ids(route, target, pins, n - 1);
        let p = pins[n - 1];
        if spec_target_contains(route, target, n - 1, p.info.bank) && p.listener is Some {
            rest.push(p.listener.unwrap())
        } else {
            rest
        }
    }
}

/// Frees the slot of each of `ids` under which no pin listens any more.
pub open spec fn spec_release_all(v: ConnectionView, ids: Seq<RequestId>) -> ConnectionView
    decreases ids.len(),
{
    if ids.len() == 0 {
        v
    } else {
        let w = spec_release_all(v, ids.drop_last());
        if spec_listener_id_active(w, ids.last()) {
            w
        } else {
            ConnectionView { pending: w.pending.update(slot_of(ids.last()), None), ..w }
        }
    }
}

/// Adding a bank to a discovery: refused when the token repeats.
pub open spec fn spec_builder_bank(b: BuilderView, token: Seq<u8>) -> Option<BuilderView> {
    if b.banks.contains(token) {
        None
    } else {
        Some(BuilderView { banks: b.banks.push(token), ..b })
    }
}

/// Why a discovered pin was refused.
pub enum PinRefusal {
    DuplicatePin,
    UnknownBank,
    DuplicateBankBit,
}

/// Adding a pin to a discovery: refused when its token repeats, its bank is
/// unknown, or its bank already has a pin at that bit.
pub open spec fn spec_builder_pin(b: BuilderView, info: PinInfoView, bank_token: Seq<u8>) -> Result<BuilderView, PinRefusal> {
    if info_tokens(b.pins).contains(info.token) {
        Err(PinRefusal::DuplicatePin)
    } else {
        match spec_index_of(b.banks, bank_token) {
            None => Err(PinRefusal::UnknownBank),
            Some(bi) => if exists|j: int|
                0 <= j < b.pins.len() && (#[trigger] b.pins[j]).bank.index == bi && b.pins[j].bit == info.bit {
                Err(PinRefusal::DuplicateBankBit)
            } else {
                Ok(
                    BuilderView {
                        pins: b.pins.push(
                            PinInfoView { bank: BankKey { route: b.route, index: bi as usize }, ..info },
                        ),
                        ..b
                    },
                )
            },
        }
    }
}

/// The map a finished discovery yields: no pin configured yet.
pub open spec fn spec_finish(b: BuilderView) -> MapView {
    MapView {
        banks: b.banks,
        pins: b.pins.map_values(|info: PinInfoView| PinView { info, input: false, listener: None }),
    }
}

/// The state after the device acknowledged request `id`, before the
/// request is finished.
pub open spec fn spec_ack_effect(v: ConnectionView, id: RequestId, p: Pending) -> ConnectionView {
    match p.request {
        Request::Direction { target, direction } => spec_update_targets(
            v,
            p.route,
            target,
            |q: PinView| pin_after_direction(q, direction),
        ),
        Request::Listen { target, enabled } => {
            let previous = match spec_route_map(v, p.route) {
                Some(m) => spec_listener_ids(p.route, target, m.pins, m.pins.len() as int),
                None => seq![],
            };
            spec_release_all(
                spec_update_targets(v, p.route, target, |q: PinView| pin_after_listen(q, enabled, id)),
                previous,
            )
        },
        _ => v,
    }
}

/// The state after the device acknowledged a non-`MAP` request `id`.
pub open spec fn spec_ack(v: ConnectionView, id: RequestId, p: Pending) -> ConnectionView {
    let w = spec_ack_effect(v, id, p);
    spec_complete(w, id, true, p.completion == Completion::Listener && spec_listener_id_active(w, id))
}

/// The state after the device acknowledged a `MAP` whose discovery is `b`:
/// the discovered map replaces the old one and the request is finished.
pub open spec fn spec_map_ready(v: ConnectionView, id: RequestId, route: RouteKey, b: BuilderView) -> ConnectionView {
    let r = v.routes[route.0 as int];
    spec_complete(
        ConnectionView {
            routes: v.routes.update(route.0 as int, RouteView { map: Some(spec_finish(b)), discovery: None, ..r }),
            ..v
        },
        id,
        true,
        false,
    )
}

/// The route's discovery replaced by `b`.
pub open spec fn with_discovery(v: ConnectionView, route: RouteKey, b: BuilderView) -> ConnectionView {
    ConnectionView {
        routes: v.routes.update(route.0 as int, RouteView { discovery: Some(b), ..v.routes[route.0 as int] }),
        ..v
    }
}

/// A device error relayed by a router on the way, rather than by the device
/// the request went to.
pub open spec fn is_routing_error<T, D>(r: Response<T, D>) -> bool {
    match r {
        Response::Error(ResponseError::NoRoute { .. }) => true,
        Response::Error(ResponseError::RouteBusy { .. }) => true,
        Response::Error(ResponseError::RouteDown { .. }) => true,
        _ => false,
    }
}


/// Where a token first occurs, if it does.
pub proof fn lemma_index_of(s: Seq<Seq<u8>>, t: Seq<u8>)
    ensures
        match spec_index_of(s, t) {
            Some(i) => i < s.len() && s[i as int] == t && forall|j: int| 0 <= j < i ==> s[j] != t,
            None => forall|j: int| 0 <= j < s.len() ==> s[j] != t,
        },
        spec_index_of(s, t) is None <==> !s.contains(t),
    decreases s.len(),
{
    if s.len() > 0 {
        lemma_index_of(s.drop_last(), t);
        assert forall|j: int| 0 <= j < s.len() - 1 implies s[j] == s.drop_last()[j] by {}
    }
    if s.contains(t) {
        let k = choose|k: int| 0 <= k < s.len() && s[k] == t;
        assert(s[k] == t);
    }
}

impl PinInfo {
    /// A copy of the pin description.
    pub fn copy(&self) -> (r: PinInfo)
        ensures
            r@ == self@,
    {
        PinInfo {
            token: copy_bytes(self.token.as_slice()),
            package_pin: self.package_pin,
            bank: self.bank,
            bit: self.bit,
            capabilities: self.capabilities,
        }
    }
}

impl MapBuilder {
    /// An empty discovery for `route`.
    pub fn new(route: RouteKey) -> (b: Self)
        ensures
            b@ == (BuilderView { route, banks: seq![], pins: seq![] }),
    {
        let b = MapBuilder { route, banks: Vec::new(), pins: Vec::new() };
        assert(b@.banks =~= Seq::<Seq<u8>>::empty());
        assert(b@.pins =~= Seq::<PinInfoView>::empty());
        b
    }

    /// Adds a discovered bank; refused when its token repeats.
    pub fn bank(&mut self, token: Vec<u8>) -> (res: Result<(), ConnectionError>)
        ensures
            match spec_builder_bank(old(self)@, token@) {
                Some(b) => res is Ok && final(self)@ == b,
                None => res matches Err(ConnectionError::DuplicateBank { token: t }) && t@ == token@
                    && final(self)@ == old(self)@,
            },
    {
        let ghost banks = self@.banks;
        let mut i: usize = 0;
        while i < self.banks.len()
            invariant
                i <= self.banks@.len(),
                banks == self@.banks,
                forall|j: int| 0 <= j < i ==> banks[j] != token@,
            decreases self.banks@.len() - i,
        {
            assert(banks[i as int] == self.banks@[i as int].token@);
            if bytes_eq(self.banks[i].token.as_slice(), token.as_slice()) {
                assert(banks.contains(token@));
                return Err(ConnectionError::DuplicateBank { token });
            }
            i = i + 1;
        }
        self.banks.push(BankInfo { token });
        assert(self@.banks =~= banks.push(token@));
        Ok(())
    }

    /// Adds a discovered pin; refused when its token repeats, its bank is
    /// unknown, or its bank already has a pin at that bit.
    pub fn pin(
        &mut self,
        token: Vec<u8>,
        package_pin: Option<u16>,
        bank_token: Vec<u8>,
        bit: u8,
        capabilities: PinCapabilities,
    ) -> (res: Result<(), ConnectionError>)
        ensures
            match spec_builder_pin(
                old(self)@,
                PinInfoView { token: token@, package_pin, bank: BankKey { route: old(self)@.route, index: 0 }, bit, capabilities },
                bank_token@,
            ) {
                Ok(b) => res is Ok && final(self)@ == b,
                Err(PinRefusal::DuplicatePin) => res matches Err(ConnectionError::DuplicatePin { token: t })
                    && t@ == token@ && final(self)@ == old(self)@,
                Err(PinRefusal::UnknownBank) => res matches Err(
                    ConnectionError::UnknownBank { pin: t, bank: b },
                ) && t@ == token@ && b@ == bank_token@ && final(self)@ == old(self)@,
                Err(PinRefusal::DuplicateBankBit) => res matches Err(
                    ConnectionError::DuplicateBankBit { bank: b, bit: x },
                ) && b@ == bank_token@ && x == bit && final(self)@ == old(self)@,
            },
    {
        let ghost v = self@;
        let mut i: usize = 0;
        while i < self.pins.len()
            invariant
                i <= self.pins@.len(),
                v == self@,
                v == old(self)@,
                forall|j: int| 0 <= j < i ==> info_tokens(v.pins)[j] != token@,
            decreases self.pins@.len() - i,
        {
            assert(info_tokens(v.pins)[i as int] == self.pins@[i as int].token@);
            if bytes_eq(self.pins[i].token.as_slice(), token.as_slice()) {
                assert(info_tokens(v.pins).contains(token@));
                return Err(ConnectionError::DuplicatePin { token });
            }
            i = i + 1;
        }
        assert(!info_tokens(v.pins).contains(token@));
        let mut bi: usize = 0;
        let mut found = false;
        while bi < self.banks.len() && !found
            invariant
                bi <= self.banks@.len(),
                v == self@,
                v == old(self)@,
                !info_tokens(v.pins).contains(token@),
                found ==> bi < self.banks@.len() && v.banks[bi as int] == bank_token@,
                forall|j: int| 0 <= j < bi ==> v.banks[j] != bank_token@,
            decreases self.banks@.len() - bi + (if found { 0int } else { 1int }),
        {
            assert(v.banks[bi as int] == self.banks@[bi as int].token@);
            if bytes_eq(self.banks[bi].token.as_slice(), bank_token.as_slice()) {
                found = true;
            } else {
                bi = bi + 1;
            }
        }
        proof {
            lemma_index_of(v.banks, bank_token@);
        }
        if !found {
            return Err(ConnectionError::UnknownBank { pin: token, bank: bank_token });
        }
        assert(spec_index_of(v.banks, bank_token@) == Some(bi as nat));
        let mut k: usize = 0;
        while k < self.pins.len()
            invariant
                k <= self.pins@.len(),
                v == self@,
                v == old(self)@,
                spec_index_of(v.banks, bank_token@) == Some(bi as nat),
                !info_tokens(v.pins).contains(token@),
                forall|j: int| 0 <= j < k ==> !((#[trigger] v.pins[j]).bank.index == bi && v.pins[j].bit == bit),
            decreases self.pins@.len() - k,
        {
            assert(v.pins[k as int] == self.pins@[k as int]@);
            if self.pins[k].bank.index == bi && self.pins[k].bit == bit {
                assert(v.pins[k as int].bank.index == bi && v.pins[k as int].bit == bit);
                return Err(ConnectionError::DuplicateBankBit { bank: bank_token, bit });
            }
            k = k + 1;
        }
        let route = self.route;
        self.pins.push(PinInfo { token, package_pin, bank: BankKey { route, index: bi }, bit, capabilities });
        assert(self@.pins =~= v.pins.push(
            PinInfoView { token: token@, package_pin, bank: BankKey { route: v.route, index: bi }, bit, capabilities },
        ));
        Ok(())
    }

    /// The pin map this discovery found, with no pin configured yet.
    pub fn finish(self) -> (m: RouteMap)
        ensures
            m@ == spec_finish(self@),
    {
        let ghost v = self@;
        let mut pins: Vec<RoutePin> = Vec::new();
        let mut i: usize = 0;
        while i < self.pins.len()
            invariant
                i <= self.pins@.len(),
                v == self@,
                pins@.len() == i,
                forall|j: int| 0 <= j < i ==> (#[trigger] pins@[j])@ == (PinView { info: v.pins[j], input: false, listener: None }),
            decreases self.pins@.len() - i,
        {
            assert(v.pins[i as int] == self.pins@[i as int]@);
            pins.push(RoutePin { info: self.pins[i].copy(), input: false, listener: None });
            i = i + 1;
        }
        let m = RouteMap { banks: self.banks, pins };
        assert(m@.pins =~= spec_finish(v).pins);
        m
    }
}

/// What receiving `incoming` does: an answer to no pending request is
/// ignored; one from the wrong route is refused and changes nothing (a routing
/// error may come from any router on the way); any other is applied.
pub open spec fn received_post(
    v: ConnectionView,
    incoming: OwnedResponse,
    after: ConnectionView,
    res: Result<DeviceEvent, ConnectionError>,
) -> bool {
    let id = incoming.packet.id;
    let body = incoming.packet.body@;
    match v.pending[slot_of(id)] {
        None => after == v && res == Ok::<DeviceEvent, ConnectionError>(DeviceEvent::Untracked),
        Some(p) => if !is_routing_error(body) && incoming.source@ != v.routes[p.route.0 as int].name {
            &&& res matches Err(ConnectionError::WrongSource { id: i, source, expected })
            &&& i == id && source@ == incoming.source@ && expected@ == v.routes[p.route.0 as int].name
            &&& after == v
        } else {
            &&& after == spec_received_state(v, id, p, body)
            &&& spec_received_result(v, id, p, body, incoming.source@, res)
        },
    }
}

/// The state after an answer `body` to pending request `id` arrived from the
/// route it was sent to (or from a router on the way, for a routing error).
pub open spec fn spec_received_state(
    v: ConnectionView,
    id: RequestId,
    p: Pending,
    body: Response<Seq<u8>, Seq<u8>>,
) -> ConnectionView {
    let is_map = p.request == Request::<Target>::PinMap;
    let discovery = v.routes[p.route.0 as int].discovery;
    match body {
        Response::Hello => spec_complete(v, id, false, false),
        Response::Status { .. } => spec_complete(v, id, false, false),
        Response::MapBank { bank } => if is_map && p.completion == Completion::Stream {
            match discovery {
                Some(b) => match spec_builder_bank(b, bank) {
                    Some(b2) => with_discovery(v, p.route, b2),
                    None => spec_retire(v, id),
                },
                None => spec_retire(v, id),
            }
        } else {
            spec_retire(v, id)
        },
        Response::MapPin { target, package_pin, bank, bit, capabilities } => if is_map && p.completion
            == Completion::Stream {
            match discovery {
                Some(b) => match spec_builder_pin(
                    b,
                    PinInfoView { token: target, package_pin, bank: BankKey { route: b.route, index: 0 }, bit, capabilities },
                    bank,
                ) {
                    Ok(b2) => with_discovery(v, p.route, b2),
                    Err(_) => spec_retire(v, id),
                },
                None => spec_retire(v, id),
            }
        } else {
            spec_retire(v, id)
        },
        Response::Ack => if is_map {
            match discovery {
                Some(b) => spec_map_ready(v, id, p.route, b),
                None => spec_retire(v, id),
            }
        } else {
            spec_ack(v, id, p)
        },
        Response::Value { target, .. } => match spec_find_pin(v, p.route, target) {
            None => spec_retire(v, id),
            Some(k) => if p.completion == Completion::Listener && spec_route_map(v, p.route).unwrap().pins[k.index as int].listener
                != Some(id) {
                v
            } else {
                spec_complete(v, id, false, false)
            },
        },
        Response::State { target, .. } => match spec_find_pin(v, p.route, target) {
            None => spec_retire(v, id),
            Some(_) => spec_complete(v, id, false, false),
        },
        Response::Error(_) => spec_retire(v, id),
        Response::Unknown => spec_retire(v, id),
        Response::Bye => spec_reset_route(v, p.route),
    }
}


/// A relayed routing error carries the same route token as the answer did.
pub open spec fn same_routing_error(e: RoutedError, answer: ResponseError<Seq<u8>, Seq<u8>>) -> bool {
    match (e, answer) {
        (ResponseError::NoRoute { destination: d }, ResponseError::NoRoute { destination: x }) => d@ == x,
        (ResponseError::RouteBusy { next_hop: d }, ResponseError::RouteBusy { next_hop: x }) => d@ == x,
        (ResponseError::RouteDown { next_hop: d }, ResponseError::RouteDown { next_hop: x }) => d@ == x,
        _ => false,
    }
}

/// What the connection reports for an answer `body` to pending request `id`
/// that came from `source`, when the source is acceptable.
pub open spec fn spec_received_result(
    v: ConnectionView,
    id: RequestId,
    p: Pending,
    body: Response<Seq<u8>, Seq<u8>>,
    source: Seq<u8>,
    res: Result<DeviceEvent, ConnectionError>,
) -> bool {
    let is_map = p.request == Request::<Target>::PinMap;
    let discovery = v.routes[p.route.0 as int].discovery;
    let name = v.routes[p.route.0 as int].name;
    match body {
        Response::Hello => res == Ok::<DeviceEvent, ConnectionError>(DeviceEvent::Hello { route: p.route }),
        Response::Status { identity } => res matches Ok(DeviceEvent::Status { route, identity: i })
            && route == p.route && i@ == identity,
        Response::MapBank { bank } => if !(is_map && p.completion == Completion::Stream) {
            res == Err::<DeviceEvent, ConnectionError>(ConnectionError::UnexpectedMapResponse { id })
        } else {
            match discovery {
                None => res == Err::<DeviceEvent, ConnectionError>(ConnectionError::NoDiscovery { id }),
                Some(b) => match spec_builder_bank(b, bank) {
                    Some(_) => res == Ok::<DeviceEvent, ConnectionError>(DeviceEvent::Untracked),
                    None => res matches Err(ConnectionError::DuplicateBank { token: t }) && t@ == bank,
                },
            }
        },
        Response::MapPin { target, package_pin, bank, bit, capabilities } => if !(is_map && p.completion
            == Completion::Stream) {
            res == Err::<DeviceEvent, ConnectionError>(ConnectionError::UnexpectedMapResponse { id })
        } else {
            match discovery {
                None => res == Err::<DeviceEvent, ConnectionError>(ConnectionError::NoDiscovery { id }),
                Some(b) => match spec_builder_pin(
                    b,
                    PinInfoView { token: target, package_pin, bank: BankKey { route: b.route, index: 0 }, bit, capabilities },
                    bank,
                ) {
                    Ok(_) => res == Ok::<DeviceEvent, ConnectionError>(DeviceEvent::Untracked),
                    Err(PinRefusal::DuplicatePin) => res matches Err(ConnectionError::DuplicatePin { token: t })
                        && t@ == target,
                    Err(PinRefusal::UnknownBank) => res matches Err(
                        ConnectionError::UnknownBank { pin: t, bank: b2 },
                    ) && t@ == target && b2@ == bank,
                    Err(PinRefusal::DuplicateBankBit) => res matches Err(
                        ConnectionError::DuplicateBankBit { bank: b2, bit: x },
                    ) && b2@ == bank && x == bit,
                },
            }
        },
        Response::Ack => if is_map {
            match discovery {
                Some(_) => res == Ok::<DeviceEvent, ConnectionError>(DeviceEvent::MapReady { route: p.route }),
                None => res == Err::<DeviceEvent, ConnectionError>(ConnectionError::MapWithoutDiscovery { id }),
            }
        } else {
            res == Ok::<DeviceEvent, ConnectionError>(DeviceEvent::Ack { route: p.route, request: p.request })
        },
        Response::Value { target, level } => match spec_find_pin(v, p.route, target) {
            None => res matches Err(ConnectionError::UndiscoveredPin { route: r, token: t }) && r@ == name
                && t@ == target,
            Some(k) => if p.completion == Completion::Listener && spec_route_map(v, p.route).unwrap().pins[k.index as int].listener
                != Some(id) {
                res == Ok::<DeviceEvent, ConnectionError>(DeviceEvent::Untracked)
            } else {
                res == Ok::<DeviceEvent, ConnectionError>(DeviceEvent::PinValue { pin: k, level })
            },
        },
        Response::State { target, what, value } => match spec_find_pin(v, p.route, target) {
            None => res matches Err(ConnectionError::UndiscoveredPin { route: r, token: t }) && r@ == name
                && t@ == target,
            Some(k) => res == Ok::<DeviceEvent, ConnectionError>(DeviceEvent::PinState { pin: k, what, value }),
        },
        Response::Error(ResponseError::Target { target, reason }) => match spec_find_pin(v, p.route, target) {
            None => res matches Err(ConnectionError::UndiscoveredPin { route: r, token: t }) && r@ == name
                && t@ == target,
            Some(k) => res matches Ok(DeviceEvent::DeviceError { route, source: s, request, error }) && route
                == p.route && s@ == source && request == p.request && error == ResponseError::<
                PinKey,
                Vec<u8>,
            >::Target { target: k, reason },
        },
        Response::Error(ResponseError::BadPacket) => res matches Ok(
            DeviceEvent::DeviceError { route, source: s, request, error },
        ) && route == p.route && s@ == source && request == p.request && error == ResponseError::<
            PinKey,
            Vec<u8>,
        >::BadPacket,
        Response::Error(ResponseError::NoRoute { destination }) => res matches Ok(
            DeviceEvent::DeviceError { route, source: s, request, error },
        ) && route == p.route && s@ == source && request == p.request && same_routing_error(
            error,
            ResponseError::NoRoute { destination },
        ),
        Response::Error(ResponseError::RouteBusy { next_hop }) => res matches Ok(
            DeviceEvent::DeviceError { route, source: s, request, error },
        ) && route == p.route && s@ == source && request == p.request && same_routing_error(
            error,
            ResponseError::RouteBusy { next_hop },
        ),
        Response::Error(ResponseError::RouteDown { next_hop }) => res matches Ok(
            DeviceEvent::DeviceError { route, source: s, request, error },
        ) && route == p.route && s@ == source && request == p.request && same_routing_error(
            error,
            ResponseError::RouteDown { next_hop },
        ),
        Response::Unknown => res == Ok::<DeviceEvent, ConnectionError>(
            DeviceEvent::Unknown { route: p.route, request: p.request },
        ),
        Response::Bye => res == Ok::<DeviceEvent, ConnectionError>(DeviceEvent::Bye { route: p.route }),
    }
}


/// The pending-table slot probed `k`-th when allocating an identifier: slots
/// are tried in identifier order, starting at the next identifier and
/// wrapping after 999.
pub open spec fn probe_slot(v: ConnectionView, k: int) -> int {
    (slot_of(v.next_id) + k) % 999
}

/// How many slots allocation probes before it finds a free one, counting
/// from the `k`-th; none when all the rest are taken.
pub open spec fn spec_first_free_from(v: ConnectionView, k: int) -> Option<int>
    decreases 999 - k,
{
    if k >= 999 {
        None
    } else if v.pending[probe_slot(v, k)] is None {
        Some(k)
    } else {
        spec_first_free_from(v, k + 1)
    }
}

/// The wire token of a target on `route`.
pub open spec fn spec_target_token(v: ConnectionView, route: RouteKey, target: Target) -> Result<Seq<u8>, ConnectionError> {
    match target {
        Target::All => Ok(WORD_ALL@),
        Target::Pin(pin) => if pin.route != route {
            Err(ConnectionError::ForeignTarget)
        } else if spec_pin_exists(v, pin) {
            Ok(spec_route_map(v, pin.route).unwrap().pins[pin.index as int].info.token)
        } else {
            Err(ConnectionError::UnknownPinKey)
        },
        Target::Bank(bank) => if bank.route != route {
            Err(ConnectionError::ForeignTarget)
        } else if spec_bank_exists(v, bank) {
            Ok(spec_route_map(v, bank.route).unwrap().banks[bank.index as int])
        } else {
            Err(ConnectionError::UnknownBankKey)
        },
    }
}

/// `r` is what looking up the wire token of `target` on `route` gives.
pub open spec fn token_result(v: ConnectionView, route: RouteKey, target: Target, r: Result<&[u8], ConnectionError>) -> bool {
    match spec_target_token(v, route, target) {
        Ok(t) => r matches Ok(x) && x@ == t,
        Err(e) => r == Err::<&[u8], ConnectionError>(e),
    }
}

/// The request with its target replaced by `token`.
pub open spec fn with_token(request: RoutedRequest, token: Seq<u8>) -> Request<Seq<u8>> {
    match request {
        Request::Hello => Request::Hello,
        Request::Status => Request::Status,
        Request::PinMap => Request::PinMap,
        Request::Direction { direction, .. } => Request::Direction { target: token, direction },
        Request::Get { .. } => Request::Get { target: token },
        Request::SetLevel { level, .. } => Request::SetLevel { target: token, level },
        Request::Pullup { enabled, .. } => Request::Pullup { target: token, enabled },
        Request::Listen { enabled, .. } => Request::Listen { target: token, enabled },
        Request::Query { what, .. } => Request::Query { target: token, what },
        Request::Bye => Request::Bye,
    }
}

/// The wire form of a request on `route`, or why it has none.
pub open spec fn spec_wire_request(v: ConnectionView, route: RouteKey, request: RoutedRequest) -> Result<Request<Seq<u8>>, ConnectionError> {
    match request_target(request) {
        None => Ok(with_token(request, seq![])),
        Some(t) => match spec_target_token(v, route, t) {
            Ok(token) => Ok(with_token(request, token)),
            Err(e) => Err(e),
        },
    }
}

/// A request registered as pending under `id`; a `MAP` also starts its
/// route's discovery.
pub open spec fn spec_register(v: ConnectionView, id: RequestId, route: RouteKey, request: RoutedRequest) -> ConnectionView {
    let routes = if request == Request::<Target>::PinMap {
        v.routes.update(
            route.0 as int,
            RouteView {
                discovery: Some(BuilderView { route, banks: seq![], pins: seq![] }),
                ..v.routes[route.0 as int]
            },
        )
    } else {
        v.routes
    };
    ConnectionView {
        next_id: v.next_id,
        pending: v.pending.update(
            slot_of(id),
            Some(Pending { route, request, completion: spec_completion(request) }),
        ),
        routes,
    }
}

/// Sixty-four zero bytes: the buffer a request is encoded into.
pub open spec fn blank_packet() -> Seq<u8> {
    Seq::new(64, |i: int| 0u8)
}


impl Connection {
    /// The pending table has a slot per identifier, and every pending request
    /// belongs to one of the routes.
    pub closed spec fn wf(&self) -> bool {
        &&& self.pending@.len() == 999
        &&& forall|i: int|
            0 <= i < 999 ==> (#[trigger] self.pending@[i] matches Some(p) ==> p.route.0
                < self.routes@.len() && p.completion == spec_completion(p.request))
    }

    /// Every request a well-formed connection has pending belongs to one of
    /// its routes and is finished the way its kind says.
    pub proof fn lemma_pending_valid(&self)
        requires
            self.wf(),
        ensures
            self@.pending.len() == 999,
            forall|i: int|
                0 <= i < 999 ==> (#[trigger] self@.pending[i] matches Some(p) ==> p.route.0 < self@.routes.len()
                    && p.completion == spec_completion(p.request)),
    {
    }

    /// A connection with the named routes, nothing pending and no pin maps.
    pub fn new(route_names: &[&[u8]]) -> (c: Self)
        ensures
            c.wf(),
            c@.next_id.value() == 1,
            c@.pending == Seq::new(999, |i: int| None::<Pending>),
            c@.routes.len() == route_names@.len(),
            forall|i: int|
                0 <= i < route_names@.len() ==> (#[trigger] c@.routes[i]).name == route_names@[i]@
                    && c@.routes[i].map is None && c@.routes[i].discovery is None,
    {
        let mut pending: Vec<Option<Pending>> = Vec::new();
        let mut k: usize = 0;
        while k < 999
            invariant
                k <= 999,
                pending@ == Seq::new(k as nat, |i: int| None::<Pending>),
            decreases 999 - k,
        {
            pending.push(None);
            k = k + 1;
            assert(pending@ =~= Seq::new(k as nat, |i: int| None::<Pending>));
        }
        let mut routes: Vec<RouteState> = Vec::new();
        let mut i: usize = 0;
        while i < route_names.len()
            invariant
                i <= route_names@.len(),
                routes@.len() == i,
                forall|j: int|
                    0 <= j < i ==> (#[trigger] routes@[j]).name@ == route_names@[j]@
                        && routes@[j].map is None && routes@[j].discovery is None,
            decreases route_names@.len() - i,
        {
            routes.push(RouteState { name: copy_bytes(route_names[i]), map: None, discovery: None });
            i = i + 1;
        }
        Connection { next_id: RequestId::FIRST(), pending, routes }
    }

    /// The key of the route with this name.
    pub fn route_key(&self, name: &[u8]) -> (res: Option<RouteKey>)
        ensures
            match res {
                Some(k) => k.0 < self@.routes.len() && self@.routes[k.0 as int].name == name@
                    && forall|j: int| 0 <= j < k.0 ==> (#[trigger] self@.routes[j]).name != name@,
                None => forall|j: int| 0 <= j < self@.routes.len() ==> (#[trigger] self@.routes[j]).name != name@,
            },
    {
        let mut i: usize = 0;
        while i < self.routes.len()
            invariant
                i <= self.routes@.len(),
                forall|j: int| 0 <= j < i ==> (#[trigger] self@.routes[j]).name != name@,
            decreases self.routes@.len() - i,
        {
            if bytes_eq(self.routes[i].name.as_slice(), name) {
                return Some(RouteKey(i));
            }
            i = i + 1;
        }
        None
    }

    /// The name of a route.
    pub fn route_name(&self, route: RouteKey) -> (r: &[u8])
        requires
            route.0 < self@.routes.len(),
        ensures
            r@ == self@.routes[route.0 as int].name,
    {
        self.routes[route.0].name.as_slice()
    }

    /// The key of the discovered pin of `route` with this token.
    pub fn pin_key(&self, route: RouteKey, token: &[u8]) -> (res: Option<PinKey>)
        ensures
            match res {
                Some(k) => spec_route_map(self@, route) matches Some(m) && k.route == route && k.index
                    < m.pins.len() && m.pins[k.index as int].info.token == token@ && forall|j: int|
                    0 <= j < k.index ==> (#[trigger] m.pins[j]).info.token != token@,
                None => spec_route_map(self@, route) matches Some(m) ==> forall|j: int|
                    0 <= j < m.pins.len() ==> (#[trigger] m.pins[j]).info.token != token@,
            },
    {
        if route.0 >= self.routes.len() {
            return None;
        }
        match &self.routes[route.0].map {
            None => None,
            Some(map) => {
                let ghost m = map@;
                assert(self@.routes[route.0 as int] == self.routes@[route.0 as int]@);
                assert(spec_route_map(self@, route) == Some(m));
                let mut i: usize = 0;
                while i < map.pins.len()
                    invariant
                        i <= map.pins@.len(),
                        m == map@,
                        spec_route_map(self@, route) == Some(m),
                        forall|j: int| 0 <= j < i ==> (#[trigger] m.pins[j]).info.token != token@,
                    decreases map.pins@.len() - i,
                {
                    assert(m.pins[i as int] == map.pins@[i as int]@);
                    if bytes_eq(map.pins[i].info.token.as_slice(), token) {
                        return Some(PinKey { route, index: i });
                    }
                    i = i + 1;
                }
                None
            },
        }
    }

    /// The key of the discovered bank of `route` with this token.
    pub fn bank_key(&self, route: RouteKey, token: &[u8]) -> (res: Option<BankKey>)
        ensures
            match res {
                Some(k) => spec_route_map(self@, route) matches Some(m) && k.route == route && k.index
                    < m.banks.len() && m.banks[k.index as int] == token@ && forall|j: int|
                    0 <= j < k.index ==> (#[trigger] m.banks[j]) != token@,
                None => spec_route_map(self@, route) matches Some(m) ==> forall|j: int|
                    0 <= j < m.banks.len() ==> (#[trigger] m.banks[j]) != token@,
            },
    {
        if route.0 >= self.routes.len() {
            return None;
        }
        match &self.routes[route.0].map {
            None => None,
            Some(map) => {
                let ghost m = map@;
                assert(self@.routes[route.0 as int] == self.routes@[route.0 as int]@);
                assert(spec_route_map(self@, route) == Some(m));
                let mut i: usize = 0;
                while i < map.banks.len()
                    invariant
                        i <= map.banks@.len(),
                        m == map@,
                        spec_route_map(self@, route) == Some(m),
                        forall|j: int| 0 <= j < i ==> (#[trigger] m.banks[j]) != token@,
                    decreases map.banks@.len() - i,
                {
                    assert(m.banks[i as int] == map.banks@[i as int].token@);
                    if bytes_eq(map.banks[i].token.as_slice(), token) {
                        return Some(BankKey { route, index: i });
                    }
                    i = i + 1;
                }
                None
            },
        }
    }

    /// What was discovered of a pin.
    pub fn pin_info(&self, pin: PinKey) -> (res: Option<&PinInfo>)
        ensures
            match res {
                Some(info) => spec_pin_exists(self@, pin) && info@ == spec_route_map(
                    self@,
                    pin.route,
                ).unwrap().pins[pin.index as int].info,
                None => !spec_pin_exists(self@, pin),
            },
    {
        if pin.route.0 >= self.routes.len() {
            return None;
        }
        match &self.routes[pin.route.0].map {
            None => None,
            Some(map) => {
                if pin.index < map.pins.len() {
                    Some(&map.pins[pin.index].info)
                } else {
                    None
                }
            },
        }
    }

    /// What was discovered of a bank.
    pub fn bank_info(&self, bank: BankKey) -> (res: Option<&BankInfo>)
        ensures
            match res {
                Some(info) => spec_bank_exists(self@, bank) && info.token@ == spec_route_map(
                    self@,
                    bank.route,
                ).unwrap().banks[bank.index as int],
                None => !spec_bank_exists(self@, bank),
            },
    {
        if bank.route.0 >= self.routes.len() {
            return None;
        }
        match &self.routes[bank.route.0].map {
            None => None,
            Some(map) => {
                if bank.index < map.banks.len() {
                    Some(&map.banks[bank.index])
                } else {
                    None
                }
            },
        }
    }

    /// The discovered pins of a route, in map order, with their keys.
    pub fn pins(&self, route: RouteKey) -> (res: Vec<(PinKey, &PinInfo)>)
        requires
            route.0 < self@.routes.len(),
        ensures
            match self@.routes[route.0 as int].map {
                Some(m) => res@.len() == m.pins.len() && forall|i: int|
                    0 <= i < res@.len() ==> (#[trigger] res@[i]).0 == (PinKey { route, index: i as usize })
                        && res@[i].1@ == m.pins[i].info,
                None => res@.len() == 0,
            },
    {
        let mut res: Vec<(PinKey, &PinInfo)> = Vec::new();
        match &self.routes[route.0].map {
            None => {},
            Some(map) => {
                let ghost m = map@;
                assert(self@.routes[route.0 as int] == self.routes@[route.0 as int]@);
                assert(spec_route_map(self@, route) == Some(m));
                let mut i: usize = 0;
                while i < map.pins.len()
                    invariant
                        i <= map.pins@.len(),
                        m == map@,
                        spec_route_map(self@, route) == Some(m),
                        res@.len() == i,
                        forall|j: int|
                            0 <= j < i ==> (#[trigger] res@[j]).0 == (PinKey { route, index: j as usize })
                                && res@[j].1@ == m.pins[j].info,
                    decreases map.pins@.len() - i,
                {
                    assert(m.pins[i as int] == map.pins@[i as int]@);
                    res.push((PinKey { route, index: i }, &map.pins[i].info));
                    i = i + 1;
                }
            },
        }
        res
    }

    /// The discovered banks of a route, in map order, with their keys.
    pub fn banks(&self, route: RouteKey) -> (res: Vec<(BankKey, &BankInfo)>)
        requires
            route.0 < self@.routes.len(),
        ensures
            match self@.routes[route.0 as int].map {
                Some(m) => res@.len() == m.banks.len() && forall|i: int|
                    0 <= i < res@.len() ==> (#[trigger] res@[i]).0 == (BankKey { route, index: i as usize })
                        && res@[i].1.token@ == m.banks[i],
                None => res@.len() == 0,
            },
    {
        let mut res: Vec<(BankKey, &BankInfo)> = Vec::new();
        match &self.routes[route.0].map {
            None => {},
            Some(map) => {
                let ghost m = map@;
                assert(self@.routes[route.0 as int] == self.routes@[route.0 as int]@);
                assert(spec_route_map(self@, route) == Some(m));
                let mut i: usize = 0;
                while i < map.banks.len()
                    invariant
                        i <= map.banks@.len(),
                        m == map@,
                        spec_route_map(self@, route) == Some(m),
                        res@.len() == i,
                        forall|j: int|
                            0 <= j < i ==> (#[trigger] res@[j]).0 == (BankKey { route, index: j as usize })
                                && res@[j].1.token@ == m.banks[j],
                    decreases map.banks@.len() - i,
                {
                    assert(m.banks[i as int] == map.banks@[i as int].token@);
                    res.push((BankKey { route, index: i }, &map.banks[i]));
                    i = i + 1;
                }
            },
        }
        res
    }

    /// The keys of the discovered pins of `route` that `target` addresses, in
    /// map order.
    pub fn target_pins(&self, route: RouteKey, target: Target) -> (res: Vec<PinKey>)
        ensures
            match spec_route_map(self@, route) {
                Some(m) => res@ == Seq::new(m.pins.len(), |i: int| PinKey { route, index: i as usize }).filter(
                    |k: PinKey| spec_target_contains(route, target, k.index as int, m.pins[k.index as int].info.bank),
                ),
                None => res@.len() == 0,
            },
    {
        let mut res: Vec<PinKey> = Vec::new();
        if route.0 >= self.routes.len() {
            return res;
        }
        match &self.routes[route.0].map {
            None => {},
            Some(map) => {
                let ghost m = map@;
                let ghost keys = Seq::new(m.pins.len(), |i: int| PinKey { route, index: i as usize });
                let ghost f = |k: PinKey| spec_target_contains(route, target, k.index as int, m.pins[k.index as int].info.bank);
                let mut i: usize = 0;
                while i < map.pins.len()
                    invariant
                        i <= map.pins@.len(),
                        m == map@,
                        keys == Seq::new(m.pins.len(), |i: int| PinKey { route, index: i as usize }),
                        f == (|k: PinKey| spec_target_contains(route, target, k.index as int, m.pins[k.index as int].info.bank)),
                        res@ == keys.take(i as int).filter(f),
                    decreases map.pins@.len() - i,
                {
                    assert(m.pins[i as int] == map.pins@[i as int]@);
                    let key = PinKey { route, index: i };
                    if target_contains(route, target, i, map.pins[i].info.bank) {
                        res.push(key);
                    }
                    proof {
                        assert(keys.take(i + 1) =~= keys.take(i as int).push(key));
                        keys.take(i as int).lemma_filter_push(key, f);
                    }
                    i = i + 1;
                }
                assert(keys.take(map.pins@.len() as int) =~= keys);
            },
        }
        res
    }
}

impl Connection {
    proof fn lemma_view_route(&self, r: int)
        requires
            0 <= r < self.routes@.len(),
        ensures
            self@.routes[r] == self.routes@[r]@,
            self@.routes.len() == self.routes@.len(),
    {
    }

    /// Whether the pin listens under `id`.
    pub fn listener_is_active(&self, pin: PinKey, id: RequestId) -> (r: bool)
        ensures
            r == (spec_pin_exists(self@, pin) && spec_route_map(self@, pin.route).unwrap().pins[pin.index as int].listener
                == Some(id)),
    {
        if pin.route.0 >= self.routes.len() {
            return false;
        }
        proof {
            self.lemma_view_route(pin.route.0 as int);
        }
        match &self.routes[pin.route.0].map {
            None => false,
            Some(map) => {
                if pin.index < map.pins.len() {
                    assert(map@.pins[pin.index as int] == map.pins@[pin.index as int]@);
                    match map.pins[pin.index].listener {
                        Some(l) => {
                            proof {
                                RequestId::lemma_value_determines(l, id);
                            }
                            l.get() == id.get()
                        },
                        None => false,
                    }
                } else {
                    false
                }
            },
        }
    }

    /// Whether any pin of any route listens under `id`.
    pub fn listener_id_active(&self, id: RequestId) -> (r: bool)
        ensures
            r == spec_listener_id_active(self@, id),
    {
        let mut r: usize = 0;
        while r < self.routes.len()
            invariant
                r <= self.routes@.len(),
                self@.routes.len() == self.routes@.len(),
                forall|q: int, i: int| 0 <= q < r ==> #[trigger] spec_pin_listener(self@, q, i) != Some(id),
            decreases self.routes@.len() - r,
        {
            proof {
                self.lemma_view_route(r as int);
            }
            match &self.routes[r].map {
                None => {},
                Some(map) => {
                    let mut i: usize = 0;
                    while i < map.pins.len()
                        invariant
                            i <= map.pins@.len(),
                            r < self.routes@.len(),
                            self@.routes[r as int].map == Some(map@),
                            forall|j: int| 0 <= j < i ==> #[trigger] spec_pin_listener(self@, r as int, j) != Some(id),
                        decreases map.pins@.len() - i,
                    {
                        assert(map@.pins[i as int] == map.pins@[i as int]@);
                        if let Some(l) = map.pins[i].listener {
                            if l.get() == id.get() {
                                proof {
                                    RequestId::lemma_value_determines(l, id);
                                    assert(spec_pin_listener(self@, r as int, i as int) == Some(id));
                                }
                                return true;
                            }
                        }
                        i = i + 1;
                    }
                },
            }
            r = r + 1;
        }
        false
    }

    /// Finishes the request `id` when `spec_done` says this answer does.
    fn complete(&mut self, id: RequestId, terminal_ack: bool, listener_active: bool)
        requires
            old(self).wf(),
        ensures
            final(self).wf(),
            final(self)@ == spec_complete(old(self)@, id, terminal_ack, listener_active),
    {
        let slot = id.slot();
        match self.pending[slot] {
            None => {},
            Some(pending) => {
                let done = match pending.completion {
                    Completion::OneShot => true,
                    Completion::Stream => terminal_ack,
                    Completion::Listener => terminal_ack && !listener_active,
                };
                if done {
                    self.pending.set(slot, None);
                }
            },
        }
        assert(self@.routes =~= old(self)@.routes);
    }

    /// Drops every pin's listener under `id` in route `r`.
    fn drop_listeners_in_route(&mut self, r: usize, id: RequestId)
        requires
            old(self).wf(),
            r < old(self)@.routes.len(),
        ensures
            final(self).wf(),
            final(self)@ == (ConnectionView {
                routes: old(self)@.routes.update(r as int, route_without_listener(old(self)@.routes[r as int], id)),
                ..old(self)@
            }),
    {
        proof {
            self.lemma_view_route(r as int);
        }
        let taken = self.routes[r].map.take();
        match taken {
            None => {
                self.routes[r].map = None;
            },
            Some(mut map) => {
                let ghost before = map@;
                let ghost pins0 = map.pins@;
                let ghost banks0 = map.banks@;
                let mut i: usize = 0;
                while i < map.pins.len()
                    invariant
                        i <= map.pins@.len(),
                        map.pins@.len() == pins0.len(),
                        map.banks@ == banks0,
                        before == (MapView {
                            banks: banks0.map_values(|b: BankInfo| b.token@),
                            pins: pins0.map_values(|p: RoutePin| p@),
                        }),
                        forall|j: int| 0 <= j < i ==> (#[trigger] map.pins@[j])@ == pin_without_listener(pins0[j]@, id),
                        forall|j: int| i <= j < map.pins@.len() ==> (#[trigger] map.pins@[j]) == pins0[j],
                    decreases map.pins@.len() - i,
                {
                    let clear = match map.pins[i].listener {
                        Some(l) => l.get() == id.get(),
                        None => false,
                    };
                    if clear {
                        map.pins[i].listener = None;
                    }
                    proof {
                        if let Some(l) = pins0[i as int].listener {
                            RequestId::lemma_value_determines(l, id);
                        }
                    }
                    i = i + 1;
                }
                assert(map@.pins =~= before.pins.map_values(|p: PinView| pin_without_listener(p, id)));
                assert(map@.banks =~= before.banks);
                self.routes[r].map = Some(map);
            },
        }
        proof {
            self.lemma_view_route(r as int);
            assert(self@.routes =~= old(self)@.routes.update(r as int, route_without_listener(old(self)@.routes[r as int], id)));
            assert(self@.pending =~= old(self)@.pending);
        }
    }

    /// Retires the request `id`: no pin listens under it any more, a `MAP` it
    /// was drops its partial map, and its slot is freed.
    pub fn retire(&mut self, id: RequestId)
        requires
            old(self).wf(),
        ensures
            final(self).wf(),
            final(self)@ == spec_retire(old(self)@, id),
    {
        let slot = id.slot();
        let pending = self.pending[slot];
        let n = self.routes.len();
        let mut r: usize = 0;
        while r < n
            invariant
                r <= n,
                n == old(self)@.routes.len(),
                self@.routes.len() == n,
                self@.pending == old(self)@.pending,
                self@.next_id == old(self)@.next_id,
                self.wf(),
                forall|k: int| 0 <= k < r ==> (#[trigger] self@.routes[k]) == route_without_listener(old(self)@.routes[k], id),
                forall|k: int| r <= k < n ==> (#[trigger] self@.routes[k]) == old(self)@.routes[k],
            decreases n - r,
        {
            self.drop_listeners_in_route(r, id);
            r = r + 1;
        }
        let ghost cleared = self@.routes;
        assert(cleared =~= old(self)@.routes.map_values(|rv: RouteView| route_without_listener(rv, id)));
        if let Some(p) = pending {
            if matches!(p.request, Request::PinMap) {
                proof {
                    self.lemma_view_route(p.route.0 as int);
                }
                self.routes[p.route.0].discovery = None;
                proof {
                    self.lemma_view_route(p.route.0 as int);
                    assert(self@.routes =~= cleared.update(p.route.0 as int, route_without_discovery(cleared[p.route.0 as int])));
                }
            }
        }
        self.pending.set(slot, None);
        proof {
            assert(self@.routes == spec_retire(old(self)@, id).routes);
            assert(self@.pending =~= spec_retire(old(self)@, id).pending);
        }
    }

    /// Forgets a request that could not be sent.
    pub fn cancel(&mut self, id: RequestId)
        requires
            old(self).wf(),
        ensures
            final(self).wf(),
            final(self)@ == spec_cancel(old(self)@, id),
    {
        let slot = id.slot();
        if let Some(p) = self.pending[slot] {
            if matches!(p.request, Request::PinMap) {
                proof {
                    self.lemma_view_route(p.route.0 as int);
                }
                self.routes[p.route.0].discovery = None;
                proof {
                    self.lemma_view_route(p.route.0 as int);
                    assert(self@.routes =~= old(self)@.routes.update(p.route.0 as int, route_without_discovery(old(self)@.routes[p.route.0 as int])));
                }
            }
        }
        self.pending.set(slot, None);
        proof {
            assert(self@.routes == spec_cancel(old(self)@, id).routes);
            assert(self@.pending =~= spec_cancel(old(self)@, id).pending);
        }
    }

    /// Frees the slot of a listener once no pin listens under it.
    fn release_listener(&mut self, id: RequestId)
        requires
            old(self).wf(),
        ensures
            final(self).wf(),
            final(self)@ == (if spec_listener_id_active(old(self)@, id) {
                old(self)@
            } else {
                ConnectionView { pending: old(self)@.pending.update(slot_of(id), None), ..old(self)@ }
            }),
    {
        if !self.listener_id_active(id) {
            self.pending.set(id.slot(), None);
        }
        assert(self@.routes =~= old(self)@.routes);
    }

    /// Forgets a route's pin configuration after its device said goodbye.
    fn reset_route(&mut self, route: RouteKey)
        requires
            old(self).wf(),
            route.0 < old(self)@.routes.len(),
        ensures
            final(self).wf(),
            final(self)@ == spec_reset_route(old(self)@, route),
    {
        proof {
            self.lemma_view_route(route.0 as int);
        }
        let taken = self.routes[route.0].map.take();
        match taken {
            None => {
                self.routes[route.0].map = None;
            },
            Some(mut map) => {
                let ghost before = map@;
                let ghost pins0 = map.pins@;
                let ghost banks0 = map.banks@;
                let mut i: usize = 0;
                while i < map.pins.len()
                    invariant
                        i <= map.pins@.len(),
                        map.pins@.len() == pins0.len(),
                        map.banks@ == banks0,
                        before == (MapView {
                            banks: banks0.map_values(|b: BankInfo| b.token@),
                            pins: pins0.map_values(|p: RoutePin| p@),
                        }),
                        forall|j: int| 0 <= j < i ==> (#[trigger] map.pins@[j])@ == pin_released(pins0[j]@),
                        forall|j: int| i <= j < map.pins@.len() ==> (#[trigger] map.pins@[j]) == pins0[j],
                    decreases map.pins@.len() - i,
                {
                    map.pins[i].input = false;
                    map.pins[i].listener = None;
                    i = i + 1;
                }
                assert(map@.pins =~= before.pins.map_values(|p: PinView| pin_released(p)));
                assert(map@.banks =~= before.banks);
                self.routes[route.0].map = Some(map);
            },
        }
        self.routes[route.0].discovery = None;
        proof {
            self.lemma_view_route(route.0 as int);
        }
        let mut k: usize = 0;
        while k < 999
            invariant
                k <= 999,
                self.pending@.len() == 999,
                old(self)@.pending.len() == 999,
                self.routes@.len() == old(self).routes@.len(),
                self.next_id == old(self).next_id,
                route.0 < old(self).routes@.len(),
                self.routes@ == old(self).routes@.update(route.0 as int, self.routes@[route.0 as int]),
                self.routes@[route.0 as int]@ == spec_reset_route(old(self)@, route).routes[route.0 as int],
                forall|j: int| 0 <= j < 999 ==> (#[trigger] self.pending@[j] matches Some(p) ==> p.route.0 < self.routes@.len()
                    && p.completion == spec_completion(p.request)),
                forall|j: int| 0 <= j < k ==> #[trigger] self.pending@[j] == (match old(self)@.pending[j] {
                    Some(q) => if q.route == route { None } else { old(self)@.pending[j] },
                    None => None,
                }),
                forall|j: int| k <= j < 999 ==> #[trigger] self.pending@[j] == old(self)@.pending[j],
            decreases 999 - k,
        {
            if let Some(q) = self.pending[k] {
                if q.route.0 == route.0 {
                    self.pending.set(k, None);
                }
            }
            k = k + 1;
        }
        proof {
            assert forall|q: int| 0 <= q < self.routes@.len() implies (#[trigger] self@.routes[q]) == spec_reset_route(old(self)@, route).routes[q] by {
                self.lemma_view_route(q);
            }
            assert(self@.routes =~= spec_reset_route(old(self)@, route).routes);
            assert(self@.pending =~= spec_reset_route(old(self)@, route).pending);
        }
    }

    /// Forgets everything learned over a connection that was opened or closed.
    pub fn clear(&mut self)
        requires
            old(self).wf(),
        ensures
            final(self).wf(),
            final(self)@ == spec_clear(old(self)@),
    {
        let mut k: usize = 0;
        while k < 999
            invariant
                k <= 999,
                self.pending@.len() == 999,
                self.routes@ == old(self).routes@,
                self.next_id == old(self).next_id,
                forall|j: int| 0 <= j < 999 ==> (#[trigger] self.pending@[j] matches Some(p) ==> p.route.0 < self.routes@.len()
                    && p.completion == spec_completion(p.request)),
                forall|j: int| 0 <= j < k ==> #[trigger] self.pending@[j] == None::<Pending>,
            decreases 999 - k,
        {
            self.pending.set(k, None);
            k = k + 1;
        }
        let n = self.routes.len();
        let mut r: usize = 0;
        while r < n
            invariant
                r <= n,
                n == old(self)@.routes.len(),
                self.routes@.len() == n,
                self.pending@.len() == 999,
                forall|j: int| 0 <= j < 999 ==> #[trigger] self.pending@[j] == None::<Pending>,
                self.next_id == old(self).next_id,
                forall|q: int| 0 <= q < r ==> (#[trigger] self.routes@[q])@ == (RouteView { name: old(self).routes@[q].name@, map: None, discovery: None }),
                forall|q: int| r <= q < n ==> (#[trigger] self.routes@[q]) == old(self).routes@[q],
            decreases n - r,
        {
            proof {
                self.lemma_view_route(r as int);
            }
            self.routes[r].map = None;
            self.routes[r].discovery = None;
            proof {
                self.lemma_view_route(r as int);
            }
            r = r + 1;
        }
        proof {
            assert forall|q: int| 0 <= q < n implies (#[trigger] self@.routes[q]) == spec_clear(old(self)@).routes[q] by {
                self.lemma_view_route(q);
            }
            assert(self@.routes =~= spec_clear(old(self)@).routes);
            assert(self@.pending =~= spec_clear(old(self)@).pending);
        }
    }
}

impl Connection {
    /// Records an acknowledged direction change on the pins `target` addresses.
    fn apply_direction(&mut self, route: RouteKey, target: Target, direction: Direction)
        requires
            old(self).wf(),
            route.0 < old(self)@.routes.len(),
        ensures
            final(self).wf(),
            final(self)@ == spec_update_targets(old(self)@, route, target, |q: PinView| pin_after_direction(q, direction)),
    {
        proof {
            self.lemma_view_route(route.0 as int);
        }
        let taken = self.routes[route.0].map.take();
        match taken {
            None => {
                self.routes[route.0].map = None;
            },
            Some(mut map) => {
                let ghost before = map@;
                let ghost pins0 = map.pins@;
                let ghost banks0 = map.banks@;
                let ghost f = |q: PinView| pin_after_direction(q, direction);
                let mut i: usize = 0;
                while i < map.pins.len()
                    invariant
                        i <= map.pins@.len(),
                        map.pins@.len() == pins0.len(),
                        map.banks@ == banks0,
                        f == (|q: PinView| pin_after_direction(q, direction)),
                        before == (MapView {
                            banks: banks0.map_values(|b: BankInfo| b.token@),
                            pins: pins0.map_values(|p: RoutePin| p@),
                        }),
                        forall|j: int| 0 <= j < i ==> (#[trigger] map.pins@[j])@ == (if spec_target_contains(route, target, j, pins0[j]@.info.bank) {
                            f(pins0[j]@)
                        } else {
                            pins0[j]@
                        }),
                        forall|j: int| i <= j < map.pins@.len() ==> (#[trigger] map.pins@[j]) == pins0[j],
                    decreases map.pins@.len() - i,
                {
                    if target_contains(route, target, i, map.pins[i].info.bank) {
                        if map.pins[i].info.capabilities.supports_direction(direction) {
                            map.pins[i].input = match direction {
                                Direction::Input => true,
                                Direction::Output => false,
                            };
                        }
                    }
                    i = i + 1;
                }
                assert(map@.pins =~= spec_update_targets(old(self)@, route, target, f).routes[route.0 as int].map.unwrap().pins);
                assert(map@.banks =~= before.banks);
                self.routes[route.0].map = Some(map);
            },
        }
        proof {
            assert forall|q: int| 0 <= q < self.routes@.len() implies (#[trigger] self@.routes[q]) == spec_update_targets(
                old(self)@, route, target, |q: PinView| pin_after_direction(q, direction)).routes[q] by {
                self.lemma_view_route(q);
            }
            assert(self@.routes =~= spec_update_targets(old(self)@, route, target, |q: PinView| pin_after_direction(q, direction)).routes);
            assert(self@.pending =~= old(self)@.pending);
        }
    }

    /// Records an acknowledged listener change on the pins `target` addresses.
    fn apply_listen(&mut self, route: RouteKey, target: Target, enabled: bool, id: RequestId)
        requires
            old(self).wf(),
            route.0 < old(self)@.routes.len(),
        ensures
            final(self).wf(),
            final(self)@ == spec_update_targets(old(self)@, route, target, |q: PinView| pin_after_listen(q, enabled, id)),
    {
        proof {
            self.lemma_view_route(route.0 as int);
        }
        let taken = self.routes[route.0].map.take();
        match taken {
            None => {
                self.routes[route.0].map = None;
            },
            Some(mut map) => {
                let ghost before = map@;
                let ghost pins0 = map.pins@;
                let ghost banks0 = map.banks@;
                let ghost f = |q: PinView| pin_after_listen(q, enabled, id);
                let mut i: usize = 0;
                while i < map.pins.len()
                    invariant
                        i <= map.pins@.len(),
                        map.pins@.len() == pins0.len(),
                        map.banks@ == banks0,
                        f == (|q: PinView| pin_after_listen(q, enabled, id)),
                        before == (MapView {
                            banks: banks0.map_values(|b: BankInfo| b.token@),
                            pins: pins0.map_values(|p: RoutePin| p@),
                        }),
                        forall|j: int| 0 <= j < i ==> (#[trigger] map.pins@[j])@ == (if spec_target_contains(route, target, j, pins0[j]@.info.bank) {
                            f(pins0[j]@)
                        } else {
                            pins0[j]@
                        }),
                        forall|j: int| i <= j < map.pins@.len() ==> (#[trigger] map.pins@[j]) == pins0[j],
                    decreases map.pins@.len() - i,
                {
                    if target_contains(route, target, i, map.pins[i].info.bank) {
                        if enabled {
                            if map.pins[i].input && map.pins[i].info.capabilities.input() {
                                map.pins[i].listener = Some(id);
                            }
                        } else {
                            map.pins[i].listener = None;
                        }
                    }
                    i = i + 1;
                }
                assert(map@.pins =~= spec_update_targets(old(self)@, route, target, f).routes[route.0 as int].map.unwrap().pins);
                assert(map@.banks =~= before.banks);
                self.routes[route.0].map = Some(map);
            },
        }
        proof {
            assert forall|q: int| 0 <= q < self.routes@.len() implies (#[trigger] self@.routes[q]) == spec_update_targets(
                old(self)@, route, target, |q: PinView| pin_after_listen(q, enabled, id)).routes[q] by {
                self.lemma_view_route(q);
            }
            assert(self@.routes =~= spec_update_targets(old(self)@, route, target, |q: PinView| pin_after_listen(q, enabled, id)).routes);
            assert(self@.pending =~= old(self)@.pending);
        }
    }

    /// The listeners of the pins `target` addresses, in map order.
    fn listener_ids(&self, route: RouteKey, target: Target) -> (res: Vec<RequestId>)
        requires
            route.0 < self@.routes.len(),
        ensures
            res@ == match spec_route_map(self@, route) {
                Some(m) => spec_listener_ids(route, target, m.pins, m.pins.len() as int),
                None => seq![],
            },
    {
        proof {
            self.lemma_view_route(route.0 as int);
        }
        let mut res: Vec<RequestId> = Vec::new();
        match &self.routes[route.0].map {
            None => {},
            Some(map) => {
                let ghost m = map@;
                let mut i: usize = 0;
                while i < map.pins.len()
                    invariant
                        i <= map.pins@.len(),
                        m == map@,
                        res@ == spec_listener_ids(route, target, m.pins, i as int),
                    decreases map.pins@.len() - i,
                {
                    assert(m.pins[i as int] == map.pins@[i as int]@);
                    if target_contains(route, target, i, map.pins[i].info.bank) {
                        if let Some(l) = map.pins[i].listener {
                            res.push(l);
                        }
                    }
                    i = i + 1;
                }
            },
        }
        res
    }

    /// Frees the slots of `ids` under which no pin listens any more.
    fn release_all(&mut self, ids: &Vec<RequestId>)
        requires
            old(self).wf(),
        ensures
            final(self).wf(),
            final(self)@ == spec_release_all(old(self)@, ids@),
    {
        let mut k: usize = 0;
        while k < ids.len()
            invariant
                k <= ids@.len(),
                self.wf(),
                self@ == spec_release_all(old(self)@, ids@.take(k as int)),
            decreases ids@.len() - k,
        {
            assert(ids@.take(k + 1).drop_last() =~= ids@.take(k as int));
            self.release_listener(ids[k]);
            k = k + 1;
        }
        assert(ids@.take(ids@.len() as int) =~= ids@);
    }
}

impl Connection {
    /// The discovered pin of `route` a response names.
    fn resolve_pin(&self, route: RouteKey, token: &[u8]) -> (res: Result<PinKey, ConnectionError>)
        requires
            route.0 < self@.routes.len(),
        ensures
            match spec_find_pin(self@, route, token@) {
                Some(k) => res == Ok::<PinKey, ConnectionError>(k),
                None => res matches Err(ConnectionError::UndiscoveredPin { route: r, token: t }) && r@
                    == self@.routes[route.0 as int].name && t@ == token@,
            },
            res matches Ok(k) ==> spec_pin_exists(self@, k) && k.route == route,
    {
        let found = self.pin_key(route, token);
        proof {
            if let Some(m) = spec_route_map(self@, route) {
                lemma_index_of(pin_tokens(m.pins), token@);
                assert forall|j: int| 0 <= j < m.pins.len() implies pin_tokens(m.pins)[j] == m.pins[j].info.token by {}
            }
        }
        match found {
            Some(k) => {
                proof {
                    let m = spec_route_map(self@, route).unwrap();
                    if spec_index_of(pin_tokens(m.pins), token@) != Some(k.index as nat) {
                        let i = spec_index_of(pin_tokens(m.pins), token@).unwrap();
                        assert(pin_tokens(m.pins)[k.index as int] == token@);
                        assert(pin_tokens(m.pins)[i as int] == token@);
                    }
                }
                Ok(k)
            },
            None => Err(
                ConnectionError::UndiscoveredPin {
                    route: copy_bytes(self.route_name(route)),
                    token: copy_bytes(token),
                },
            ),
        }
    }

    /// The acknowledgement of pending request `id`.
    fn ack(&mut self, id: RequestId, pending: Pending) -> (res: Result<DeviceEvent, ConnectionError>)
        requires
            old(self).wf(),
            old(self)@.pending[slot_of(id)] == Some(pending),
        ensures
            final(self).wf(),
            final(self)@ == spec_received_state(old(self)@, id, pending, Response::Ack),
            pending.request == Request::<Target>::PinMap ==> res == (match old(self)@.routes[pending.route.0 as int].discovery {
                Some(_) => Ok::<DeviceEvent, ConnectionError>(DeviceEvent::MapReady { route: pending.route }),
                None => Err::<DeviceEvent, ConnectionError>(ConnectionError::MapWithoutDiscovery { id }),
            }),
            pending.request != Request::<Target>::PinMap ==> res == Ok::<DeviceEvent, ConnectionError>(
                DeviceEvent::Ack { route: pending.route, request: pending.request },
            ),
    {
        let route = pending.route;
        let slot = id.slot();
        assert(self.pending@[slot as int] == Some(pending));
        assert(route.0 < self@.routes.len());
        proof {
            self.lemma_view_route(route.0 as int);
        }
        match pending.request {
            Request::PinMap => {
                let taken = self.routes[route.0].discovery.take();
                match taken {
                    None => {
                        self.routes[route.0].discovery = None;
                        proof {
                            self.lemma_view_route(route.0 as int);
                            assert(self@.routes =~= old(self)@.routes);
                        }
                        self.retire(id);
                        return Err(ConnectionError::MapWithoutDiscovery { id });
                    },
                    Some(builder) => {
                        let ghost b = builder@;
                        self.routes[route.0].map = Some(builder.finish());
                        proof {
                            self.lemma_view_route(route.0 as int);
                            let r = old(self)@.routes[route.0 as int];
                            assert(self@.routes =~= old(self)@.routes.update(
                                route.0 as int,
                                RouteView { map: Some(spec_finish(b)), discovery: None, ..r },
                            ));
                        }
                        self.complete(id, true, false);
                        return Ok(DeviceEvent::MapReady { route });
                    },
                }
            },
            Request::Direction { target, direction } => {
                self.apply_direction(route, target, direction);
            },
            Request::Listen { target, enabled } => {
                let previous = self.listener_ids(route, target);
                self.apply_listen(route, target, enabled, id);
                self.release_all(&previous);
            },
            _ => {},
        }
        let listener_active = match pending.completion {
            Completion::Listener => self.listener_id_active(id),
            _ => false,
        };
        self.complete(id, true, listener_active);
        Ok(DeviceEvent::Ack { route, request: pending.request })
    }
}

impl Connection {
    /// Handles a `MAP BANK` answer to pending request `id`.
    fn received_map_bank(&mut self, id: RequestId, pending: Pending, bank: Vec<u8>) -> (res: Result<DeviceEvent, ConnectionError>)
        requires
            old(self).wf(),
            old(self)@.pending[slot_of(id)] == Some(pending),
        ensures
            final(self).wf(),
            final(self)@ == spec_received_state(old(self)@, id, pending, Response::MapBank { bank: bank@ }),
            spec_received_result(old(self)@, id, pending, Response::MapBank { bank: bank@ }, seq![], res),
    {
        let route = pending.route;
        let slot = id.slot();
        assert(self.pending@[slot as int] == Some(pending));
        proof {
            self.lemma_view_route(route.0 as int);
        }
        if !(matches!(pending.request, Request::PinMap) && matches!(pending.completion, Completion::Stream)) {
            self.retire(id);
            return Err(ConnectionError::UnexpectedMapResponse { id });
        }
        let taken = self.routes[route.0].discovery.take();
        match taken {
            None => {
                self.routes[route.0].discovery = None;
                proof {
                    self.lemma_view_route(route.0 as int);
                    assert(self@.routes =~= old(self)@.routes);
                }
                self.retire(id);
                Err(ConnectionError::NoDiscovery { id })
            },
            Some(mut builder) => {
                let result = builder.bank(bank);
                self.routes[route.0].discovery = Some(builder);
                proof {
                    self.lemma_view_route(route.0 as int);
                }
                match result {
                    Ok(()) => {
                        proof {
                            assert(self@.routes =~= with_discovery(old(self)@, route, builder@).routes);
                        }
                        Ok(DeviceEvent::Untracked)
                    },
                    Err(e) => {
                        proof {
                            assert(self@.routes =~= old(self)@.routes);
                        }
                        self.retire(id);
                        Err(e)
                    },
                }
            },
        }
    }

    /// Handles a `MAP PIN` answer to pending request `id`.
    fn received_map_pin(
        &mut self,
        id: RequestId,
        pending: Pending,
        target: Vec<u8>,
        package_pin: Option<u16>,
        bank: Vec<u8>,
        bit: u8,
        capabilities: PinCapabilities,
    ) -> (res: Result<DeviceEvent, ConnectionError>)
        requires
            old(self).wf(),
            old(self)@.pending[slot_of(id)] == Some(pending),
        ensures
            final(self).wf(),
            final(self)@ == spec_received_state(
                old(self)@,
                id,
                pending,
                Response::MapPin { target: target@, package_pin, bank: bank@, bit, capabilities },
            ),
            spec_received_result(
                old(self)@,
                id,
                pending,
                Response::MapPin { target: target@, package_pin, bank: bank@, bit, capabilities },
                seq![],
                res,
            ),
    {
        let route = pending.route;
        let slot = id.slot();
        assert(self.pending@[slot as int] == Some(pending));
        proof {
            self.lemma_view_route(route.0 as int);
        }
        if !(matches!(pending.request, Request::PinMap) && matches!(pending.completion, Completion::Stream)) {
            self.retire(id);
            return Err(ConnectionError::UnexpectedMapResponse { id });
        }
        let taken = self.routes[route.0].discovery.take();
        match taken {
            None => {
                self.routes[route.0].discovery = None;
                proof {
                    self.lemma_view_route(route.0 as int);
                    assert(self@.routes =~= old(self)@.routes);
                }
                self.retire(id);
                Err(ConnectionError::NoDiscovery { id })
            },
            Some(mut builder) => {
                let result = builder.pin(target, package_pin, bank, bit, capabilities);
                self.routes[route.0].discovery = Some(builder);
                proof {
                    self.lemma_view_route(route.0 as int);
                }
                match result {
                    Ok(()) => {
                        proof {
                            assert(self@.routes =~= with_discovery(old(self)@, route, builder@).routes);
                        }
                        Ok(DeviceEvent::Untracked)
                    },
                    Err(e) => {
                        proof {
                            assert(self@.routes =~= old(self)@.routes);
                        }
                        self.retire(id);
                        Err(e)
                    },
                }
            },
        }
    }

    /// A device error with its pin resolved to a key.
    fn resolve_error(&self, route: RouteKey, error: ResponseError<Vec<u8>, Vec<u8>>) -> (res: Result<RoutedError, ConnectionError>)
        requires
            route.0 < self@.routes.len(),
        ensures
            match error@ {
                ResponseError::Target { target, reason } => match spec_find_pin(self@, route, target) {
                    None => res matches Err(ConnectionError::UndiscoveredPin { route: r, token: t }) && r@
                        == self@.routes[route.0 as int].name && t@ == target,
                    Some(k) => res == Ok::<RoutedError, ConnectionError>(ResponseError::Target { target: k, reason }),
                },
                ResponseError::BadPacket => res == Ok::<RoutedError, ConnectionError>(ResponseError::BadPacket),
                ResponseError::NoRoute { destination } => res matches Ok(ResponseError::NoRoute { destination: d })
                    && d@ == destination,
                ResponseError::RouteBusy { next_hop } => res matches Ok(ResponseError::RouteBusy { next_hop: d })
                    && d@ == next_hop,
                ResponseError::RouteDown { next_hop } => res matches Ok(ResponseError::RouteDown { next_hop: d })
                    && d@ == next_hop,
            },
    {
        match error {
            ResponseError::BadPacket => Ok(ResponseError::BadPacket),
            ResponseError::Target { target, reason } => {
                let pin = self.resolve_pin(route, target.as_slice())?;
                Ok(ResponseError::Target { target: pin, reason })
            },
            ResponseError::NoRoute { destination } => Ok(ResponseError::NoRoute { destination }),
            ResponseError::RouteBusy { next_hop } => Ok(ResponseError::RouteBusy { next_hop }),
            ResponseError::RouteDown { next_hop } => Ok(ResponseError::RouteDown { next_hop }),
        }
    }

    /// Handles a decoded response: checks it against the request it answers
    /// and updates what the connection knows.
    pub fn received(&mut self, incoming: OwnedResponse) -> (res: Result<DeviceEvent, ConnectionError>)
        requires
            old(self).wf(),
        ensures
            final(self).wf(),
            received_post(old(self)@, incoming, final(self)@, res),
    {
        let id = incoming.packet.id;
        let slot = id.slot();
        let pending = match self.pending[slot] {
            None => {
                return Ok(DeviceEvent::Untracked);
            },
            Some(p) => p,
        };
        let route = pending.route;
        assert(route.0 < self@.routes.len());
        proof {
            self.lemma_view_route(route.0 as int);
        }
        let routing_error = match &incoming.packet.body {
            Response::Error(ResponseError::NoRoute { .. }) => true,
            Response::Error(ResponseError::RouteBusy { .. }) => true,
            Response::Error(ResponseError::RouteDown { .. }) => true,
            _ => false,
        };
        if !routing_error && !bytes_eq(incoming.source.as_slice(), self.route_name(route)) {
            return Err(
                ConnectionError::WrongSource {
                    id,
                    source: incoming.source,
                    expected: copy_bytes(self.route_name(route)),
                },
            );
        }
        let source = incoming.source;
        match incoming.packet.body {
            Response::Hello => {
                self.complete(id, false, false);
                Ok(DeviceEvent::Hello { route })
            },
            Response::Status { identity } => {
                self.complete(id, false, false);
                Ok(DeviceEvent::Status { route, identity })
            },
            Response::MapBank { bank } => self.received_map_bank(id, pending, bank),
            Response::MapPin { target, package_pin, bank, bit, capabilities } => self.received_map_pin(
                id,
                pending,
                target,
                package_pin,
                bank,
                bit,
                capabilities,
            ),
            Response::Ack => self.ack(id, pending),
            Response::Value { target, level } => {
                let pin = match self.resolve_pin(route, target.as_slice()) {
                    Ok(pin) => pin,
                    Err(e) => {
                        self.retire(id);
                        return Err(e);
                    },
                };
                if matches!(pending.completion, Completion::Listener) && !self.listener_is_active(pin, id) {
                    return Ok(DeviceEvent::Untracked);
                }
                self.complete(id, false, false);
                Ok(DeviceEvent::PinValue { pin, level })
            },
            Response::State { target, what, value } => {
                let pin = match self.resolve_pin(route, target.as_slice()) {
                    Ok(pin) => pin,
                    Err(e) => {
                        self.retire(id);
                        return Err(e);
                    },
                };
                self.complete(id, false, false);
                Ok(DeviceEvent::PinState { pin, what, value })
            },
            Response::Error(error) => {
                let error = match self.resolve_error(route, error) {
                    Ok(error) => error,
                    Err(e) => {
                        self.retire(id);
                        return Err(e);
                    },
                };
                self.retire(id);
                Ok(DeviceEvent::DeviceError { route, source, request: pending.request, error })
            },
            Response::Unknown => {
                self.retire(id);
                Ok(DeviceEvent::Unknown { route, request: pending.request })
            },
            Response::Bye => {
                self.reset_route(route);
                Ok(DeviceEvent::Bye { route })
            },
        }
    }
}

impl Connection {
    /// Takes the first free identifier, trying them in order from the next
    /// one and wrapping after 999; the next identifier moves past it.
    fn allocate_request_id(&mut self) -> (res: Result<RequestId, ConnectionError>)
        requires
            old(self).wf(),
        ensures
            final(self).wf(),
            final(self)@.pending == old(self)@.pending,
            final(self)@.routes == old(self)@.routes,
            match spec_first_free_from(old(self)@, 0) {
                None => res == Err::<RequestId, ConnectionError>(ConnectionError::RequestIdsExhausted)
                    && final(self)@.next_id == old(self)@.next_id,
                Some(k) => res matches Ok(id) && slot_of(id) == probe_slot(old(self)@, k)
                    && final(self)@.next_id.value() == RequestId::spec_next_value(id.value()),
            },
    {
        let ghost v = self@;
        let start = self.next_id;
        let start_slot = start.slot();
        let mut k: usize = 0;
        while k < 999
            invariant
                k <= 999,
                self.wf(),
                v == old(self)@,
                self@.pending == v.pending,
                self@.routes == v.routes,
                v.next_id == start,
                slot_of(start) == start_slot,
                slot_of(self@.next_id) == (start_slot + k) % 999,
                spec_first_free_from(v, 0) == spec_first_free_from(v, k as int),
            decreases 999 - k,
        {
            let id = self.next_id;
            self.next_id = id.next();
            let slot = id.slot();
            proof {
                assert(slot_of(self@.next_id) == (slot + 1) % 999);
            }
            if self.pending[slot].is_none() {
                return Ok(id);
            }
            k = k + 1;
        }
        proof {
            RequestId::lemma_value_determines(self@.next_id, start);
        }
        Err(ConnectionError::RequestIdsExhausted)
    }

    /// The wire token of a target on `route`.
    fn target_token(&self, route: RouteKey, target: Target) -> (res: Result<&[u8], ConnectionError>)
        ensures
            token_result(self@, route, target, res),
    {
        match target {
            Target::All => Ok(WORD_ALL.as_slice()),
            Target::Pin(pin) => {
                if pin.route.0 != route.0 {
                    return Err(ConnectionError::ForeignTarget);
                }
                match self.pin_info(pin) {
                    Some(info) => Ok(info.token.as_slice()),
                    None => Err(ConnectionError::UnknownPinKey),
                }
            },
            Target::Bank(bank) => {
                if bank.route.0 != route.0 {
                    return Err(ConnectionError::ForeignTarget);
                }
                match self.bank_info(bank) {
                    Some(info) => Ok(info.token.as_slice()),
                    None => Err(ConnectionError::UnknownBankKey),
                }
            },
        }
    }

    /// Registers a request on `route` and encodes it for the wire.
    pub fn prepare(&mut self, route: RouteKey, request: RoutedRequest) -> (res: Result<(RequestId, Vec<u8>), ConnectionError>)
        requires
            old(self).wf(),
        ensures
            final(self).wf(),
            ({
                let v = old(self)@;
                if route.0 >= v.routes.len() {
                    res == Err::<(RequestId, Vec<u8>), ConnectionError>(ConnectionError::UnknownRoute) && final(self)@ == v
                } else if v.routes[route.0 as int].discovery is Some {
                    &&& final(self)@ == v
                    &&& if request == Request::<Target>::PinMap {
                        res matches Err(ConnectionError::MapInProgress { route: n }) && n@ == v.routes[route.0 as int].name
                    } else {
                        res matches Err(ConnectionError::DiscoveryInProgress { route: n }) && n@ == v.routes[route.0 as int].name
                    }
                } else {
                    match spec_first_free_from(v, 0) {
                        None => res == Err::<(RequestId, Vec<u8>), ConnectionError>(ConnectionError::RequestIdsExhausted)
                            && final(self)@ == v,
                        Some(k) => {
                            &&& final(self)@.next_id.value() == RequestId::spec_next_value((probe_slot(v, k) + 1) as u16)
                            &&& match spec_wire_request(v, route, request) {
                                Err(e) => res == Err::<(RequestId, Vec<u8>), ConnectionError>(e) && final(self)@.pending == v.pending
                                    && final(self)@.routes == v.routes,
                                Ok(wire) => {
                                    let id_value = (probe_slot(v, k) + 1) as u16;
                                    let (out, enc) = encoded(
                                        message_pieces(id_value, v.routes[route.0 as int].name, spec_request_pieces(wire)),
                                        blank_packet(),
                                    );
                                    match enc {
                                        Err(e) => res == Err::<(RequestId, Vec<u8>), ConnectionError>(ConnectionError::Encode(e))
                                            && final(self)@.pending == v.pending && final(self)@.routes == v.routes,
                                        Ok(len) => res matches Ok((id, bytes)) && id.value() == id_value && bytes@ == out.take(len as int)
                                            && final(self)@ == (ConnectionView { next_id: final(self)@.next_id, ..spec_register(v, id, route, request) }),
                                    }
                                },
                            }
                        },
                    }
                }
            }),
    {
        if route.0 >= self.routes.len() {
            return Err(ConnectionError::UnknownRoute);
        }
        proof {
            self.lemma_view_route(route.0 as int);
        }
        if self.routes[route.0].discovery.is_some() {
            let name = copy_bytes(self.route_name(route));
            return Err(
                if matches!(request, Request::PinMap) {
                    ConnectionError::MapInProgress { route: name }
                } else {
                    ConnectionError::DiscoveryInProgress { route: name }
                },
            );
        }
        let ghost v = self@;
        let id = self.allocate_request_id()?;
        proof {
            self.lemma_view_route(route.0 as int);
            RequestId::lemma_value_determines(id, id);
        }
        let mut buffer: Vec<u8> = Vec::new();
        let mut z: usize = 0;
        while z < 64
            invariant
                z <= 64,
                buffer@ == Seq::new(z as nat, |i: int| 0u8),
            decreases 64 - z,
        {
            buffer.push(0u8);
            z = z + 1;
            assert(buffer@ =~= Seq::new(z as nat, |i: int| 0u8));
        }
        let result = {
            let destination = self.route_name(route);
            let token_of = |target: Target| -> (r: Result<&[u8], ConnectionError>)
                ensures
                    token_result(self@, route, target, r),
                {
                    self.target_token(route, target)
                };
            let wire_request = request.try_map_target(token_of);
            match wire_request {
                Err(e) => Err(e),
                Ok(wire) => {
                    proof {
                        match request_target(request) {
                            Some(t) => {
                                assert(wire@ == with_token(request, spec_target_token(self@, route, t)->Ok_0));
                            },
                            None => {
                                assert(wire@ == with_token(request, seq![]));
                            },
                        }
                    }
                    match encode_request(Packet { id, body: wire }, destination, buffer.as_mut_slice()) {
                        Err(e) => Err(ConnectionError::Encode(e)),
                        Ok(len) => Ok(len),
                    }
                },
            }
        };
        let len = result?;
        if matches!(request, Request::PinMap) {
            self.routes[route.0].discovery = Some(MapBuilder::new(route));
        }
        self.pending.set(id.slot(), Some(Pending { route, request, completion: completion(request) }));
        proof {
            self.lemma_view_route(route.0 as int);
            assert(self@.routes =~= spec_register(v, id, route, request).routes);
        }
        Ok((id, copy_bytes(&buffer.as_slice()[0..len])))
    }
}

impl Connection {
    /// Installs a pin map on `route`, as a finished discovery would, with
    /// the given banks and pins.
    pub fn install_map(&mut self, route: RouteKey, banks: Vec<BankInfo>, pins: Vec<RoutePin>)
        requires
            old(self).wf(),
            route.0 < old(self)@.routes.len(),
        ensures
            final(self).wf(),
            final(self)@ == (ConnectionView {
                routes: old(self)@.routes.update(
                    route.0 as int,
                    RouteView {
                        map: Some(
                            MapView {
                                banks: banks@.map_values(|b: BankInfo| b.token@),
                                pins: pins@.map_values(|p: RoutePin| p@),
                            },
                        ),
                        ..old(self)@.routes[route.0 as int]
                    },
                ),
                ..old(self)@
            }),
    {
        self.routes[route.0].map = Some(RouteMap { banks, pins });
        proof {
            self.lemma_view_route(route.0 as int);
            assert(self@.routes =~= old(self)@.routes.update(route.0 as int, self@.routes[route.0 as int]));
            assert(self@.pending =~= old(self)@.pending);
        }
    }

    /// Whether request `id` is still pending.
    pub fn is_pending(&self, id: RequestId) -> (r: bool)
        requires
            self.wf(),
        ensures
            r == self@.pending[slot_of(id)] is Some,
    {
        self.pending[id.slot()].is_some()
    }

    /// Whether `route` has a discovered pin map.
    pub fn has_map(&self, route: RouteKey) -> (r: bool)
        ensures
            r == (route.0 < self@.routes.len() && self@.routes[route.0 as int].map is Some),
    {
        if route.0 < self.routes.len() {
            proof {
                self.lemma_view_route(route.0 as int);
            }
            self.routes[route.0].map.is_some()
        } else {
            false
        }
    }

    /// Whether a pin-map discovery is under way on `route`.
    pub fn discovery_in_progress(&self, route: RouteKey) -> (r: bool)
        ensures
            r == (route.0 < self@.routes.len() && self@.routes[route.0 as int].discovery is Some),
    {
        if route.0 < self.routes.len() {
            proof {
                self.lemma_view_route(route.0 as int);
            }
            self.routes[route.0].discovery.is_some()
        } else {
            false
        }
    }

    /// The listening pins of every route, for the serial worker.
    pub fn listener_routes(&self) -> (res: Vec<ListenerRoute>)
        ensures
            res@.len() == self@.routes.len(),
            forall|r: int|
                0 <= r < res@.len() ==> {
                    let route = #[trigger] self@.routes[r];
                    &&& res@[r].name@ == route.name
                    &&& res@[r].pin_count == match route.map {
                        Some(m) => m.pins.len(),
                        None => 0,
                    }
                    &&& res@[r].pins@.map_values(|p: ListenerPin| p@) == match route.map {
                        Some(m) => spec_listener_pins(RouteKey(r as usize), m.pins, m.pins.len() as int),
                        None => seq![],
                    }
                },
            crate::io_state::listener_routes_wf(res@),
    {
        let mut res: Vec<ListenerRoute> = Vec::new();
        let mut r: usize = 0;
        while r < self.routes.len()
            invariant
                r <= self.routes@.len(),
                res@.len() == r,
                forall|q: int|
                    0 <= q < r ==> {
                        let route = #[trigger] self@.routes[q];
                        &&& res@[q].name@ == route.name
                        &&& res@[q].pin_count == match route.map {
                            Some(m) => m.pins.len(),
                            None => 0,
                        }
                        &&& res@[q].pins@.map_values(|p: ListenerPin| p@) == match route.map {
                            Some(m) => spec_listener_pins(RouteKey(q as usize), m.pins, m.pins.len() as int),
                            None => seq![],
                        }
                    },
            decreases self.routes@.len() - r,
        {
            proof {
                self.lemma_view_route(r as int);
            }
            let key = RouteKey(r);
            let mut pins: Vec<ListenerPin> = Vec::new();
            let mut count: usize = 0;
            match &self.routes[r].map {
                None => {
                    assert(pins@.map_values(|p: ListenerPin| p@) =~= Seq::<ListenerPinView>::empty());
                },
                Some(map) => {
                    let ghost m = map@;
                    count = map.pins.len();
                    let mut i: usize = 0;
                    while i < map.pins.len()
                        invariant
                            i <= map.pins@.len(),
                            m == map@,
                            pins@.map_values(|p: ListenerPin| p@) == spec_listener_pins(key, m.pins, i as int),
                        decreases map.pins@.len() - i,
                    {
                        assert(m.pins[i as int] == map.pins@[i as int]@);
                        let ghost before = pins@;
                        if let Some(id) = map.pins[i].listener {
                            let lp = ListenerPin {
                                key: PinKey { route: key, index: i },
                                token: copy_bytes(map.pins[i].info.token.as_slice()),
                                id,
                            };
                            pins.push(lp);
                            assert(pins@.map_values(|p: ListenerPin| p@) =~= before.map_values(|p: ListenerPin| p@).push(lp@));
                        }
                        i = i + 1;
                    }
                },
            }
            res.push(ListenerRoute { name: copy_bytes(self.routes[r].name.as_slice()), pin_count: count, pins });
            r = r + 1;
        }
        proof {
            assert forall|q: int, i: int| 0 <= q < res@.len() && 0 <= i < res@[q].pins@.len() implies {
                let k = (#[trigger] res@[q].pins@[i]).key;
                &&& k.route.0 < res@.len()
                &&& k.index < res@[k.route.0 as int].pin_count
            } by {
                let route = self@.routes[q];
                let m = route.map.unwrap();
                lemma_listener_pin_keys(RouteKey(q as usize), m.pins, m.pins.len() as int);
                assert(res@[q].pins@.map_values(|p: ListenerPin| p@)[i] == res@[q].pins@[i]@);
            }
        }
        res
    }

    /// Handles one line from the serial worker: a decoded response goes to
    /// `received`; a line that could not be decoded retires the request its
    /// identifier names, if it names one.
    pub fn received_line(&mut self, packet: Result<OwnedResponse, DecodeError>) -> (res: Result<DeviceEvent, ConnectionError>)
        requires
            old(self).wf(),
        ensures
            final(self).wf(),
            match packet {
                Ok(incoming) => received_post(old(self)@, incoming, final(self)@, res),
                Err(e) => res == Err::<DeviceEvent, ConnectionError>(ConnectionError::Malformed(e)) && match e.id {
                    Some(id) => final(self)@ == spec_retire(old(self)@, id),
                    None => final(self)@ == old(self)@,
                },
            },
    {
        match packet {
            Ok(incoming) => self.received(incoming),
            Err(error) => {
                if let Some(id) = error.id {
                    self.retire(id);
                }
                Err(ConnectionError::Malformed(error))
            },
        }
    }

    /// The listener updates whose pin still listens under the update's
    /// identifier, in order.
    pub fn active_listener_values(&self, values: Vec<ListenerValue>) -> (res: Vec<ListenerValue>)
        ensures
            res@.map_values(|v: ListenerValue| v@) == values@.map_values(|v: ListenerValue| v@).filter(
                |value: ListenerValueView| spec_listener_value_active(self@, value),
            ),
    {
        let ghost f = |value: ListenerValueView| spec_listener_value_active(self@, value);
        let ghost all = values@.map_values(|v: ListenerValue| v@);
        let mut res: Vec<ListenerValue> = Vec::new();
        let mut i: usize = 0;
        while i < values.len()
            invariant
                i <= values@.len(),
                all == values@.map_values(|v: ListenerValue| v@),
                f == (|value: ListenerValueView| spec_listener_value_active(self@, value)),
                res@.map_values(|v: ListenerValue| v@) == all.take(i as int).filter(f),
            decreases values@.len() - i,
        {
            let value = &values[i];
            proof {
                assert(all.take(i + 1) =~= all.take(i as int).push(all[i as int]));
                all.take(i as int).lemma_filter_push(all[i as int], f);
            }
            let ghost before = res@;
            if self.listener_is_active(value.pin, value.id) {
                let c = value.copy();
                res.push(c);
                assert(res@.map_values(|v: ListenerValue| v@) =~= before.map_values(|v: ListenerValue| v@).push(c@));
            }
            i = i + 1;
        }
        assert(all.take(values@.len() as int) =~= all);
        res
    }
}

/// Whether a pin is addressed by `target`.
pub fn target_contains(route: RouteKey, target: Target, index: usize, bank: BankKey) -> (r: bool)
    ensures
        r == spec_target_contains(route, target, index as int, bank),
{
    match target {
        Target::Pin(pin) => pin.route.0 == route.0 && pin.index == index,
        Target::Bank(b) => b.route.0 == bank.route.0 && b.index == bank.index,
        Target::All => true,
    }
}

/// How a request is finished.
pub fn completion(request: RoutedRequest) -> (c: Completion)
    ensures
        c == spec_completion(request),
{
    match request {
        Request::PinMap => Completion::Stream,
        Request::Get { target: Target::Pin(_) } => Completion::OneShot,
        Request::Get { .. } => Completion::Stream,
        Request::Query { target: Target::Pin(_), .. } => Completion::OneShot,
        Request::Query { .. } => Completion::Stream,
        Request::Listen { enabled: true, .. } => Completion::Listener,
        _ => Completion::OneShot,
    }
}


/// Every pin listens, if at all, under an identifier that has a slot.
pub open spec fn listener_ids_in_range(v: ConnectionView) -> bool {
    forall|r: int, i: int|
        #[trigger] spec_pin_listener(v, r, i) matches Some(l) ==> 0 <= slot_of(l) < v.pending.len()
}

/// Each identifier `spec_listener_ids` collects is the listener of one of
/// the pins it looked at.
proof fn lemma_listener_ids_from_pins(route: RouteKey, target: Target, pins: Seq<PinView>, n: int)
    requires
        n <= pins.len(),
    ensures
        forall|k: int|
            0 <= k < spec_listener_ids(route, target, pins, n).len() ==> exists|i: int|
                0 <= i < n && pins[i].listener == Some(#[trigger] spec_listener_ids(route, target, pins, n)[k]),
    decreases n,
{
    if n > 0 {
        lemma_listener_ids_from_pins(route, target, pins, n - 1);
        let rest = spec_listener_ids(route, target, pins, n - 1);
        let all = spec_listener_ids(route, target, pins, n);
        assert forall|k: int| 0 <= k < all.len() implies exists|i: int|
            0 <= i < n && pins[i].listener == Some(#[trigger] all[k]) by {
            if k < rest.len() {
                assert(all[k] == rest[k]);
                let i = choose|i: int| 0 <= i < n - 1 && pins[i].listener == Some(rest[k]);
                assert(0 <= i < n && pins[i].listener == Some(all[k]));
            } else {
                assert(0 <= n - 1 < n && pins[n - 1].listener == Some(all[k]));
            }
        }
    }
}

/// Releasing listener identifiers that have slots only frees slots: every
/// slot keeps its request or is emptied.
proof fn lemma_release_all_pending(v: ConnectionView, ids: Seq<RequestId>, s: int)
    requires
        0 <= s < v.pending.len(),
        forall|k: int| 0 <= k < ids.len() ==> 0 <= #[trigger] slot_of(ids[k]) < v.pending.len(),
    ensures
        spec_release_all(v, ids).pending.len() == v.pending.len(),
        spec_release_all(v, ids).pending[s] == v.pending[s] || spec_release_all(v, ids).pending[s] is None,
    decreases ids.len(),
{
    if ids.len() > 0 {
        assert forall|k: int| 0 <= k < ids.drop_last().len() implies 0 <= #[trigger] slot_of(ids.drop_last()[k])
            < v.pending.len() by {
            assert(ids.drop_last()[k] == ids[k]);
        }
        lemma_release_all_pending(v, ids.drop_last(), s);
        assert(0 <= slot_of(ids[ids.len() - 1]) < v.pending.len());
    }
}

/// A one-shot request is finished by whatever answer its route gives: its
/// slot is free afterwards.
pub proof fn lemma_one_shot_finished_by_answer(
    v: ConnectionView,
    id: RequestId,
    p: Pending,
    body: Response<Seq<u8>, Seq<u8>>,
)
    requires
        0 <= slot_of(id) < v.pending.len(),
        listener_ids_in_range(v),
        v.pending[slot_of(id)] == Some(p),
        p.route.0 < v.routes.len(),
        p.completion == Completion::OneShot,
    ensures
        spec_received_state(v, id, p, body).pending[slot_of(id)] is None,
{
    match body {
        Response::Ack => {
            if p.request != Request::<Target>::PinMap {
                match p.request {
                    Request::Listen { target, enabled } => {
                        match spec_route_map(v, p.route) {
                            Some(m) => {
                                let previous = spec_listener_ids(p.route, target, m.pins, m.pins.len() as int);
                                lemma_listener_ids_from_pins(p.route, target, m.pins, m.pins.len() as int);
                                assert forall|k: int| 0 <= k < previous.len() implies 0 <= #[trigger] slot_of(previous[k])
                                    < v.pending.len() by {
                                    let i = choose|i: int| 0 <= i < m.pins.len() && m.pins[i].listener == Some(previous[k]);
                                    assert(spec_pin_listener(v, p.route.0 as int, i) == Some(previous[k]));
                                }
                                let u = spec_update_targets(v, p.route, target, |q: PinView| pin_after_listen(q, enabled, id));
                                lemma_release_all_pending(u, previous, slot_of(id));
                            },
                            None => {},
                        }
                    },
                    _ => {},
                }
            }
        },
        _ => {},
    }
}

/// A routing error relayed by any router on the way retires the request it
/// answers.
pub proof fn lemma_routing_error_retires(
    v: ConnectionView,
    id: RequestId,
    p: Pending,
    body: Response<Seq<u8>, Seq<u8>>,
)
    requires
        v.pending[slot_of(id)] == Some(p),
        is_routing_error(body),
    ensures
        spec_received_state(v, id, p, body) == spec_retire(v, id),
{
}

/// A grouped read streams until the device's final `OKA`: a value or state
/// for one of the route's pins leaves it pending, and the `OKA` finishes it.
pub proof fn lemma_stream_ends_at_ack(
    v: ConnectionView,
    id: RequestId,
    p: Pending,
    target: Seq<u8>,
    answer: Response<Seq<u8>, Seq<u8>>,
)
    requires
        0 <= slot_of(id) < v.pending.len(),
        v.pending[slot_of(id)] == Some(p),
        p.route.0 < v.routes.len(),
        p.completion == Completion::Stream,
        p.completion == spec_completion(p.request),
        p.request != Request::<Target>::PinMap,
        spec_find_pin(v, p.route, target) is Some,
        (answer matches Response::Value { target: t, .. } && t == target) || (answer matches Response::State {
            target: t,
            ..
        } && t == target),
    ensures
        spec_received_state(v, id, p, answer) == v,
        spec_received_state(v, id, p, Response::Ack).pending[slot_of(id)] is None,
{
}

/// A grouped read, `GET` or `WYD` of a bank or of `ALL`, is a stream: once
/// registered it stays pending through every value or state the device
/// reports for one of the route's pins, and only the final `OKA` finishes
/// it.
pub proof fn lemma_grouped_read_streams(
    v: ConnectionView,
    id: RequestId,
    route: RouteKey,
    request: RoutedRequest,
    token: Seq<u8>,
    answer: Response<Seq<u8>, Seq<u8>>,
)
    requires
        0 <= slot_of(id) < v.pending.len(),
        route.0 < v.routes.len(),
        (request matches Request::Get { target } && !(target is Pin)) || (request matches Request::Query {
            target,
            ..
        } && !(target is Pin)),
        spec_find_pin(v, route, token) is Some,
        (answer matches Response::Value { target: t, .. } && t == token) || (answer matches Response::State {
            target: t,
            ..
        } && t == token),
    ensures
        ({
            let w = spec_register(v, id, route, request);
            let p = w.pending[slot_of(id)].unwrap();
            &&& w.pending[slot_of(id)] is Some
            &&& spec_received_state(w, id, p, answer) == w
            &&& spec_received_state(w, id, p, Response::Ack).pending[slot_of(id)] is None
        }),
{
    let w = spec_register(v, id, route, request);
    assert(w.routes == v.routes);
    assert(spec_find_pin(w, route, token) == spec_find_pin(v, route, token));
}

/// Once the device acknowledges a direction change, each discovered pin of
/// the route that the target addresses and that can be driven that way is an
/// input exactly when the direction is `IN`; every other pin keeps its
/// setting, and no pin changes what it is or whom it reports to.
pub proof fn lemma_direction_ack_applies(v: ConnectionView, id: RequestId, p: Pending, i: int)
    requires
        p.request is Direction,
        p.route.0 < v.routes.len(),
        v.routes[p.route.0 as int].map is Some,
        0 <= i < v.routes[p.route.0 as int].map.unwrap().pins.len(),
    ensures
        ({
            let (target, direction) = match p.request {
                Request::Direction { target, direction } => (target, direction),
                _ => (Target::All, Direction::Input),
            };
            let before = v.routes[p.route.0 as int].map.unwrap().pins[i];
            let w = spec_received_state(v, id, p, Response::Ack);
            &&& w.routes[p.route.0 as int].map matches Some(m) && m.pins.len() == v.routes[p.route.0 as int].map.unwrap().pins.len()
            &&& w.routes[p.route.0 as int].map.unwrap().pins[i].input == if spec_target_contains(
                p.route,
                target,
                i,
                before.info.bank,
            ) && spec_supports(before.info.capabilities, direction) {
                direction == Direction::Input
            } else {
                before.input
            }
            &&& w.routes[p.route.0 as int].map.unwrap().pins[i].info == before.info
            &&& w.routes[p.route.0 as int].map.unwrap().pins[i].listener == before.listener
        }),
{
}

/// A finished discovery installs the announced banks and pins, in order, with
/// no pin set up yet: none is an input and none listens, whatever it can do.
/// So a listener switched on right after discovery attaches to no pin.
pub proof fn lemma_discovered_pins_unconfigured(v: ConnectionView, id: RequestId, p: Pending, b: BuilderView, listen: RequestId)
    requires
        p.request == Request::<Target>::PinMap,
        p.route.0 < v.routes.len(),
        v.routes[p.route.0 as int].discovery == Some(b),
    ensures
        ({
            let w = spec_received_state(v, id, p, Response::Ack);
            &&& w.routes[p.route.0 as int].map matches Some(m) && m.banks == b.banks && m.pins.len() == b.pins.len()
            &&& forall|i: int|
                0 <= i < b.pins.len() ==> {
                    let q = #[trigger] w.routes[p.route.0 as int].map.unwrap().pins[i];
                    &&& q.info == b.pins[i]
                    &&& !q.input
                    &&& q.listener is None
                    &&& pin_after_listen(q, true, listen).listener is None
                }
        }),
{
}

/// A listener stays pending while its pin listens: each value the pin
/// reports under the listener's identifier leaves the connection as it was.
pub proof fn lemma_listener_persists(
    v: ConnectionView,
    id: RequestId,
    p: Pending,
    target: Seq<u8>,
    level: Level,
)
    requires
        v.pending[slot_of(id)] == Some(p),
        p.completion == Completion::Listener,
        spec_find_pin(v, p.route, target) matches Some(k) && spec_route_map(v, p.route).unwrap().pins[k.index as int].listener
            == Some(id),
    ensures
        spec_received_state(v, id, p, Response::Value { target, level }) == v,
{
}

/// While a `MAP` stream runs, its banks and pins only feed the discovery:
/// the route's pin map stays as it was until the final `OKA`.
pub proof fn lemma_map_installed_only_at_ack(
    v: ConnectionView,
    id: RequestId,
    p: Pending,
    body: Response<Seq<u8>, Seq<u8>>,
)
    requires
        v.pending[slot_of(id)] == Some(p),
        p.route.0 < v.routes.len(),
        p.request == Request::<Target>::PinMap,
        !spec_listener_id_active(v, id),
        body is MapBank || body is MapPin,
    ensures
        spec_received_state(v, id, p, body).routes[p.route.0 as int].map == v.routes[p.route.0 as int].map,
{
    let r = v.routes[p.route.0 as int];
    match r.map {
        Some(m) => {
            let stripped = route_without_listener(r, id).map.unwrap().pins;
            assert forall|i: int| 0 <= i < m.pins.len() implies stripped[i] == m.pins[i] by {
                if m.pins[i].listener == Some(id) {
                    assert(spec_pin_listener(v, p.route.0 as int, i) == Some(id));
                }
            }
            assert(stripped =~= m.pins);
        },
        None => {},
    }
}

/// A discovery fed these bank tokens in order: the discovery they build, or
/// none once one is refused.
pub open spec fn feed_banks(b: BuilderView, tokens: Seq<Seq<u8>>) -> Option<BuilderView>
    decreases tokens.len(),
{
    if tokens.len() == 0 {
        Some(b)
    } else {
        match feed_banks(b, tokens.drop_last()) {
            Some(c) => spec_builder_bank(c, tokens.last()),
            None => None,
        }
    }
}

/// A discovery fed these pins, each with its bank's token, in order: the
/// discovery they build, or why one was refused.
pub open spec fn feed_pins(b: BuilderView, pins: Seq<(PinInfoView, Seq<u8>)>) -> Result<BuilderView, PinRefusal>
    decreases pins.len(),
{
    if pins.len() == 0 {
        Ok(b)
    } else {
        match feed_pins(b, pins.drop_last()) {
            Ok(c) => spec_builder_pin(c, pins.last().0, pins.last().1),
            Err(e) => Err(e),
        }
    }
}

/// The announced pins as a discovery holds them: each as announced, in the
/// bank its bank token names.
pub open spec fn announced_pins(route: RouteKey, banks: Seq<Seq<u8>>, pins: Seq<(PinInfoView, Seq<u8>)>) -> Seq<PinInfoView> {
    pins.map_values(
        |p: (PinInfoView, Seq<u8>)|
            PinInfoView { bank: BankKey { route, index: spec_index_of(banks, p.1).unwrap() as usize }, ..p.0 },
    )
}

/// An announced pin map is consistent: its banks can be numbered by keys,
/// its bank tokens are distinct, its pin tokens are distinct, each pin names
/// an announced bank, and no two pins sit at one bit of one bank.
pub open spec fn announced_map_wf(banks: Seq<Seq<u8>>, pins: Seq<(PinInfoView, Seq<u8>)>) -> bool {
    &&& banks.len() <= usize::MAX
    &&& banks.no_duplicates()
    &&& forall|i: int| 0 <= i < pins.len() ==> banks.contains(#[trigger] pins[i].1)
    &&& forall|i: int, j: int|
        0 <= i < j < pins.len() ==> (#[trigger] pins[i]).0.token != (#[trigger] pins[j]).0.token && !(pins[i].1
            == pins[j].1 && pins[i].0.bit == pins[j].0.bit)
}

proof fn lemma_feed_banks(route: RouteKey, banks: Seq<Seq<u8>>, n: int)
    requires
        banks.no_duplicates(),
        0 <= n <= banks.len(),
    ensures
        feed_banks(BuilderView { route, banks: seq![], pins: seq![] }, banks.take(n)) == Some(
            BuilderView { route, banks: banks.take(n), pins: seq![] },
        ),
    decreases n,
{
    if n > 0 {
        lemma_feed_banks(route, banks, n - 1);
        assert(banks.take(n).drop_last() =~= banks.take(n - 1));
        assert(!banks.take(n - 1).contains(banks[n - 1])) by {
            if banks.take(n - 1).contains(banks[n - 1]) {
                let k = choose|k: int| 0 <= k < n - 1 && #[trigger] banks.take(n - 1)[k] == banks[n - 1];
                assert(banks[k] == banks[n - 1]);
            }
        }
        assert(banks.take(n - 1).push(banks[n - 1]) =~= banks.take(n));
    } else {
        assert(banks.take(0) =~= Seq::<Seq<u8>>::empty());
    }
}

proof fn lemma_feed_pins(route: RouteKey, banks: Seq<Seq<u8>>, pins: Seq<(PinInfoView, Seq<u8>)>, n: int)
    requires
        announced_map_wf(banks, pins),
        0 <= n <= pins.len(),
    ensures
        feed_pins(BuilderView { route, banks, pins: seq![] }, pins.take(n)) == Ok::<BuilderView, PinRefusal>(
            BuilderView { route, banks, pins: announced_pins(route, banks, pins.take(n)) },
        ),
    decreases n,
{
    if n > 0 {
        lemma_feed_pins(route, banks, pins, n - 1);
        let before = announced_pins(route, banks, pins.take(n - 1));
        let c = BuilderView { route, banks, pins: before };
        let p = pins[n - 1];
        assert(pins.take(n).drop_last() =~= pins.take(n - 1));
        assert(pins.take(n).last() == p);
        assert(!info_tokens(before).contains(p.0.token)) by {
            if info_tokens(before).contains(p.0.token) {
                let k = choose|k: int| 0 <= k < info_tokens(before).len() && #[trigger] info_tokens(before)[k] == p.0.token;
                assert(info_tokens(before)[k] == pins[k].0.token);
                assert(pins[k].0.token != pins[n - 1].0.token);
            }
        }
        lemma_index_of(banks, p.1);
        assert(banks.contains(pins[n - 1].1));
        let bi = spec_index_of(banks, p.1).unwrap();
        assert(!exists|j: int| 0 <= j < before.len() && (#[trigger] before[j]).bank.index == bi && before[j].bit == p.0.bit) by {
            if exists|j: int| 0 <= j < before.len() && (#[trigger] before[j]).bank.index == bi && before[j].bit == p.0.bit {
                let j = choose|j: int| 0 <= j < before.len() && (#[trigger] before[j]).bank.index == bi && before[j].bit == p.0.bit;
                assert(pins.take(n - 1)[j] == pins[j]);
                lemma_index_of(banks, pins[j].1);
                assert(banks.contains(pins[j].1));
                let bj = spec_index_of(banks, pins[j].1).unwrap();
                assert(bj < banks.len() && bi < banks.len());
                assert(bj == bi);
                assert(pins[j].1 == banks[bi as int]);
                assert(pins[j].1 == pins[n - 1].1);
            }
        }
        assert(announced_pins(route, banks, pins.take(n)) =~= before.push(
            PinInfoView { bank: BankKey { route, index: bi as usize }, ..p.0 },
        ));
    } else {
        assert(pins.take(0) =~= Seq::<(PinInfoView, Seq<u8>)>::empty());
        assert(announced_pins(route, banks, pins.take(0)) =~= Seq::<PinInfoView>::empty());
    }
}

/// A discovery fed a consistent announced pin map, its banks and then its
/// pins, accepts every piece and holds exactly that map: the banks in order,
/// and each pin as announced in the bank its token names.
pub proof fn lemma_discovery_rebuilds_announced_map(
    route: RouteKey,
    banks: Seq<Seq<u8>>,
    pins: Seq<(PinInfoView, Seq<u8>)>,
)
    requires
        announced_map_wf(banks, pins),
    ensures
        feed_banks(BuilderView { route, banks: seq![], pins: seq![] }, banks) == Some(
            BuilderView { route, banks, pins: seq![] },
        ),
        feed_pins(BuilderView { route, banks, pins: seq![] }, pins) == Ok::<BuilderView, PinRefusal>(
            BuilderView { route, banks, pins: announced_pins(route, banks, pins) },
        ),
{
    lemma_feed_banks(route, banks, banks.len() as int);
    assert(banks.take(banks.len() as int) =~= banks);
    lemma_feed_pins(route, banks, pins, pins.len() as int);
    assert(pins.take(pins.len() as int) =~= pins);
}

} // verus!
