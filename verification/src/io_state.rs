use vstd::prelude::*;

use crate::ascii::bytes_eq;
use crate::connection::{
    ListenerPin, ListenerRoute, ListenerValue, ListenerValueView, OwnedResponse, PinKey,
};
use crate::line::{LineBuffer, LineError};
use crate::message::{
    copy_bytes, decode_message, spec_decode_message, DecodeError, DecodeErrorKind, Packet,
};
use crate::request_id::RequestId;
use crate::response::{
    decode_response, response_data, response_target, same_response_shape,
    spec_decode_response_body, Response,
};
use crate::values::Level;

verus! {

/// What the host asks of the serial worker.
pub enum IoCommand {
    Connect(String),
    Disconnect,
    Write(Vec<u8>),
    Listeners(Vec<ListenerRoute>),
    DrainListeners,
}

/// What the serial worker must do after handling a command.
pub enum IoAction {
    /// Nothing more.
    Idle,
    /// Open the named port, then report whether it opened.
    Open(String),
    /// Report that the port was closed.
    Disconnected,
    /// Hand these listener updates to the host.
    ListenerValues(Vec<ListenerValue>),
}

/// A line read from the wire and what it decoded to.
pub struct LineEvent {
    pub line: Vec<u8>,
    pub packet: Result<OwnedResponse, DecodeError>,
}

/// The serial worker's state apart from the port itself.
pub struct IoState {
    pub connected: bool,
    pub reader: LineBuffer,
    pub writes: Vec<Vec<u8>>,
    pub write_offset: usize,
    pub listeners: Vec<ListenerRoute>,
    pub listener_updates: Vec<Vec<Option<ListenerValue>>>,
}

/// Every listening pin of a snapshot has a key inside the snapshot: its route
/// is one of the snapshot's routes and its index below that route's pin count.
pub open spec fn listener_routes_wf(routes: Seq<ListenerRoute>) -> bool {
    forall|r: int, i: int|
        0 <= r < routes.len() && 0 <= i < routes[r].pins@.len() ==> {
            let key = (#[trigger] routes[r].pins@[i]).key;
            &&& key.route.0 < routes.len()
            &&& key.index < routes[key.route.0 as int].pin_count
        }
}

/// The update table has one slot per pin of each route of the snapshot.
pub open spec fn updates_fit(routes: Seq<ListenerRoute>, updates: Seq<Vec<Option<ListenerValue>>>) -> bool {
    &&& updates.len() == routes.len()
    &&& forall|r: int| 0 <= r < routes.len() ==> (#[trigger] updates[r])@.len() == routes[r].pin_count
}

/// Each waiting update sits in the slot of its own pin.
pub open spec fn updates_in_place(updates: Seq<Vec<Option<ListenerValue>>>) -> bool {
    forall|r: int, i: int|
        0 <= r < updates.len() && 0 <= i < updates[r]@.len() ==> ((#[trigger] updates[r]@[i]) matches Some(u)
            ==> u.pin.route.0 == r && u.pin.index == i)
}

/// The update a new listener snapshot keeps in slot `i` of route `r`: the one
/// waiting there, if its pin still listens under its identifier.
pub open spec fn kept_update(
    updates: Seq<Vec<Option<ListenerValue>>>,
    routes: Seq<ListenerRoute>,
    r: int,
    i: int,
) -> Option<ListenerValue> {
    if 0 <= r < updates.len() && 0 <= i < updates[r]@.len() {
        match updates[r]@[i] {
            Some(u) => if spec_listener_is_configured(routes, u.pin, u.id) {
                Some(u)
            } else {
                None
            },
            None => None,
        }
    } else {
        None
    }
}

/// The slots of an update table, route by route.
pub open spec fn update_rows(updates: Seq<Vec<Option<ListenerValue>>>) -> Seq<Seq<Option<ListenerValue>>> {
    updates.map_values(|row: Vec<Option<ListenerValue>>| row@)
}

/// Whether a snapshot lists `key` as listening under `id`.
pub open spec fn spec_listener_is_configured(routes: Seq<ListenerRoute>, key: PinKey, id: RequestId) -> bool {
    exists|r: int, i: int|
        0 <= r < routes.len() && 0 <= i < routes[r].pins@.len() && (#[trigger] routes[r].pins@[i]).key == key
            && routes[r].pins@[i].id == id
}

/// The pending listener updates, route by route and pin by pin.
pub open spec fn spec_pending_updates(updates: Seq<Seq<Option<ListenerValue>>>) -> Seq<ListenerValue>
    decreases updates.len(),
{
    if updates.len() == 0 {
        seq![]
    } else {
        spec_pending_updates(updates.drop_last()) + spec_some_values(updates.last())
    }
}

/// The updates present in one route's slots, in pin order.
pub open spec fn spec_some_values(slots: Seq<Option<ListenerValue>>) -> Seq<ListenerValue>
    decreases slots.len(),
{
    if slots.len() == 0 {
        seq![]
    } else {
        match slots.last() {
            Some(v) => spec_some_values(slots.drop_last()).push(v),
            None => spec_some_values(slots.drop_last()),
        }
    }
}

impl IoState {
    /// Well formed: the update table fits the listener snapshot.
    pub open spec fn wf(&self) -> bool {
        &&& listener_routes_wf(self.listeners@)
        &&& updates_fit(self.listeners@, self.listener_updates@)
        &&& updates_in_place(self.listener_updates@)
    }

    /// A worker with no port, nothing to write and no listeners.
    pub fn new() -> (s: Self)
        ensures
            s.wf(),
            !s.connected,
            s.writes@.len() == 0,
            s.write_offset == 0,
            s.listeners@.len() == 0,
            s.listener_updates@.len() == 0,
            s.reader@.pending.len() == 0,
            !s.reader@.discarding,
    {
        IoState {
            connected: false,
            reader: LineBuffer::new(),
            writes: Vec::new(),
            write_offset: 0,
            listeners: Vec::new(),
            listener_updates: Vec::new(),
        }
    }

    /// Drops the listener snapshot and its pending updates.
    pub fn clear_listeners(&mut self)
        ensures
            final(self).wf(),
            final(self).listeners@.len() == 0,
            final(self).listener_updates@.len() == 0,
            final(self).connected == old(self).connected,
            final(self).writes@ == old(self).writes@,
            final(self).write_offset == old(self).write_offset,
            final(self).reader@ == old(self).reader@,
    {
        self.listeners.clear();
        self.listener_updates.clear();
    }

    /// Forgets the port and everything queued on it.
    pub fn close(&mut self)
        ensures
            final(self).wf(),
            !final(self).connected,
            final(self).writes@.len() == 0,
            final(self).write_offset == 0,
            final(self).reader@.pending.len() == 0,
            !final(self).reader@.discarding,
            final(self).listeners@.len() == 0,
            final(self).listener_updates@.len() == 0,
    {
        self.connected = false;
        self.writes.clear();
        self.write_offset = 0;
        self.reader.clear();
        self.clear_listeners();
    }

    /// The bytes still to be written of the oldest queued write.
    pub fn pending_write(&self) -> (res: Option<&[u8]>)
        ensures
            match res {
                Some(bytes) => self.writes@.len() > 0 && self.write_offset <= self.writes@[0]@.len()
                    && bytes@ == self.writes@[0]@.skip(self.write_offset as int),
                None => self.writes@.len() == 0 || self.write_offset > self.writes@[0]@.len(),
            },
    {
        if self.writes.len() == 0 {
            return None;
        }
        let first = self.writes[0].as_slice();
        if self.write_offset > first.len() {
            return None;
        }
        let rest = &first[self.write_offset..first.len()];
        assert(rest@ =~= first@.skip(self.write_offset as int));
        Some(rest)
    }

    /// Records that the port took `written` more bytes of the oldest write;
    /// a write taken whole leaves the queue.
    pub fn wrote(&mut self, written: usize)
        requires
            old(self).writes@.len() > 0,
            old(self).write_offset + written <= old(self).writes@[0]@.len(),
        ensures
            final(self).wf() == old(self).wf(),
            final(self).listeners@ == old(self).listeners@,
            final(self).listener_updates@ == old(self).listener_updates@,
            final(self).connected == old(self).connected,
            if old(self).write_offset + written == old(self).writes@[0]@.len() {
                final(self).writes@ == old(self).writes@.drop_first() && final(self).write_offset == 0
            } else {
                final(self).writes@ == old(self).writes@ && final(self).write_offset == old(self).write_offset
                    + written
            },
    {
        let total = self.writes[0].len();
        self.write_offset = self.write_offset + written;
        if self.write_offset == total {
            self.writes.remove(0);
            self.write_offset = 0;
            assert(self.writes@ =~= old(self).writes@.drop_first());
        }
    }

    /// Handles one command from the host and says what the worker must do
    /// next.
    pub fn handle_command(&mut self, command: IoCommand) -> (action: IoAction)
        requires
            old(self).wf(),
            command matches IoCommand::Listeners(routes) ==> listener_routes_wf(routes@),
        ensures
            final(self).wf(),
            match command {
                IoCommand::Connect(name) => action == IoAction::Open(name) && !final(self).connected
                    && final(self).writes@.len() == 0 && final(self).write_offset == 0
                    && final(self).reader@.pending.len() == 0 && !final(self).reader@.discarding
                    && final(self).listeners@.len() == 0,
                IoCommand::Disconnect => action == IoAction::Disconnected && !final(self).connected
                    && final(self).writes@.len() == 0 && final(self).write_offset == 0
                    && final(self).listeners@.len() == 0,
                IoCommand::Write(bytes) => action == IoAction::Idle && final(self).connected
                    == old(self).connected && final(self).writes@ == if old(self).connected {
                    old(self).writes@.push(bytes)
                } else {
                    old(self).writes@
                },
                IoCommand::Listeners(routes) => action == IoAction::Idle && final(self).listeners@ == routes@
                    && final(self).connected == old(self).connected && final(self).writes@ == old(self).writes@
                    && forall|r: int, i: int|
                    0 <= r < routes@.len() && 0 <= i < routes@[r].pin_count ==> #[trigger] final(self).listener_updates@[r]@[i]
                        == kept_update(old(self).listener_updates@, routes@, r, i),
                IoCommand::DrainListeners => final(self).listeners@ == old(self).listeners@
                    && final(self).connected == old(self).connected && final(self).writes@ == old(self).writes@
                    && (forall|r: int, i: int|
                    0 <= r < final(self).listener_updates@.len() && 0 <= i < final(self).listener_updates@[r]@.len()
                        ==> (#[trigger] final(self).listener_updates@[r]@[i]) is None) && match action {
                    IoAction::Idle => spec_pending_updates(update_rows(old(self).listener_updates@)).len() == 0,
                    IoAction::ListenerValues(values) => values@ == spec_pending_updates(
                        update_rows(old(self).listener_updates@),
                    ) && values@.len() > 0,
                    _ => false,
                },
            },
    {
        match command {
            IoCommand::Connect(name) => {
                self.close();
                IoAction::Open(name)
            },
            IoCommand::Disconnect => {
                self.close();
                IoAction::Disconnected
            },
            IoCommand::Write(bytes) => {
                if self.connected {
                    self.writes.push(bytes);
                }
                IoAction::Idle
            },
            IoCommand::Listeners(routes) => {
                let mut updates: Vec<Vec<Option<ListenerValue>>> = Vec::new();
                let mut r: usize = 0;
                while r < routes.len()
                    invariant
                        r <= routes@.len(),
                        updates@.len() == r,
                        forall|q: int| 0 <= q < r ==> (#[trigger] updates@[q])@.len() == routes@[q].pin_count,
                        forall|q: int, i: int| 0 <= q < r && 0 <= i < updates@[q]@.len() ==> (#[trigger] updates@[q]@[i]) is None,
                    decreases routes@.len() - r,
                {
                    let mut slots: Vec<Option<ListenerValue>> = Vec::new();
                    let mut i: usize = 0;
                    while i < routes[r].pin_count
                        invariant
                            r < routes@.len(),
                            i <= routes@[r as int].pin_count,
                            slots@.len() == i,
                            forall|j: int| 0 <= j < i ==> (#[trigger] slots@[j]) is None,
                        decreases routes@[r as int].pin_count - i,
                    {
                        slots.push(None);
                        i = i + 1;
                    }
                    updates.push(slots);
                    r = r + 1;
                }
                let rows = self.listener_updates.len();
                let mut q: usize = 0;
                while q < rows
                    invariant
                        old(self).wf(),
                        rows == old(self).listener_updates@.len(),
                        self.listener_updates@.len() == rows,
                        q <= rows,
                        self.listeners@ == old(self).listeners@,
                        self.connected == old(self).connected,
                        self.writes@ == old(self).writes@,
                        forall|k: int| q <= k < rows ==> (#[trigger] self.listener_updates@[k])@ == old(self).listener_updates@[k]@,
                        updates@.len() == routes@.len(),
                        listener_routes_wf(routes@),
                        forall|k: int| 0 <= k < routes@.len() ==> (#[trigger] updates@[k])@.len() == routes@[k].pin_count,
                        forall|k: int, j: int|
                            0 <= k < routes@.len() && 0 <= j < routes@[k].pin_count ==> #[trigger] updates@[k]@[j] == if k
                                < q {
                                kept_update(old(self).listener_updates@, routes@, k, j)
                            } else {
                                None
                            },
                    decreases rows - q,
                {
                    let n = self.listener_updates[q].len();
                    let mut i: usize = 0;
                    while i < n
                        invariant
                            old(self).wf(),
                            rows == old(self).listener_updates@.len(),
                            self.listener_updates@.len() == rows,
                            q < rows,
                            n == old(self).listener_updates@[q as int]@.len(),
                            self.listener_updates@[q as int]@.len() == n,
                            i <= n,
                            forall|j: int| i <= j < n ==> #[trigger] self.listener_updates@[q as int]@[j]
                                == old(self).listener_updates@[q as int]@[j],
                            forall|k: int| q < k < rows ==> (#[trigger] self.listener_updates@[k])@
                                == old(self).listener_updates@[k]@,
                            self.listeners@ == old(self).listeners@,
                            self.connected == old(self).connected,
                            self.writes@ == old(self).writes@,
                            updates@.len() == routes@.len(),
                            listener_routes_wf(routes@),
                            forall|k: int| 0 <= k < routes@.len() ==> (#[trigger] updates@[k])@.len() == routes@[k].pin_count,
                            forall|k: int, j: int|
                                0 <= k < routes@.len() && 0 <= j < routes@[k].pin_count ==> #[trigger] updates@[k]@[j]
                                    == if k < q || (k == q && j < i) {
                                    kept_update(old(self).listener_updates@, routes@, k, j)
                                } else {
                                    None
                                },
                        decreases n - i,
                    {
                        let slot = self.listener_updates[q][i].take();
                        proof {
                            assert(old(self).listener_updates@[q as int]@[i as int] == slot);
                        }
                        if let Some(update) = slot {
                            if listener_is_configured(&routes, update.pin, update.id) {
                                let pr = update.pin.route.0;
                                let pi = update.pin.index;
                                if pr < updates.len() && pi < updates[pr].len() {
                                    updates[pr].set(pi, Some(update));
                                }
                            }
                        }
                        proof {
                            assert forall|k: int, j: int|
                                0 <= k < routes@.len() && 0 <= j < routes@[k].pin_count implies #[trigger] updates@[k]@[j]
                                    == if k < q || (k == q && j < i + 1) {
                                    kept_update(old(self).listener_updates@, routes@, k, j)
                                } else {
                                    None
                                } by {}
                        }
                        i = i + 1;
                    }
                    q = q + 1;
                }
                self.listener_updates = updates;
                self.listeners = routes;
                IoAction::Idle
            },
            IoCommand::DrainListeners => {
                let ghost rows = update_rows(old(self).listener_updates@);
                let mut values: Vec<ListenerValue> = Vec::new();
                let n_rows = self.listener_updates.len();
                let mut r: usize = 0;
                while r < n_rows
                    invariant
                        self.wf(),
                        rows == update_rows(old(self).listener_updates@),
                        n_rows == rows.len(),
                        self.listener_updates@.len() == n_rows,
                        self.listeners@ == old(self).listeners@,
                        self.connected == old(self).connected,
                        self.writes@ == old(self).writes@,
                        r <= n_rows,
                        forall|k: int| r <= k < n_rows ==> (#[trigger] self.listener_updates@[k])@ == rows[k],
                        forall|k: int, i: int|
                            0 <= k < r && 0 <= i < self.listener_updates@[k]@.len() ==> (#[trigger] self.listener_updates@[k]@[i]) is None,
                        values@ == spec_pending_updates(rows.take(r as int)),
                    decreases n_rows - r,
                {
                    let n = self.listener_updates[r].len();
                    let mut i: usize = 0;
                    while i < n
                        invariant
                            self.wf(),
                            rows == update_rows(old(self).listener_updates@),
                            n_rows == rows.len(),
                            self.listener_updates@.len() == n_rows,
                            self.listeners@ == old(self).listeners@,
                            self.connected == old(self).connected,
                            self.writes@ == old(self).writes@,
                            r < n_rows,
                            n == rows[r as int].len(),
                            self.listener_updates@[r as int]@.len() == n,
                            i <= n,
                            forall|j: int| 0 <= j < i ==> (#[trigger] self.listener_updates@[r as int]@[j]) is None,
                            forall|j: int| i <= j < n ==> #[trigger] self.listener_updates@[r as int]@[j] == rows[r as int][j],
                            forall|k: int| r < k < n_rows ==> (#[trigger] self.listener_updates@[k])@ == rows[k],
                            forall|k: int, j: int|
                                0 <= k < r && 0 <= j < self.listener_updates@[k]@.len() ==> (#[trigger] self.listener_updates@[k]@[j]) is None,
                            values@ == spec_pending_updates(rows.take(r as int)) + spec_some_values(
                                rows[r as int].take(i as int),
                            ),
                        decreases n - i,
                    {
                        let slot = self.listener_updates[r][i].take();
                        proof {
                            assert(rows[r as int].take(i + 1).drop_last() =~= rows[r as int].take(i as int));
                        }
                        if let Some(value) = slot {
                            values.push(value);
                        }
                        i = i + 1;
                    }
                    proof {
                        assert(rows[r as int].take(n as int) =~= rows[r as int]);
                        assert(rows.take(r + 1).drop_last() =~= rows.take(r as int));
                    }
                    r = r + 1;
                }
                proof {
                    assert(rows.take(n_rows as int) =~= rows);
                }
                if values.len() == 0 {
                    IoAction::Idle
                } else {
                    IoAction::ListenerValues(values)
                }
            },
        }
    }
}

/// The pin a listener update from `source` for `target` under `id` belongs
/// to: in the first route of the snapshot named `source`, a pin listening
/// under `id` with that token.
pub open spec fn listener_key_for(
    routes: Seq<ListenerRoute>,
    source: Seq<u8>,
    id: RequestId,
    target: Seq<u8>,
    key: PinKey,
) -> bool {
    exists|r: int, i: int|
        0 <= r < routes.len() && 0 <= i < routes[r].pins@.len() && routes[r].name@ == source && (forall|q: int|
            0 <= q < r ==> (#[trigger] routes[q]).name@ != source) && (#[trigger] routes[r].pins@[i]).key == key
            && routes[r].pins@[i].id == id && routes[r].pins@[i].token@ == target
}

/// No pin of the first route named `source` listens under `id` with the
/// token `target`.
pub open spec fn no_listener_for(routes: Seq<ListenerRoute>, source: Seq<u8>, id: RequestId, target: Seq<u8>) -> bool {
    forall|r: int|
        0 <= r < routes.len() && routes[r].name@ == source && (forall|q: int|
            0 <= q < r ==> (#[trigger] routes[q]).name@ != source) ==> forall|i: int|
            0 <= i < routes[r].pins@.len() ==> !((#[trigger] routes[r].pins@[i]).id == id && routes[r].pins@[i].token@
                == target)
}

/// The update table after an update was stored in `pin`'s slot: the other
/// slots as they were, and in that slot the update, counting the one it
/// replaced.
pub open spec fn update_stored(
    before: Seq<Vec<Option<ListenerValue>>>,
    after: Seq<Vec<Option<ListenerValue>>>,
    pin: PinKey,
    line: Seq<u8>,
    id: RequestId,
    level: Level,
) -> bool {
    &&& after.len() == before.len()
    &&& forall|r: int| 0 <= r < before.len() && r != pin.route.0 ==> (#[trigger] after[r]) == before[r]
    &&& after[pin.route.0 as int]@ == before[pin.route.0 as int]@.update(
        pin.index as int,
        after[pin.route.0 as int]@[pin.index as int],
    )
    &&& after[pin.route.0 as int]@[pin.index as int] matches Some(v) && v@ == (ListenerValueView {
        line,
        id,
        pin,
        level,
        coalesced: match before[pin.route.0 as int]@[pin.index as int] {
            Some(previous) => if previous.coalesced == u32::MAX {
                u32::MAX
            } else {
                (previous.coalesced + 1) as u32
            },
            None => 0,
        },
    })
}

/// A listener update for `target` under identifier `id` from `source` was
/// kept in the slot of the pin it belongs to.
pub open spec fn update_kept(
    routes: Seq<ListenerRoute>,
    before: Seq<Vec<Option<ListenerValue>>>,
    after: Seq<Vec<Option<ListenerValue>>>,
    source: Seq<u8>,
    id: u16,
    target: Seq<u8>,
    line: Seq<u8>,
    level: Level,
) -> bool {
    exists|rid: RequestId, key: PinKey|
        rid.value() == id && #[trigger] listener_key_for(routes, source, rid, target, key) && #[trigger] update_stored(
            before,
            after,
            key,
            line,
            rid,
            level,
        )
}

/// Whether a snapshot lists `key` as listening under `id`.
pub fn listener_is_configured(routes: &Vec<ListenerRoute>, key: PinKey, id: RequestId) -> (r: bool)
    ensures
        r == spec_listener_is_configured(routes@, key, id),
{
    let mut r: usize = 0;
    while r < routes.len()
        invariant
            r <= routes@.len(),
            forall|q: int, i: int|
                0 <= q < r && 0 <= i < routes@[q].pins@.len() ==> !((#[trigger] routes@[q].pins@[i]).key == key
                    && routes@[q].pins@[i].id == id),
        decreases routes@.len() - r,
    {
        let mut i: usize = 0;
        while i < routes[r].pins.len()
            invariant
                r < routes@.len(),
                i <= routes@[r as int].pins@.len(),
                forall|j: int| 0 <= j < i ==> !((#[trigger] routes@[r as int].pins@[j]).key == key && routes@[r as int].pins@[j].id == id),
            decreases routes@[r as int].pins@.len() - i,
        {
            let pin = &routes[r].pins[i];
            if pin.key.route.0 == key.route.0 && pin.key.index == key.index && pin.id.get() == id.get() {
                proof {
                    RequestId::lemma_value_determines(pin.id, id);
                }
                return true;
            }
            i = i + 1;
        }
        r = r + 1;
    }
    false
}

/// The pin a listener update from `source` for `target` under `id` belongs
/// to: the first route named `source` decides, and within it the first pin
/// with that token listening under `id`.
pub fn active_listener(routes: &Vec<ListenerRoute>, source: &[u8], id: RequestId, target: &[u8]) -> (res: Option<PinKey>)
    ensures
        match res {
            Some(key) => listener_key_for(routes@, source@, id, target@, key),
            None => no_listener_for(routes@, source@, id, target@),
        },
{
    let mut r: usize = 0;
    while r < routes.len()
        invariant
            r <= routes@.len(),
            forall|q: int| 0 <= q < r ==> (#[trigger] routes@[q]).name@ != source@,
        decreases routes@.len() - r,
    {
        if bytes_eq(routes[r].name.as_slice(), source) {
            let mut i: usize = 0;
            while i < routes[r].pins.len()
                invariant
                    r < routes@.len(),
                    routes@[r as int].name@ == source@,
                    forall|q: int| 0 <= q < r ==> (#[trigger] routes@[q]).name@ != source@,
                    i <= routes@[r as int].pins@.len(),
                    forall|j: int| 0 <= j < i ==> !((#[trigger] routes@[r as int].pins@[j]).id == id
                        && routes@[r as int].pins@[j].token@ == target@),
                decreases routes@[r as int].pins@.len() - i,
            {
                let pin = &routes[r].pins[i];
                if pin.id.get() == id.get() && bytes_eq(pin.token.as_slice(), target) {
                    proof {
                        RequestId::lemma_value_determines(pin.id, id);
                    }
                    return Some(pin.key);
                }
                proof {
                    if pin.id == id {
                        RequestId::lemma_value_determines(pin.id, id);
                    }
                }
                i = i + 1;
            }
            return None;
        }
        r = r + 1;
    }
    None
}

/// Stores a listener update in its pin's slot; an update already waiting
/// there is replaced, and the new one counts it.
pub fn coalesce_listener_update(
    updates: &mut Vec<Vec<Option<ListenerValue>>>,
    pin: PinKey,
    line: Vec<u8>,
    id: RequestId,
    level: Level,
)
    requires
        pin.route.0 < old(updates)@.len(),
        pin.index < old(updates)@[pin.route.0 as int]@.len(),
    ensures
        update_stored(old(updates)@, final(updates)@, pin, line@, id, level),
{
    let coalesced: u32 = match &updates[pin.route.0][pin.index] {
        Some(previous) => previous.coalesced.saturating_add(1),
        None => 0,
    };
    updates[pin.route.0].set(pin.index, Some(ListenerValue { line, id, pin, level, coalesced }));
}

/// A decoded response with its tokens copied out of the line.
pub fn own_response(source: &[u8], packet: Packet<Response<&[u8], &[u8]>>) -> (res: OwnedResponse)
    ensures
        res.source@ == source@,
        res.packet.id == packet.id,
        res.packet.body@ == packet.body@,
{
    let copy_target = |t: &[u8]| -> (r: Result<Vec<u8>, DecodeError>)
        ensures
            r matches Ok(v) && v@ == t@,
        {
            Ok(copy_bytes(t))
        };
    let copy_data = |t: &[u8]| -> (r: Result<Vec<u8>, DecodeError>)
        ensures
            r matches Ok(v) && v@ == t@,
        {
            Ok(copy_bytes(t))
        };
    let body = match packet.body.try_map(copy_target, copy_data) {
        Ok(body) => body,
        Err(_) => Response::Unknown,
    };
    proof {
        lemma_same_shape_view(packet.body, body);
    }
    OwnedResponse { source: copy_bytes(source), packet: Packet { id: packet.id, body } }
}


/// The event reports a line that decoded no further than its identifier.
pub open spec fn reports_error(ev: LineEvent, kind: DecodeErrorKind, id: u16) -> bool {
    match ev.packet {
        Err(e) => e.id matches Some(i) && i.value() == id && e.kind == kind,
        Ok(_) => false,
    }
}

/// The event reports response `r` to identifier `id` from `route`.
pub open spec fn reports_response(ev: LineEvent, route: Seq<u8>, id: u16, r: Response<Seq<u8>, Seq<u8>>) -> bool {
    match ev.packet {
        Ok(o) => o.source@ == route && o.packet.id.value() == id && o.packet.body@ == r,
        Err(_) => false,
    }
}

/// A response with the same shape as another, whose tokens read the same,
/// is the same response by value.
proof fn lemma_same_shape_view(a: Response<&[u8], &[u8]>, b: Response<Vec<u8>, Vec<u8>>)
    requires
        same_response_shape(a, b),
        response_target(a) matches Some(t) ==> response_target(b) matches Some(u) && u@ == t@,
        response_data(a) matches Some(d) ==> response_data(b) matches Some(u) && u@ == d@,
    ensures
        b@ == a@,
{
}

/// Decodes a line read from the wire. A listener update for a pin that
/// listens under its identifier is kept in that pin's slot and nothing is
/// reported; anything else is reported with what it decoded to.
pub fn route_line(state: &mut IoState, line: &[u8]) -> (res: Option<LineEvent>)
    requires
        old(state).wf(),
    ensures
        final(state).wf(),
        final(state).listeners@ == old(state).listeners@,
        final(state).connected == old(state).connected,
        final(state).writes@ == old(state).writes@,
        match spec_decode_message(line@) {
            Err(_) => res matches Some(ev) && ev.line@ == line@ && ev.packet is Err
                && final(state).listener_updates@ == old(state).listener_updates@,
            Ok((id, route, body)) => match spec_decode_response_body(body) {
                Err(kind) => res matches Some(ev) && ev.line@ == line@ && reports_error(ev, kind, id)
                    && final(state).listener_updates@ == old(state).listener_updates@,
                Ok(r) => match res {
                    None => r matches Response::Value { target, level } && update_kept(
                        old(state).listeners@,
                        old(state).listener_updates@,
                        final(state).listener_updates@,
                        route,
                        id,
                        target,
                        line@,
                        level,
                    ),
                    Some(ev) => ev.line@ == line@ && reports_response(ev, route, id, r)
                        && final(state).listener_updates@ == old(state).listener_updates@ && (r matches Response::Value {
                        target,
                        ..
                    } ==> forall|rid: RequestId|
                        rid.value() == id ==> no_listener_for(old(state).listeners@, route, rid, target)),
                },
            },
        },
{
    let envelope = match decode_message(line) {
        Err(e) => {
            return Some(LineEvent { line: copy_bytes(line), packet: Err(e) });
        },
        Ok(envelope) => envelope,
    };
    let packet = match decode_response(Packet { id: envelope.id, body: envelope.body }) {
        Err(e) => {
            return Some(LineEvent { line: copy_bytes(line), packet: Err(e) });
        },
        Ok(packet) => packet,
    };
    if let Response::Value { target, level } = packet.body {
        match active_listener(&state.listeners, envelope.route, packet.id, target) {
            Some(pin) => {
                let copied = copy_bytes(line);
                coalesce_listener_update(&mut state.listener_updates, pin, copied, packet.id, level);
                assert(listener_key_for(old(state).listeners@, envelope.route@, packet.id, target@, pin)
                    && update_stored(old(state).listener_updates@, state.listener_updates@, pin, line@, packet.id, level));
                assert(update_kept(
                    old(state).listeners@,
                    old(state).listener_updates@,
                    state.listener_updates@,
                    envelope.route@,
                    packet.id.value(),
                    target@,
                    line@,
                    level,
                ));
                return None;
            },
            None => {
                assert forall|rid: RequestId| rid.value() == packet.id.value() implies no_listener_for(
                    old(state).listeners@,
                    envelope.route@,
                    rid,
                    target@,
                ) by {
                    RequestId::lemma_value_determines(rid, packet.id);
                }
            },
        }
    }
    Some(LineEvent { line: copy_bytes(line), packet: Ok(own_response(envelope.route, packet)) })
}


/// The kind of a failed serial read or write, one for each kind
/// `std::io::ErrorKind` names, and `Unlisted` for any kind it adds.
#[derive(Clone, Copy, Debug, PartialEq, Eq, Structural)]
pub enum IoErrorKind {
    NotFound,
    PermissionDenied,
    ConnectionRefused,
    ConnectionReset,
    HostUnreachable,
    NetworkUnreachable,
    ConnectionAborted,
    NotConnected,
    AddrInUse,
    AddrNotAvailable,
    NetworkDown,
    BrokenPipe,
    AlreadyExists,
    WouldBlock,
    NotADirectory,
    IsADirectory,
    DirectoryNotEmpty,
    ReadOnlyFilesystem,
    StaleNetworkFileHandle,
    InvalidInput,
    InvalidData,
    TimedOut,
    WriteZero,
    StorageFull,
    NotSeekable,
    QuotaExceeded,
    FileTooLarge,
    ResourceBusy,
    ExecutableFileBusy,
    Deadlock,
    CrossesDevices,
    TooManyLinks,
    InvalidFilename,
    ArgumentListTooLong,
    Interrupted,
    Unsupported,
    UnexpectedEof,
    OutOfMemory,
    Other,
    Unlisted,
}

/// Whether a failure of this kind is worth retrying rather than closing the
/// port: a timeout, a read or write that would block, or an interrupted call.
pub fn transient_io_kind(kind: IoErrorKind) -> (r: bool)
    ensures
        r == (kind == IoErrorKind::TimedOut || kind == IoErrorKind::WouldBlock || kind == IoErrorKind::Interrupted),
{
    match kind {
        IoErrorKind::TimedOut | IoErrorKind::WouldBlock | IoErrorKind::Interrupted => true,
        _ => false,
    }
}

} // verus!
