//! The server's replication bookkeeping: who owns which ship, which team
//! the next client joins, what has changed since a client's last
//! acknowledgement, and how a client is to treat each entity it is told of.

use vstd::prelude::*;
use crate::components::{OwnedBy, Ship, TeamColor};
use crate::protocol::PlayerInput;
use crate::vec2::Vec2;
use crate::world::{Entity, Slot, World, WorldView, MAX_ENTITIES};

verus! {

/// Ticks between two rounds of updates by default: a tenth of a second.
pub const REPLICATION_INTERVAL: u64 = 6;

/// How a client treats an entity it is told of.
#[derive(Clone, Copy, Debug, PartialEq, Eq, Structural)]
pub enum ReplicationRole {
    /// The client's own ship: simulated ahead locally and corrected from
    /// the server's state.
    Prediction,
    /// Anything else: shown as received, smoothed, never simulated ahead.
    Interpolation,
}

/// Why the manager turned something away.
#[derive(Clone, Copy, Debug, PartialEq, Eq, Structural)]
pub enum ReplicationError {
    /// The client already owns a ship.
    AlreadyConnected,
    /// No ship is recorded for the client.
    UnknownClient,
    /// A component of the input direction lies outside `[-UNIT, UNIT]`.
    InvalidInput,
}

/// What the server remembers of a connected client.
#[derive(Clone, Copy, Debug, PartialEq, Eq, Structural)]
pub struct ClientRecord {
    pub client: u64,
    /// The ship that the client owns.
    pub ship: Entity,
    /// The latest tick that the client has acknowledged.
    pub last_ack: Option<u64>,
}

/// One entry of an update: an entity, its state (a vacant slot for one that
/// is gone), and the role it has for the receiver.
#[derive(Clone, Copy, Debug, PartialEq, Eq, Structural)]
pub struct EntityUpdate {
    pub entity: Entity,
    pub state: Slot,
    pub role: ReplicationRole,
}

/// What goes out to one client in a round of updates.
#[derive(Clone, Debug, PartialEq, Eq)]
pub struct ClientUpdate {
    pub client: u64,
    /// The tick on which the update was made.
    pub tick: u64,
    pub entries: Vec<EntityUpdate>,
}

/// The server's records of clients and of what it has published.
pub struct ReplicationManager {
    pub clients: Vec<ClientRecord>,
    /// Number of connections accepted so far.
    pub connections: u64,
    /// The slots as they were when last observed.
    pub published: Vec<Slot>,
    /// For each observed slot, the tick on which it last changed.
    pub changed_at: Vec<u64>,
    /// Ticks between two rounds of updates.
    pub interval: u64,
}

/// The manager as the contracts see it.
pub struct ManagerView {
    pub clients: Seq<ClientRecord>,
    pub connections: u64,
    pub published: Seq<Slot>,
    pub changed_at: Seq<u64>,
    pub interval: u64,
}

impl View for ReplicationManager {
    type V = ManagerView;

    open spec fn view(&self) -> ManagerView {
        ManagerView {
            clients: self.clients@,
            connections: self.connections,
            published: self.published@,
            changed_at: self.changed_at@,
            interval: self.interval,
        }
    }
}

/// The team of the client that connects after `connections` others: red
/// for the first, then blue and red in turn.
pub open spec fn team_for_connection(connections: u64) -> TeamColor {
    if connections % 2 == 0 {
        TeamColor::Red
    } else {
        TeamColor::Blue
    }
}

/// The position of the client's record, or -1 if it has none among the
/// first `n`.
pub open spec fn record_index(clients: Seq<ClientRecord>, client: u64, n: int) -> int
    decreases n,
{
    if n <= 0 {
        -1
    } else if clients[n - 1].client == client {
        n - 1
    } else {
        record_index(clients, client, n - 1)
    }
}

/// The role that `entity` has for the client of `record`.
pub open spec fn role_for(record: ClientRecord, entity: Entity) -> ReplicationRole {
    if record.ship == entity {
        ReplicationRole::Prediction
    } else {
        ReplicationRole::Interpolation
    }
}

/// The slot changed after the tick that was acknowledged; with nothing
/// acknowledged, everything counts as changed.
pub open spec fn changed_since(changed: u64, ack: Option<u64>) -> bool {
    ack matches Some(t) ==> changed > t
}

/// The update for the client of `record` over the first `n` slots: one
/// entry, in slot order, for each slot that changed since the client's last
/// acknowledgement.
pub open spec fn update_for(m: ManagerView, record: ClientRecord, n: int) -> Seq<EntityUpdate>
    decreases n,
{
    if n <= 0 {
        Seq::empty()
    } else {
        let front = update_for(m, record, n - 1);
        if changed_since(m.changed_at[n - 1], record.last_ack) {
            front.push(
                EntityUpdate {
                    entity: Entity((n - 1) as usize),
                    state: m.published[n - 1],
                    role: role_for(record, Entity((n - 1) as usize)),
                },
            )
        } else {
            front
        }
    }
}

/// The tick on which slot `i` last changed, once `slots` has been observed
/// on tick `tick`: the tick on record if the slot is as it was published,
/// and `tick` if it is new or different.
pub open spec fn stamp(m: ManagerView, slots: Seq<Slot>, tick: u64, i: int) -> u64 {
    if i < m.published.len() && m.published[i] == slots[i] {
        m.changed_at[i]
    } else {
        tick
    }
}

impl ManagerView {
    pub open spec fn wf(self) -> bool {
        &&& self.published.len() == self.changed_at.len()
        &&& self.published.len() <= MAX_ENTITIES
        &&& self.interval >= 1
        &&& forall|i: int, j: int|
            0 <= i < j < self.clients.len() ==> (#[trigger] self.clients[i]).client != (
            #[trigger] self.clients[j]).client
    }

    /// Every record names a ship of `w` that is marked as owned by the
    /// record's client.
    pub open spec fn consistent(self, w: WorldView) -> bool {
        forall|i: int| 0 <= i < self.clients.len() ==> backed(#[trigger] self.clients[i], w)
    }

    pub open spec fn knows(self, client: u64) -> bool {
        record_index(self.clients, client, self.clients.len() as int) >= 0
    }

    /// The record of a client that is known.
    pub open spec fn record_of(self, client: u64) -> ClientRecord {
        self.clients[record_index(self.clients, client, self.clients.len() as int)]
    }
}

/// A client coming or going, as the transport reports it.
#[derive(Clone, Copy, Debug, PartialEq, Eq, Structural)]
pub enum ConnectionEvent {
    Connected(u64),
    Disconnected(u64),
}

/// The server's state: the manager and the world it manages.
pub struct ServerView {
    pub manager: ManagerView,
    pub world: WorldView,
}

/// The state after a client was taken in. A client that is known already
/// changes nothing; a new one gets a fresh ship at the origin, in the team
/// whose turn it is, and a record of it.
pub open spec fn after_connect(s: ServerView, client: u64) -> ServerView {
    if s.manager.knows(client) {
        s
    } else {
        let ship = Entity(s.world.slots.len() as usize);
        ServerView {
            manager: ManagerView {
                clients: s.manager.clients.push(ClientRecord { client, ship, last_ack: None }),
                connections: (s.manager.connections + 1) as u64,
                ..s.manager
            },
            world: s.world.with_slots(
                s.world.slots.push(
                    Slot::Ship(
                        Ship::fresh(
                            OwnedBy(client),
                            team_for_connection(s.manager.connections),
                            Vec2 { x: 0, y: 0 },
                        ),
                    ),
                ),
            ),
        }
    }
}

/// The state after a client was let go. An unknown client changes nothing;
/// a known one loses its ship and its record.
pub open spec fn after_disconnect(s: ServerView, client: u64) -> ServerView {
    if !s.manager.knows(client) {
        s
    } else {
        let index = record_index(s.manager.clients, client, s.manager.clients.len() as int);
        ServerView {
            manager: ManagerView { clients: s.manager.clients.remove(index), ..s.manager },
            world: s.world.with_slots(
                s.world.slots.update(s.manager.clients[index].ship.0 as int, Slot::Vacant),
            ),
        }
    }
}

/// The state after one connection event.
pub open spec fn after_event(s: ServerView, event: ConnectionEvent) -> ServerView {
    match event {
        ConnectionEvent::Connected(client) => after_connect(s, client),
        ConnectionEvent::Disconnected(client) => after_disconnect(s, client),
    }
}

/// The state after the first `n` of a queue of connection events, taken in
/// order.
pub open spec fn after_events(s: ServerView, events: Seq<ConnectionEvent>, n: int) -> ServerView
    decreases n,
{
    if n <= 0 {
        s
    } else {
        after_event(after_events(s, events, n - 1), events[n - 1])
    }
}

/// The event changes something: a client that is not known comes, or one
/// that is known goes.
pub open spec fn takes_effect(s: ServerView, event: ConnectionEvent) -> bool {
    match event {
        ConnectionEvent::Connected(client) => !s.manager.knows(client),
        ConnectionEvent::Disconnected(client) => s.manager.knows(client),
    }
}

/// How many of the first `n` events of a queue take effect.
pub open spec fn effective_events(s: ServerView, events: Seq<ConnectionEvent>, n: int) -> nat
    decreases n,
{
    if n <= 0 {
        0
    } else {
        effective_events(s, events, n - 1) + if takes_effect(
            after_events(s, events, n - 1),
            events[n - 1],
        ) {
            1nat
        } else {
            0nat
        }
    }
}

/// The record names a ship of `w` that is marked as owned by its client.
pub open spec fn backed(record: ClientRecord, w: WorldView) -> bool {
    w.is_ship(record.ship) && w.slots[record.ship.0 as int]->Ship_0.owner == OwnedBy(
        record.client,
    )
}

/// Those of the first `n` records that are backed by `w`, in their order.
pub open spec fn backed_records(clients: Seq<ClientRecord>, w: WorldView, n: int) -> Seq<
    ClientRecord,
>
    decreases n,
{
    if n <= 0 {
        Seq::empty()
    } else if backed(clients[n - 1], w) {
        backed_records(clients, w, n - 1).push(clients[n - 1])
    } else {
        backed_records(clients, w, n - 1)
    }
}

/// Every record that `backed_records` keeps is one of the first `n`, is
/// backed, and comes with its order kept: records of different clients stay
/// records of different clients.
pub proof fn lemma_backed_records(clients: Seq<ClientRecord>, w: WorldView, n: int)
    requires
        0 <= n <= clients.len(),
        forall|i: int, j: int|
            0 <= i < j < clients.len() ==> (#[trigger] clients[i]).client != (
            #[trigger] clients[j]).client,
    ensures
        backed_records(clients, w, n).len() <= n,
        forall|k: int|
            0 <= k < backed_records(clients, w, n).len() ==> backed(
                #[trigger] backed_records(clients, w, n)[k],
                w,
            ),
        forall|k: int|
            0 <= k < backed_records(clients, w, n).len() ==> exists|i: int|
                0 <= i < n && clients[i] == #[trigger] backed_records(clients, w, n)[k],
        forall|a: int, b: int|
            0 <= a < b < backed_records(clients, w, n).len() ==> (#[trigger] backed_records(
                clients,
                w,
                n,
            )[a]).client != (#[trigger] backed_records(clients, w, n)[b]).client,
        (forall|i: int| 0 <= i < n ==> backed(#[trigger] clients[i], w)) ==> backed_records(
            clients,
            w,
            n,
        ) == clients.take(n),
    decreases n,
{
    if n > 0 {
        lemma_backed_records(clients, w, n - 1);
        let front = backed_records(clients, w, n - 1);
        let whole = backed_records(clients, w, n);
        assert forall|k: int| 0 <= k < whole.len() implies exists|i: int|
            0 <= i < n && clients[i] == #[trigger] whole[k] by {
            if k < front.len() {
                let i = choose|i: int| 0 <= i < n - 1 && clients[i] == front[k];
                assert(clients[i] == whole[k]);
            } else {
                assert(clients[n - 1] == whole[k]);
            }
        }
        assert forall|a: int, b: int| 0 <= a < b < whole.len() implies (#[trigger] whole[a]).client
            != (#[trigger] whole[b]).client by {
            if b >= front.len() {
                let i = choose|i: int| 0 <= i < n - 1 && clients[i] == front[a];
                assert(clients[i].client != clients[n - 1].client);
            }
        }
        if forall|i: int| 0 <= i < n ==> backed(#[trigger] clients[i], w) {
            assert(clients.take(n - 1).push(clients[n - 1]) =~= clients.take(n));
        }
    } else {
        assert(clients.take(0) =~= Seq::<ClientRecord>::empty());
    }
}

/// `record_index` finds the record of a client if there is one, and
/// reports -1 exactly when there is none.
pub proof fn lemma_record_index(clients: Seq<ClientRecord>, client: u64, n: int)
    requires
        0 <= n <= clients.len(),
    ensures
        -1 <= record_index(clients, client, n) < n,
        record_index(clients, client, n) >= 0 ==> clients[record_index(
            clients,
            client,
            n,
        )].client == client,
        record_index(clients, client, n) < 0 ==> forall|i: int|
            0 <= i < n ==> (#[trigger] clients[i]).client != client,
    decreases n,
{
    if n > 0 {
        lemma_record_index(clients, client, n - 1);
    }
}

/// Teams alternate: two clients that connect one after the other are on
/// opposite teams, and the first is red.
pub proof fn lemma_teams_alternate(connections: u64)
    requires
        connections < u64::MAX,
    ensures
        team_for_connection(0) == TeamColor::Red,
        team_for_connection((connections + 1) as u64) == team_for_connection(
            connections,
        ).opposite(),
{
}

/// An update tells each client that its own ship, and nothing else, is to
/// be predicted; every entry is a slot that changed since the client's last
/// acknowledgement and carries the state that was published.
pub proof fn lemma_update_for(m: ManagerView, record: ClientRecord, n: int)
    requires
        0 <= n <= m.published.len(),
        m.published.len() == m.changed_at.len(),
        m.published.len() <= MAX_ENTITIES,
    ensures
        update_for(m, record, n).len() <= n,
        forall|k: int|
            0 <= k < update_for(m, record, n).len() ==> {
                let entry = #[trigger] update_for(m, record, n)[k];
                &&& entry.entity.0 < n
                &&& entry.state == m.published[entry.entity.0 as int]
                &&& changed_since(m.changed_at[entry.entity.0 as int], record.last_ack)
                &&& entry.role == ReplicationRole::Prediction <==> entry.entity == record.ship
            },
        forall|i: int|
            0 <= i < n && changed_since(#[trigger] m.changed_at[i], record.last_ack)
                ==> exists|k: int|
                0 <= k < update_for(m, record, n).len() && (#[trigger] update_for(
                    m,
                    record,
                    n,
                )[k]).entity.0 == i,
    decreases n,
{
    if n > 0 {
        lemma_update_for(m, record, n - 1);
        let front = update_for(m, record, n - 1);
        let whole = update_for(m, record, n);
        assert forall|i: int|
            0 <= i < n && changed_since(#[trigger] m.changed_at[i], record.last_ack) implies exists|
            k: int,
        | 0 <= k < whole.len() && (#[trigger] whole[k]).entity.0 == i by {
            if i < n - 1 {
                let k = choose|k: int| 0 <= k < front.len() && (#[trigger] front[k]).entity.0 == i;
                assert(whole[k] == front[k]);
            } else {
                assert(whole[whole.len() - 1].entity.0 == i);
            }
        }
    }
}

impl ReplicationManager {
    /// A manager that knows no client and has observed nothing.
    pub fn new(interval: u64) -> (m: ReplicationManager)
        requires
            interval >= 1,
        ensures
            m@.wf(),
            m@ == (ManagerView {
                clients: Seq::empty(),
                connections: 0,
                published: Seq::empty(),
                changed_at: Seq::empty(),
                interval,
            }),
    {
        ReplicationManager {
            clients: Vec::new(),
            connections: 0,
            published: Vec::new(),
            changed_at: Vec::new(),
            interval,
        }
    }

    /// Tells whether the manager is well formed and every record names a
    /// ship of `world` that is marked as owned by the record's client.
    pub fn is_consistent(&self, world: &World) -> (b: bool)
        ensures
            b == (self@.wf() && self@.consistent(world@)),
    {
        if self.published.len() != self.changed_at.len() || self.published.len() > MAX_ENTITIES
            || self.interval < 1 {
            return false;
        }
        let mut i: usize = 0;
        while i < self.clients.len()
            invariant
                i <= self.clients.len(),
                forall|a: int, b: int|
                    0 <= a < b < i ==> (#[trigger] self.clients@[a]).client != (
                    #[trigger] self.clients@[b]).client,
                forall|k: int|
                    0 <= k < i ==> {
                        let record = #[trigger] self.clients@[k];
                        &&& world@.is_ship(record.ship)
                        &&& world@.slots[record.ship.0 as int]->Ship_0.owner == OwnedBy(
                            record.client,
                        )
                    },
            decreases self.clients.len() - i,
        {
            let record = self.clients[i];
            match world.ship(record.ship) {
                Some(ship) => {
                    if ship.owner.0 != record.client {
                        return false;
                    }
                },
                None => {
                    return false;
                },
            }
            let mut j: usize = 0;
            while j < i
                invariant
                    j <= i < self.clients.len(),
                    record == self.clients@[i as int],
                    forall|a: int|
                        0 <= a < j ==> (#[trigger] self.clients@[a]).client != record.client,
                decreases i - j,
            {
                if self.clients[j].client == record.client {
                    return false;
                }
                j = j + 1;
            }
            i = i + 1;
        }
        true
    }

    /// Drops every record that `world` does not back: one whose ship is
    /// gone, is no ship, or is marked as another client's. What is left
    /// matches the world. Returns the number of records dropped.
    pub fn prune(&mut self, world: &World) -> (dropped: usize)
        requires
            old(self)@.wf(),
        ensures
            final(self)@.wf(),
            final(self)@.consistent(world@),
            final(self)@ == (ManagerView {
                clients: backed_records(
                    old(self)@.clients,
                    world@,
                    old(self)@.clients.len() as int,
                ),
                ..old(self)@
            }),
            dropped == old(self)@.clients.len() - final(self)@.clients.len(),
            old(self)@.consistent(world@) ==> final(self)@ == old(self)@,
    {
        let mut kept: Vec<ClientRecord> = Vec::new();
        let mut i: usize = 0;
        while i < self.clients.len()
            invariant
                i <= self.clients.len(),
                *self == *old(self),
                kept@ == backed_records(self.clients@, world@, i as int),
                kept.len() <= i,
            decreases self.clients.len() - i,
        {
            let record = self.clients[i];
            let backed = match world.ship(record.ship) {
                Some(ship) => ship.owner.0 == record.client,
                None => false,
            };
            if backed {
                kept.push(record);
            }
            i = i + 1;
        }
        proof {
            lemma_backed_records(self.clients@, world@, self.clients.len() as int);
            if self@.consistent(world@) {
                assert(self.clients@.take(self.clients.len() as int) =~= self.clients@);
            }
        }
        let dropped = self.clients.len() - kept.len();
        self.clients = kept;
        dropped
    }

    /// Finds the record of a client.
    pub fn find(&self, client: u64) -> (r: Option<usize>)
        ensures
            r.is_some() <==> self@.knows(client),
            r matches Some(i) ==> i < self@.clients.len() && i == record_index(
                self@.clients,
                client,
                self@.clients.len() as int,
            ) && self@.clients[i as int].client == client,
    {
        proof {
            lemma_record_index(self.clients@, client, self.clients.len() as int);
        }
        let mut n: usize = self.clients.len();
        while n > 0
            invariant
                n <= self.clients.len(),
                record_index(self.clients@, client, self.clients.len() as int) == record_index(
                    self.clients@,
                    client,
                    n as int,
                ),
            decreases n,
        {
            if self.clients[n - 1].client == client {
                proof {
                    lemma_record_index(self.clients@, client, n as int);
                }
                return Some(n - 1);
            }
            n = n - 1;
        }
        None
    }

    /// The ship that a client owns.
    pub fn ship_of(&self, client: u64) -> (r: Option<Entity>)
        ensures
            self@.knows(client) ==> r == Some(self@.record_of(client).ship),
            !self@.knows(client) ==> r.is_none(),
    {
        match self.find(client) {
            Some(i) => Some(self.clients[i].ship),
            None => None,
        }
    }

    /// Takes in a new client: it joins the team whose turn it is and gets a
    /// fresh ship at the origin, which is recorded as its own. A client that
    /// already owns a ship is turned away and nothing changes.
    pub fn connect(&mut self, world: &mut World, client: u64) -> (r: Result<
        Entity,
        ReplicationError,
    >)
        requires
            old(self)@.wf(),
            old(self)@.consistent(old(world)@),
            old(world)@.wf(),
            old(world)@.slots.len() < MAX_ENTITIES,
            old(self)@.connections < u64::MAX,
        ensures
            final(self)@.wf(),
            final(world)@.wf(),
            final(self)@.consistent(final(world)@),
            (ServerView { manager: final(self)@, world: final(world)@ }) == after_connect(
                ServerView { manager: old(self)@, world: old(world)@ },
                client,
            ),
            final(world)@.slots.len() <= old(world)@.slots.len() + 1,
            final(self)@.connections <= old(self)@.connections + 1,
            old(self)@.knows(client) ==> r == Err::<Entity, ReplicationError>(
                ReplicationError::AlreadyConnected,
            ),
            !old(self)@.knows(client) ==> r == Ok::<Entity, ReplicationError>(
                Entity(old(world)@.slots.len() as usize),
            ),
    {
        if self.find(client).is_some() {
            return Err(ReplicationError::AlreadyConnected);
        }
        proof {
            lemma_record_index(self.clients@, client, self.clients.len() as int);
        }
        let color = if self.connections % 2 == 0 {
            TeamColor::Red
        } else {
            TeamColor::Blue
        };
        let ship = world.spawn(Slot::Ship(Ship::new(OwnedBy(client), color, Vec2::zero())));
        self.clients.push(ClientRecord { client, ship, last_ack: None });
        self.connections = self.connections + 1;
        Ok(ship)
    }

    /// Takes in a client's input for the coming tick: the client's own
    /// ship, and no other, takes the direction. An input from an unknown
    /// client or with a direction out of range is reported and changes
    /// nothing.
    pub fn steer(&self, world: &mut World, client: u64, direction: Vec2) -> (r: Result<
        (),
        ReplicationError,
    >)
        requires
            self@.wf(),
            self@.consistent(old(world)@),
            old(world)@.wf(),
        ensures
            final(world)@.wf(),
            self@.consistent(final(world)@),
            !self@.knows(client) ==> r == Err::<(), ReplicationError>(
                ReplicationError::UnknownClient,
            ),
            self@.knows(client) && !(PlayerInput { direction }).valid() ==> r == Err::<
                (),
                ReplicationError,
            >(ReplicationError::InvalidInput),
            self@.knows(client) && (PlayerInput { direction }).valid() ==> r.is_ok(),
            r.is_err() ==> final(world)@ == old(world)@,
            r.is_ok() ==> final(world)@ == old(world)@.with_input(
                self@.record_of(client).ship,
                PlayerInput { direction },
            ),
    {
        let ship = match self.find(client) {
            Some(i) => self.clients[i].ship,
            None => {
                return Err(ReplicationError::UnknownClient);
            },
        };
        match world.set_input(ship, direction) {
            Ok(()) => Ok(()),
            Err(_) => Err(ReplicationError::InvalidInput),
        }
    }

    /// Lets a client go: its ship is despawned and its record dropped. A
    /// client without a record is reported and nothing changes.
    pub fn disconnect(&mut self, world: &mut World, client: u64) -> (r: Result<
        Entity,
        ReplicationError,
    >)
        requires
            old(self)@.wf(),
            old(self)@.consistent(old(world)@),
            old(world)@.wf(),
        ensures
            final(self)@.wf(),
            final(world)@.wf(),
            final(self)@.consistent(final(world)@),
            !final(self)@.knows(client),
            (ServerView { manager: final(self)@, world: final(world)@ }) == after_disconnect(
                ServerView { manager: old(self)@, world: old(world)@ },
                client,
            ),
            final(world)@.slots.len() == old(world)@.slots.len(),
            final(self)@.connections == old(self)@.connections,
            !old(self)@.knows(client) ==> r == Err::<Entity, ReplicationError>(
                ReplicationError::UnknownClient,
            ),
            old(self)@.knows(client) ==> r == Ok::<Entity, ReplicationError>(
                old(self)@.record_of(client).ship,
            ),
    {
        match self.find(client) {
            None => Err(ReplicationError::UnknownClient),
            Some(i) => {
                let record = self.clients.remove(i);
                world.despawn(record.ship);
                proof {
                    let before = old(self)@.clients;
                    let after = self.clients@;
                    assert forall|k: int| 0 <= k < after.len() implies (#[trigger] after[k]).client
                        != client && after[k].ship != record.ship by {
                        let from = if k < i {
                            k
                        } else {
                            k + 1
                        };
                        let a = before[from];
                        let b = before[i as int];
                        assert(old(world)@.slots[a.ship.0 as int]->Ship_0.owner == OwnedBy(
                            a.client,
                        ));
                        assert(old(world)@.slots[b.ship.0 as int]->Ship_0.owner == OwnedBy(
                            b.client,
                        ));
                    }
                    lemma_record_index(after, client, after.len() as int);
                    assert forall|a: int, b: int| 0 <= a < b < after.len() implies (
                    #[trigger] after[a]).client != (#[trigger] after[b]).client by {
                        let fa = if a < i {
                            a
                        } else {
                            a + 1
                        };
                        let fb = if b < i {
                            b
                        } else {
                            b + 1
                        };
                        assert(after[a] == before[fa]);
                        assert(after[b] == before[fb]);
                    }
                }
                Ok(record.ship)
            },
        }
    }

    /// Works off the connection events of a tick, in the order in which
    /// they came, and returns how many of them took effect.
    pub fn drain(&mut self, world: &mut World, events: &Vec<ConnectionEvent>) -> (accepted: usize)
        requires
            old(self)@.wf(),
            old(self)@.consistent(old(world)@),
            old(world)@.wf(),
            old(world)@.slots.len() + events.len() <= MAX_ENTITIES,
            old(self)@.connections + events.len() <= u64::MAX,
        ensures
            final(self)@.wf(),
            final(world)@.wf(),
            final(self)@.consistent(final(world)@),
            (ServerView { manager: final(self)@, world: final(world)@ }) == after_events(
                ServerView { manager: old(self)@, world: old(world)@ },
                events@,
                events.len() as int,
            ),
            accepted == effective_events(
                ServerView { manager: old(self)@, world: old(world)@ },
                events@,
                events.len() as int,
            ),
    {
        let mut accepted: usize = 0;
        let mut i: usize = 0;
        while i < events.len()
            invariant
                i <= events.len(),
                accepted <= i,
                accepted == effective_events(
                    ServerView { manager: old(self)@, world: old(world)@ },
                    events@,
                    i as int,
                ),
                self@.wf(),
                world@.wf(),
                self@.consistent(world@),
                world@.slots.len() <= old(world)@.slots.len() + i,
                self@.connections <= old(self)@.connections + i,
                old(world)@.slots.len() + events.len() <= MAX_ENTITIES,
                old(self)@.connections + events.len() <= u64::MAX,
                (ServerView { manager: self@, world: world@ }) == after_events(
                    ServerView { manager: old(self)@, world: old(world)@ },
                    events@,
                    i as int,
                ),
            decreases events.len() - i,
        {
            let outcome = match events[i] {
                ConnectionEvent::Connected(client) => self.connect(world, client),
                ConnectionEvent::Disconnected(client) => self.disconnect(world, client),
            };
            if outcome.is_ok() {
                accepted = accepted + 1;
            }
            i = i + 1;
        }
        accepted
    }

    /// Records that a client has received everything up to `tick`. An
    /// acknowledgement that is older than the one on record, or that comes
    /// from an unknown client, changes nothing.
    pub fn acknowledge(&mut self, client: u64, tick: u64) -> (known: bool)
        requires
            old(self)@.wf(),
        ensures
            final(self)@.wf(),
            known == old(self)@.knows(client),
            !known ==> final(self)@ == old(self)@,
            known ==> {
                let index = record_index(
                    old(self)@.clients,
                    client,
                    old(self)@.clients.len() as int,
                );
                let record = old(self)@.clients[index];
                final(self)@ == (ManagerView {
                    clients: old(self)@.clients.update(
                        index,
                        ClientRecord {
                            last_ack: if changed_since(tick, record.last_ack) {
                                Some(tick)
                            } else {
                                record.last_ack
                            },
                            ..record
                        },
                    ),
                    ..old(self)@
                })
            },
    {
        match self.find(client) {
            None => false,
            Some(i) => {
                let record = self.clients[i];
                let newer = match record.last_ack {
                    Some(t) => tick > t,
                    None => true,
                };
                if newer {
                    self.clients.set(i, ClientRecord { last_ack: Some(tick), ..record });
                } else {
                    proof {
                        assert(self.clients@ =~= old(self)@.clients.update(i as int, record));
                    }
                }
                true
            },
        }
    }

    /// Tells whether updates go out on tick `tick`: on every tick that is a
    /// multiple of the interval.
    pub fn due(&self, tick: u64) -> (b: bool)
        requires
            self@.wf(),
        ensures
            b == (tick % self@.interval == 0),
    {
        tick % self.interval == 0
    }

    /// Takes note of the world at the end of tick `tick`: every slot that is
    /// new or differs from what was published is stamped with `tick`, and
    /// the world's slots become what is published.
    pub fn observe(&mut self, world: &World, tick: u64)
        requires
            old(self)@.wf(),
            world@.wf(),
        ensures
            final(self)@.wf(),
            final(self)@.clients == old(self)@.clients,
            final(self)@.connections == old(self)@.connections,
            final(self)@.interval == old(self)@.interval,
            final(self)@.published == world@.slots,
            final(self)@.changed_at.len() == world@.slots.len(),
            forall|i: int|
                0 <= i < world@.slots.len() ==> (#[trigger] final(self)@.changed_at[i]) == stamp(
                    old(self)@,
                    world@.slots,
                    tick,
                    i,
                ),
    {
        let mut published: Vec<Slot> = Vec::new();
        let mut changed_at: Vec<u64> = Vec::new();
        let mut i: usize = 0;
        while i < world.slots.len()
            invariant
                i <= world.slots.len(),
                *self == *old(self),
                self@.wf(),
                published.len() == i,
                changed_at.len() == i,
                forall|k: int| 0 <= k < i ==> published@[k] == world.slots@[k],
                forall|k: int|
                    0 <= k < i ==> (#[trigger] changed_at@[k]) == stamp(
                        self@,
                        world@.slots,
                        tick,
                        k,
                    ),
            decreases world.slots.len() - i,
        {
            let slot = world.slots[i];
            let same = i < self.published.len() && self.published[i] == slot;
            let changed = if same {
                self.changed_at[i]
            } else {
                tick
            };
            published.push(slot);
            changed_at.push(changed);
            i = i + 1;
        }
        self.published = published;
        self.changed_at = changed_at;
    }

    /// The update for the client of `record`.
    fn diff_of(&self, record: &ClientRecord) -> (out: Vec<EntityUpdate>)
        requires
            self@.wf(),
        ensures
            out@ == update_for(self@, *record, self@.published.len() as int),
    {
        let mut out: Vec<EntityUpdate> = Vec::new();
        let mut i: usize = 0;
        while i < self.published.len()
            invariant
                i <= self.published.len(),
                self@.wf(),
                out@ == update_for(self@, *record, i as int),
            decreases self.published.len() - i,
        {
            let changed = match record.last_ack {
                Some(t) => self.changed_at[i] > t,
                None => true,
            };
            if changed {
                let role = if record.ship.0 == i {
                    ReplicationRole::Prediction
                } else {
                    ReplicationRole::Interpolation
                };
                out.push(EntityUpdate { entity: Entity(i), state: self.published[i], role });
            }
            i = i + 1;
        }
        out
    }

    /// The update for a client: every slot that changed since the client's
    /// last acknowledgement, in slot order, each with its published state
    /// and its role for this client. An unknown client gets nothing.
    pub fn diff_for(&self, client: u64) -> (r: Option<Vec<EntityUpdate>>)
        requires
            self@.wf(),
        ensures
            self@.knows(client) ==> r.is_some() && r->Some_0@ == update_for(
                self@,
                self@.record_of(client),
                self@.published.len() as int,
            ),
            !self@.knows(client) ==> r.is_none(),
    {
        match self.find(client) {
            Some(i) => Some(self.diff_of(&self.clients[i])),
            None => None,
        }
    }

    /// The round of updates of tick `tick`: on a tick on which updates are
    /// due, one update for every connected client, in the order of their
    /// connecting, each holding what changed since that client's last
    /// acknowledgement; on any other tick, nothing.
    pub fn round(&self, tick: u64) -> (out: Vec<ClientUpdate>)
        requires
            self@.wf(),
        ensures
            tick % self@.interval != 0 ==> out.len() == 0,
            tick % self@.interval == 0 ==> out.len() == self@.clients.len(),
            forall|i: int|
                0 <= i < out.len() ==> {
                    &&& (#[trigger] out@[i]).client == self@.clients[i].client
                    &&& out@[i].tick == tick
                    &&& out@[i].entries@ == update_for(
                        self@,
                        self@.clients[i],
                        self@.published.len() as int,
                    )
                },
    {
        let mut out: Vec<ClientUpdate> = Vec::new();
        if !self.due(tick) {
            return out;
        }
        let mut i: usize = 0;
        while i < self.clients.len()
            invariant
                i <= self.clients.len(),
                self@.wf(),
                out.len() == i,
                forall|k: int|
                    0 <= k < i ==> {
                        &&& (#[trigger] out@[k]).client == self@.clients[k].client
                        &&& out@[k].tick == tick
                        &&& out@[k].entries@ == update_for(
                            self@,
                            self@.clients[k],
                            self@.published.len() as int,
                        )
                    },
            decreases self.clients.len() - i,
        {
            let record = self.clients[i];
            let entries = self.diff_of(&record);
            out.push(ClientUpdate { client: record.client, tick, entries });
            i = i + 1;
        }
        out
    }

    /// The first ship, in slot order, whose owner has no record: a ship
    /// left behind by a client that is gone.
    pub fn find_orphan(&self, world: &World) -> (r: Option<Entity>)
        ensures
            r matches Some(e) ==> {
                &&& world@.is_ship(e)
                &&& !self@.knows(world@.slots[e.0 as int]->Ship_0.owner.0)
                &&& forall|i: int|
                    0 <= i < e.0 && (#[trigger] world@.slots[i]) is Ship ==> self@.knows(
                        world@.slots[i]->Ship_0.owner.0,
                    )
            },
            r.is_none() ==> forall|i: int|
                0 <= i < world@.slots.len() && (#[trigger] world@.slots[i]) is Ship
                    ==> self@.knows(world@.slots[i]->Ship_0.owner.0),
    {
        let mut i: usize = 0;
        while i < world.slots.len()
            invariant
                i <= world.slots.len(),
                forall|k: int|
                    0 <= k < i && (#[trigger] world@.slots[k]) is Ship ==> self@.knows(
                        world@.slots[k]->Ship_0.owner.0,
                    ),
            decreases world.slots.len() - i,
        {
            match world.slots[i] {
                Slot::Ship(ship) => {
                    if self.find(ship.owner.0).is_none() {
                        return Some(Entity(i));
                    }
                },
                _ => {},
            }
            i = i + 1;
        }
        None
    }
}

} // verus!
