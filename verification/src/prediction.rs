//! Client-side prediction and reconciliation.
//!
//! A client runs the simulation ahead of the server on a world of its own,
//! applying each input the moment it is made and remembering it until the
//! server has accounted for it. When an authoritative state of the client's
//! ship arrives, the predicted ship is replaced by it and the inputs that
//! the server had not yet seen are applied again on top. The tick is a
//! function of the world before it, so replaying is exact.

use vstd::prelude::*;
use crate::components::{OwnedBy, Ship, TeamColor};
use crate::protocol::PlayerInput;
use crate::replication::{EntityUpdate, ReplicationRole};
use crate::systems::{after_tick, lemma_tick_frame, tick};
use crate::vec2::Vec2;
use crate::world::{Entity, Slot, World, WorldView};

verus! {

/// Why the reconciler turned something away. Whatever is turned away leaves
/// the reconciler as it was.
#[derive(Clone, Copy, Debug, PartialEq, Eq, Structural)]
pub enum PredictionError {
    /// A component of the input direction lies outside `[-UNIT, UNIT]`.
    InvalidInput,
    /// The tick is not later than the latest one recorded or acknowledged.
    StaleTick,
    /// The snapshot is not later than the latest one applied.
    StaleSnapshot,
    /// The snapshot speaks of an entity other than the predicted ship.
    UnknownEntity,
    /// The snapshot holds a state that no simulation produces.
    InvalidSnapshot,
}

/// An input together with the local tick on which it was made.
#[derive(Clone, Copy, Debug, PartialEq, Eq, Structural)]
pub struct InputSample {
    pub tick: u64,
    pub input: PlayerInput,
}

/// The authoritative state of one ship at the end of server tick `tick`.
#[derive(Clone, Copy, Debug, PartialEq, Eq, Structural)]
pub struct Snapshot {
    pub tick: u64,
    pub entity: Entity,
    pub ship: Ship,
}

/// A client's predicted world and the inputs that the server has not yet
/// accounted for.
pub struct PredictionReconciler {
    /// The predicted world.
    pub world: World,
    /// The ship that this client controls.
    pub owned: Entity,
    /// Inputs applied locally and not yet acknowledged, oldest first.
    pub pending: Vec<InputSample>,
    /// The tick of the latest snapshot applied.
    pub last_ack: Option<u64>,
}

/// The reconciler as the contracts see it.
pub struct ReconcilerView {
    pub world: WorldView,
    pub owned: Entity,
    pub pending: Seq<InputSample>,
    pub last_ack: Option<u64>,
}

impl View for PredictionReconciler {
    type V = ReconcilerView;

    open spec fn view(&self) -> ReconcilerView {
        ReconcilerView {
            world: self.world@,
            owned: self.owned,
            pending: self.pending@,
            last_ack: self.last_ack,
        }
    }
}

/// The latest tick that a reconciler has seen, recorded or acknowledged.
pub open spec fn latest_tick(pending: Seq<InputSample>, last_ack: Option<u64>) -> Option<u64> {
    if pending.len() > 0 {
        Some(pending.last().tick)
    } else {
        last_ack
    }
}

/// `tick` comes after everything seen so far.
pub open spec fn is_later(tick: u64, seen: Option<u64>) -> bool {
    seen matches Some(t) ==> tick > t
}

impl ReconcilerView {
    pub open spec fn wf(self) -> bool {
        &&& self.world.wf()
        &&& self.world.is_ship(self.owned)
        &&& forall|i: int| 0 <= i < self.pending.len() ==> (#[trigger] self.pending[i]).input.valid()
        &&& forall|i: int, j: int|
            0 <= i < j < self.pending.len() ==> (#[trigger] self.pending[i]).tick < (
            #[trigger] self.pending[j]).tick
        &&& forall|i: int|
            0 <= i < self.pending.len() ==> is_later(
                (#[trigger] self.pending[i]).tick,
                self.last_ack,
            )
    }
}

/// The world one predicted tick later: the owned ship takes the input and
/// the tick runs.
pub open spec fn predicted(w: WorldView, owned: Entity, input: PlayerInput) -> WorldView {
    after_tick(w.with_input(owned, input))
}

/// The world after the inputs were applied in order, one tick each.
pub open spec fn replayed(w: WorldView, owned: Entity, inputs: Seq<InputSample>) -> WorldView
    decreases inputs.len(),
{
    if inputs.len() == 0 {
        w
    } else {
        predicted(replayed(w, owned, inputs.drop_last()), owned, inputs.last().input)
    }
}

/// The samples made after `tick`, in their order.
pub open spec fn newer_than(samples: Seq<InputSample>, tick: u64) -> Seq<InputSample>
    decreases samples.len(),
{
    if samples.len() == 0 {
        samples
    } else if samples.last().tick > tick {
        newer_than(samples.drop_last(), tick).push(samples.last())
    } else {
        newer_than(samples.drop_last(), tick)
    }
}

/// The snapshot can be applied: it is about the predicted ship, later than
/// the last one applied, and holds a well-formed ship.
pub open spec fn applicable(r: ReconcilerView, snapshot: Snapshot) -> bool {
    &&& snapshot.entity == r.owned
    &&& is_later(snapshot.tick, r.last_ack)
    &&& snapshot.ship.wf()
}

/// The reconciler after a snapshot: the predicted ship is the
/// authoritative one with every input made after the snapshot's tick applied
/// again, and those inputs are what is still pending. A snapshot that cannot
/// be applied changes nothing.
pub open spec fn reconciled(r: ReconcilerView, snapshot: Snapshot) -> ReconcilerView {
    if applicable(r, snapshot) {
        let rest = newer_than(r.pending, snapshot.tick);
        let base = r.world.with_slots(
            r.world.slots.update(r.owned.0 as int, Slot::Ship(snapshot.ship)),
        );
        ReconcilerView {
            world: replayed(base, r.owned, rest),
            owned: r.owned,
            pending: rest,
            last_ack: Some(snapshot.tick),
        }
    } else {
        r
    }
}

/// The reconciler after the first `n` entries of an update made on tick
/// `tick`: an entry that is marked for prediction and holds a ship is taken
/// as a snapshot of that ship; every other entry is for display and leaves
/// the prediction alone.
pub open spec fn received(
    r: ReconcilerView,
    tick: u64,
    entries: Seq<EntityUpdate>,
    n: int,
) -> ReconcilerView
    decreases n,
{
    if n <= 0 {
        r
    } else {
        let before = received(r, tick, entries, n - 1);
        let entry = entries[n - 1];
        if entry.role == ReplicationRole::Prediction && entry.state is Ship {
            reconciled(
                before,
                Snapshot { tick, entity: entry.entity, ship: entry.state->Ship_0 },
            )
        } else {
            before
        }
    }
}

/// `newer_than` keeps exactly the samples made after `tick`, in order: what
/// it keeps of a sequence with rising ticks is a tail of that sequence.
pub proof fn lemma_newer_than(samples: Seq<InputSample>, tick: u64)
    requires
        forall|i: int, j: int|
            0 <= i < j < samples.len() ==> (#[trigger] samples[i]).tick < (
            #[trigger] samples[j]).tick,
    ensures
        newer_than(samples, tick).len() <= samples.len(),
        newer_than(samples, tick) == samples.skip(
            samples.len() - newer_than(samples, tick).len(),
        ),
        forall|i: int|
            0 <= i < samples.len() - newer_than(samples, tick).len() ==> (
            #[trigger] samples[i]).tick <= tick,
        forall|i: int|
            samples.len() - newer_than(samples, tick).len() <= i < samples.len() ==> (
            #[trigger] samples[i]).tick > tick,
    decreases samples.len(),
{
    if samples.len() > 0 {
        let front = samples.drop_last();
        lemma_newer_than(front, tick);
        assert forall|i: int| 0 <= i < front.len() implies front[i] == samples[i] by {}
    }
}

/// Replaying keeps the world well formed and the owned ship a ship.
pub proof fn lemma_replayed_wf(w: WorldView, owned: Entity, inputs: Seq<InputSample>)
    requires
        w.wf(),
        w.is_ship(owned),
        forall|i: int| 0 <= i < inputs.len() ==> (#[trigger] inputs[i]).input.valid(),
    ensures
        replayed(w, owned, inputs).is_ship(owned),
        replayed(w, owned, inputs).slots.len() == w.slots.len(),
        replayed(w, owned, inputs).bounds == w.bounds,
    decreases inputs.len(),
{
    if inputs.len() > 0 {
        let front = inputs.drop_last();
        lemma_replayed_wf(w, owned, front);
        let mid = replayed(w, owned, front).with_input(owned, inputs.last().input);
        lemma_tick_frame(mid, owned.0 as int);
    }
}

/// Replaying a sequence of inputs is replaying its first part and then the
/// rest.
pub proof fn lemma_replayed_split(
    w: WorldView,
    owned: Entity,
    first: Seq<InputSample>,
    rest: Seq<InputSample>,
)
    ensures
        replayed(w, owned, first + rest) == replayed(replayed(w, owned, first), owned, rest),
    decreases rest.len(),
{
    if rest.len() == 0 {
        assert(first + rest =~= first);
    } else {
        lemma_replayed_split(w, owned, first, rest.drop_last());
        assert((first + rest).drop_last() =~= first + rest.drop_last());
    }
}

/// Applying the same snapshot a second time changes nothing: the replay
/// from a snapshot depends on the snapshot and the buffered inputs alone,
/// and a snapshot that was applied is stale from then on.
pub proof fn lemma_reconcile_idempotent(r: ReconcilerView, snapshot: Snapshot)
    ensures
        reconciled(reconciled(r, snapshot), snapshot) == reconciled(r, snapshot),
{
}

/// Two reconcilers that hold the same buffered inputs and agree on the
/// world apart from the predicted ship reach the same state from the same
/// snapshot, whatever they had predicted before.
pub proof fn lemma_reconcile_forgets_prediction(
    a: ReconcilerView,
    b: ReconcilerView,
    snapshot: Snapshot,
)
    requires
        a.owned == b.owned,
        a.pending == b.pending,
        a.last_ack == b.last_ack,
        a.world.is_ship(a.owned),
        b.world.is_ship(b.owned),
        a.world.wave == b.world.wave,
        a.world.bounds == b.world.bounds,
        a.world.slots.len() == b.world.slots.len(),
        forall|i: int|
            0 <= i < a.world.slots.len() && i != a.owned.0 ==> a.world.slots[i]
                == b.world.slots[i],
        applicable(a, snapshot),
    ensures
        reconciled(a, snapshot) == reconciled(b, snapshot),
{
    let slot = Slot::Ship(snapshot.ship);
    assert(a.world.slots.update(a.owned.0 as int, slot) =~= b.world.slots.update(
        b.owned.0 as int,
        slot,
    ));
}

impl PredictionReconciler {
    /// Starts predicting `owned` in `world`, or hands the world back if
    /// `owned` is no ship in it.
    pub fn new(world: World, owned: Entity) -> (r: Result<PredictionReconciler, World>)
        requires
            world@.wf(),
        ensures
            world@.is_ship(owned) ==> r.is_ok() && r->Ok_0@ == (ReconcilerView {
                world: world@,
                owned,
                pending: Seq::<InputSample>::empty(),
                last_ack: None,
            }) && r->Ok_0@.wf(),
            !world@.is_ship(owned) ==> r == Err::<PredictionReconciler, World>(world),
    {
        match world.ship(owned) {
            Some(_) => Ok(
                PredictionReconciler { world, owned, pending: Vec::new(), last_ack: None },
            ),
            None => Err(world),
        }
    }

    /// The latest tick recorded or acknowledged.
    pub fn latest(&self) -> (t: Option<u64>)
        ensures
            t == latest_tick(self@.pending, self@.last_ack),
    {
        let n = self.pending.len();
        if n > 0 {
            Some(self.pending[n - 1].tick)
        } else {
            self.last_ack
        }
    }

    /// The predicted state of the owned ship.
    pub fn predicted_ship(&self) -> (ship: Ship)
        requires
            self@.wf(),
        ensures
            ship == self@.world.slots[self@.owned.0 as int]->Ship_0,
    {
        match self.world.slots[self.owned.0] {
            Slot::Ship(ship) => ship,
            _ => Ship::new(OwnedBy(0), TeamColor::Red, Vec2::zero()),
        }
    }

    /// Applies the input of local tick `tick` at once: the input is
    /// remembered, the owned ship takes it, and the predicted world advances
    /// by one tick. An input out of range and a tick that is not later than
    /// every tick seen so far are turned away.
    pub fn local_tick(&mut self, tick_number: u64, direction: Vec2) -> (r: Result<
        (),
        PredictionError,
    >)
        requires
            old(self)@.wf(),
        ensures
            final(self)@.wf(),
            !(PlayerInput { direction }).valid() ==> r == Err::<(), PredictionError>(
                PredictionError::InvalidInput,
            ),
            (PlayerInput { direction }).valid() && !is_later(
                tick_number,
                latest_tick(old(self)@.pending, old(self)@.last_ack),
            ) ==> r == Err::<(), PredictionError>(PredictionError::StaleTick),
            (PlayerInput { direction }).valid() && is_later(
                tick_number,
                latest_tick(old(self)@.pending, old(self)@.last_ack),
            ) ==> r.is_ok(),
            r.is_err() ==> final(self)@ == old(self)@,
            r.is_ok() ==> final(self)@ == (ReconcilerView {
                world: predicted(old(self)@.world, old(self)@.owned, PlayerInput { direction }),
                pending: old(self)@.pending.push(
                    InputSample { tick: tick_number, input: PlayerInput { direction } },
                ),
                ..old(self)@
            }),
    {
        let input = match PlayerInput::new(direction) {
            Ok(input) => input,
            Err(_) => {
                return Err(PredictionError::InvalidInput);
            },
        };
        match self.latest() {
            Some(seen) => {
                if tick_number <= seen {
                    return Err(PredictionError::StaleTick);
                }
            },
            None => {},
        }
        self.pending.push(InputSample { tick: tick_number, input });
        let _ = self.world.set_input(self.owned, direction);
        proof {
            lemma_tick_frame(self.world@, self.owned.0 as int);
        }
        tick(&mut self.world);
        Ok(())
    }

    /// Takes in an update made on tick `tick`. Each entry that is marked
    /// for prediction and holds a ship is reconciled as a snapshot of that
    /// ship; an entry that cannot be applied is dropped. Tells whether a
    /// snapshot was applied; of one update at most one can be, since it
    /// makes every other entry of the same tick stale.
    pub fn receive(&mut self, tick_number: u64, entries: &Vec<EntityUpdate>) -> (applied: bool)
        requires
            old(self)@.wf(),
        ensures
            final(self)@.wf(),
            final(self)@ == received(old(self)@, tick_number, entries@, entries.len() as int),
            applied == (final(self)@.last_ack != old(self)@.last_ack),
            applied ==> final(self)@.last_ack == Some(tick_number),
    {
        let mut applied = false;
        let mut i: usize = 0;
        while i < entries.len()
            invariant
                i <= entries.len(),
                self@.wf(),
                self@ == received(old(self)@, tick_number, entries@, i as int),
                applied == (self@.last_ack != old(self)@.last_ack),
                applied ==> self@.last_ack == Some(tick_number),
            decreases entries.len() - i,
        {
            let entry = entries[i];
            match (entry.role, entry.state) {
                (ReplicationRole::Prediction, Slot::Ship(ship)) => {
                    let snapshot = Snapshot { tick: tick_number, entity: entry.entity, ship };
                    if self.reconcile(&snapshot).is_ok() {
                        applied = true;
                    }
                },
                _ => {},
            }
            i = i + 1;
        }
        applied
    }

    /// Takes in the authoritative state of the owned ship: the inputs up to
    /// the snapshot's tick are dropped as acknowledged, the snapshot replaces
    /// the predicted ship, and the inputs made since are applied again, one
    /// tick each. A snapshot that cannot be applied is reported and changes
    /// nothing.
    pub fn reconcile(&mut self, snapshot: &Snapshot) -> (r: Result<(), PredictionError>)
        requires
            old(self)@.wf(),
        ensures
            final(self)@.wf(),
            final(self)@ == reconciled(old(self)@, *snapshot),
            r.is_ok() <==> applicable(old(self)@, *snapshot),
            snapshot.entity != old(self)@.owned ==> r == Err::<(), PredictionError>(
                PredictionError::UnknownEntity,
            ),
            snapshot.entity == old(self)@.owned && !is_later(snapshot.tick, old(self)@.last_ack)
                ==> r == Err::<(), PredictionError>(PredictionError::StaleSnapshot),
            snapshot.entity == old(self)@.owned && is_later(snapshot.tick, old(self)@.last_ack)
                && !snapshot.ship.wf() ==> r == Err::<(), PredictionError>(
                PredictionError::InvalidSnapshot,
            ),
    {
        if snapshot.entity.0 != self.owned.0 {
            return Err(PredictionError::UnknownEntity);
        }
        match self.last_ack {
            Some(acked) => {
                if snapshot.tick <= acked {
                    return Err(PredictionError::StaleSnapshot);
                }
            },
            None => {},
        }
        if !snapshot.ship.is_wf() {
            return Err(PredictionError::InvalidSnapshot);
        }
        // Drop what the server has accounted for.
        let mut rest: Vec<InputSample> = Vec::new();
        let mut i: usize = 0;
        while i < self.pending.len()
            invariant
                i <= self.pending.len(),
                *self == *old(self),
                rest@ == newer_than(self.pending@.take(i as int), snapshot.tick),
            decreases self.pending.len() - i,
        {
            proof {
                assert(self.pending@.take(i + 1).drop_last() =~= self.pending@.take(i as int));
            }
            let sample = self.pending[i];
            if sample.tick > snapshot.tick {
                rest.push(sample);
            }
            i = i + 1;
        }
        proof {
            assert(self.pending@.take(i as int) =~= self.pending@);
            lemma_newer_than(self.pending@, snapshot.tick);
        }
        // Start over from the authoritative state.
        self.world.slots.set(self.owned.0, Slot::Ship(snapshot.ship));
        let ghost base = self.world@;
        let mut j: usize = 0;
        while j < rest.len()
            invariant
                j <= rest.len(),
                self.owned == old(self).owned,
                self.last_ack == old(self).last_ack,
                base.wf(),
                base.is_ship(self.owned),
                self.world@.wf(),
                self.world@ == replayed(base, self.owned, rest@.take(j as int)),
                forall|k: int| 0 <= k < rest.len() ==> (#[trigger] rest@[k]).input.valid(),
            decreases rest.len() - j,
        {
            proof {
                assert(rest@.take(j + 1).drop_last() =~= rest@.take(j as int));
                lemma_replayed_wf(base, self.owned, rest@.take(j as int));
            }
            let sample = rest[j];
            let _ = self.world.set_input(self.owned, sample.input.direction);
            tick(&mut self.world);
            j = j + 1;
        }
        proof {
            assert(rest@.take(j as int) =~= rest@);
            lemma_replayed_wf(base, self.owned, rest@);
        }
        self.pending = rest;
        self.last_ack = Some(snapshot.tick);
        Ok(())
    }
}

} // verus!
