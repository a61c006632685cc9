//! Entity storage: an arena of slots with stable indices.
//!
//! An entity is the index of its slot. Slots are never reused, so a handle
//! names one entity for the lifetime of the world, and every system visits
//! entities in the order of their creation.

use vstd::prelude::*;
use crate::components::{ArenaBounds, Enemy, Ship, WaveState};
use crate::protocol::{InputError, PlayerInput};
use crate::vec2::Vec2;

verus! {

/// Most slots that a world can hold.
pub const MAX_ENTITIES: usize = 0xFFFF_FFFF;

/// A handle to an entity: the index of its slot.
#[derive(Clone, Copy, Debug, PartialEq, Eq, Hash, Structural)]
pub struct Entity(pub usize);

/// What a slot of the arena holds.
#[derive(Clone, Copy, Debug, PartialEq, Eq, Structural)]
pub enum Slot {
    /// The entity that lived here was despawned.
    Vacant,
    Ship(Ship),
    Enemy(Enemy),
}

impl Slot {
    pub open spec fn wf(self) -> bool {
        match self {
            Slot::Vacant => true,
            Slot::Ship(ship) => ship.wf(),
            Slot::Enemy(enemy) => enemy.wf(),
        }
    }

    pub fn is_wf(&self) -> (b: bool)
        ensures
            b == self.wf(),
    {
        match self {
            Slot::Vacant => true,
            Slot::Ship(ship) => ship.is_wf(),
            Slot::Enemy(enemy) => enemy.is_wf(),
        }
    }
}

/// The world as the contracts see it.
pub struct WorldView {
    pub slots: Seq<Slot>,
    pub wave: WaveState,
    pub bounds: ArenaBounds,
}

impl WorldView {
    pub open spec fn wf(self) -> bool {
        &&& self.bounds.wf()
        &&& self.slots.len() <= MAX_ENTITIES
        &&& forall|i: int| 0 <= i < self.slots.len() ==> (#[trigger] self.slots[i]).wf()
    }

    /// The same world with other slots.
    pub open spec fn with_slots(self, slots: Seq<Slot>) -> WorldView {
        WorldView { slots, wave: self.wave, bounds: self.bounds }
    }

    /// The entity's slot holds something.
    pub open spec fn contains(self, entity: Entity) -> bool {
        entity.0 < self.slots.len() && self.slots[entity.0 as int] != Slot::Vacant
    }

    pub open spec fn is_ship(self, entity: Entity) -> bool {
        entity.0 < self.slots.len() && self.slots[entity.0 as int] is Ship
    }

    pub open spec fn is_enemy(self, entity: Entity) -> bool {
        entity.0 < self.slots.len() && self.slots[entity.0 as int] is Enemy
    }

    /// The world after `entity` was handed `input`: a ship takes a valid
    /// input; anything else leaves the world as it is.
    pub open spec fn with_input(self, entity: Entity, input: PlayerInput) -> WorldView {
        if self.is_ship(entity) && input.valid() {
            let ship = self.slots[entity.0 as int]->Ship_0;
            self.with_slots(
                self.slots.update(entity.0 as int, Slot::Ship(Ship { input, ..ship })),
            )
        } else {
            self
        }
    }
}

/// The number of enemies among `slots`.
pub open spec fn count_enemies(slots: Seq<Slot>) -> nat
    decreases slots.len(),
{
    if slots.len() == 0 {
        0
    } else {
        count_enemies(slots.drop_last()) + if slots.last() is Enemy {
            1nat
        } else {
            0nat
        }
    }
}

/// There are no more enemies than slots, and none exactly when no slot holds
/// one.
pub proof fn lemma_count_enemies(slots: Seq<Slot>)
    ensures
        count_enemies(slots) <= slots.len(),
        count_enemies(slots) == 0 <==> forall|i: int|
            0 <= i < slots.len() ==> !(#[trigger] slots[i] is Enemy),
    decreases slots.len(),
{
    if slots.len() > 0 {
        let front = slots.drop_last();
        lemma_count_enemies(front);
        if count_enemies(slots) == 0 {
            assert forall|i: int| 0 <= i < slots.len() implies !(#[trigger] slots[i] is Enemy) by {
                if i < front.len() {
                    assert(front[i] == slots[i]);
                }
            }
        } else if !(slots.last() is Enemy) {
            let i = choose|i: int| 0 <= i < front.len() && #[trigger] front[i] is Enemy;
            assert(slots[i] is Enemy);
        }
    }
}

/// The entities and the two game resources.
pub struct World {
    pub slots: Vec<Slot>,
    pub wave: WaveState,
    pub bounds: ArenaBounds,
}

impl View for World {
    type V = WorldView;

    open spec fn view(&self) -> WorldView {
        WorldView { slots: self.slots@, wave: self.wave, bounds: self.bounds }
    }
}

impl World {
    /// An empty world, before the first wave.
    pub fn new(bounds: ArenaBounds) -> (world: World)
        requires
            bounds.wf(),
        ensures
            world@.wf(),
            world@.slots == Seq::<Slot>::empty(),
            world@.wave == WaveState::initial(),
            world@.bounds == bounds,
    {
        World { slots: Vec::new(), wave: WaveState::default(), bounds }
    }

    /// Tells whether the world is well formed, as every world that this
    /// library has built or changed is.
    pub fn is_wf(&self) -> (b: bool)
        ensures
            b == self@.wf(),
    {
        if !self.bounds.is_wf() || self.slots.len() > MAX_ENTITIES {
            return false;
        }
        let mut i: usize = 0;
        while i < self.slots.len()
            invariant
                i <= self.slots.len(),
                forall|k: int| 0 <= k < i ==> (#[trigger] self.slots@[k]).wf(),
            decreases self.slots.len() - i,
        {
            if !self.slots[i].is_wf() {
                return false;
            }
            i = i + 1;
        }
        true
    }

    /// Puts `slot` into a new slot at the end and returns its handle.
    pub fn spawn(&mut self, slot: Slot) -> (entity: Entity)
        requires
            old(self)@.wf(),
            slot.wf(),
            old(self)@.slots.len() < MAX_ENTITIES,
        ensures
            final(self)@.wf(),
            final(self)@ == old(self)@.with_slots(old(self)@.slots.push(slot)),
            entity.0 == old(self)@.slots.len(),
    {
        let index = self.slots.len();
        self.slots.push(slot);
        Entity(index)
    }

    /// Removes an entity. A handle to nothing is ignored.
    pub fn despawn(&mut self, entity: Entity)
        requires
            old(self)@.wf(),
        ensures
            final(self)@.wf(),
            old(self)@.contains(entity) ==> final(self)@ == old(self)@.with_slots(
                old(self)@.slots.update(entity.0 as int, Slot::Vacant),
            ),
            !old(self)@.contains(entity) ==> final(self)@ == old(self)@,
    {
        if entity.0 < self.slots.len() {
            self.slots.set(entity.0, Slot::Vacant);
            proof {
                if !old(self)@.contains(entity) {
                    assert(self.slots@ =~= old(self).slots@);
                }
            }
        }
    }

    /// Tells whether the handle names an entity that exists.
    pub fn contains(&self, entity: Entity) -> (b: bool)
        ensures
            b == self@.contains(entity),
    {
        if entity.0 < self.slots.len() {
            match self.slots[entity.0] {
                Slot::Vacant => false,
                _ => true,
            }
        } else {
            false
        }
    }

    /// The ship behind a handle, if it is one.
    pub fn ship(&self, entity: Entity) -> (r: Option<Ship>)
        ensures
            self@.is_ship(entity) ==> r == Some(self@.slots[entity.0 as int]->Ship_0),
            !self@.is_ship(entity) ==> r.is_none(),
    {
        if entity.0 < self.slots.len() {
            match self.slots[entity.0] {
                Slot::Ship(ship) => Some(ship),
                _ => None,
            }
        } else {
            None
        }
    }

    /// The enemy behind a handle, if it is one.
    pub fn enemy(&self, entity: Entity) -> (r: Option<Enemy>)
        ensures
            self@.is_enemy(entity) ==> r == Some(self@.slots[entity.0 as int]->Enemy_0),
            !self@.is_enemy(entity) ==> r.is_none(),
    {
        if entity.0 < self.slots.len() {
            match self.slots[entity.0] {
                Slot::Enemy(enemy) => Some(enemy),
                _ => None,
            }
        } else {
            None
        }
    }

    /// Hands a ship the input for the coming tick. A direction out of range
    /// is reported and leaves the world untouched; so does a handle that is
    /// no ship, silently.
    pub fn set_input(&mut self, entity: Entity, direction: Vec2) -> (r: Result<
        (),
        InputError,
    >)
        requires
            old(self)@.wf(),
        ensures
            final(self)@.wf(),
            final(self)@ == old(self)@.with_input(entity, PlayerInput { direction }),
            r.is_ok() <==> (PlayerInput { direction }).valid(),
            r.is_err() ==> r == Err::<(), InputError>(InputError::InvalidInput),
    {
        match PlayerInput::new(direction) {
            Err(e) => Err(e),
            Ok(input) => {
                if entity.0 < self.slots.len() {
                    match self.slots[entity.0] {
                        Slot::Ship(ship) => {
                            self.slots.set(entity.0, Slot::Ship(Ship { input, ..ship }));
                        },
                        _ => {},
                    }
                }
                Ok(())
            },
        }
    }

    /// Counts the enemies.
    pub fn enemy_count(&self) -> (n: usize)
        ensures
            n == count_enemies(self@.slots),
    {
        let mut n: usize = 0;
        let mut i: usize = 0;
        while i < self.slots.len()
            invariant
                i <= self.slots.len(),
                n == count_enemies(self.slots@.take(i as int)),
                n <= i,
            decreases self.slots.len() - i,
        {
            proof {
                assert(self.slots@.take(i + 1).drop_last() =~= self.slots@.take(i as int));
            }
            match self.slots[i] {
                Slot::Enemy(_) => {
                    n = n + 1;
                },
                _ => {},
            }
            i = i + 1;
        }
        proof {
            assert(self.slots@.take(i as int) =~= self.slots@);
        }
        n
    }
}

} // verus!
