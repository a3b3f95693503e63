//! The object arena: the objects that the guest holds references to, each
//! under a numeric identifier.
//!
//! Identifiers start at `DYNAMIC_OBJECT_ID_BASE` and grow by one with each
//! new slot. A removed object's identifier goes onto a free list, and the
//! next insertion takes the most recently freed identifier before it opens a
//! new slot.

use vstd::prelude::*;
use crate::value::{GoValue, InterpValue, DYNAMIC_OBJECT_ID_BASE};

verus! {

/// A callback that waits for the guest to pick it up: the function to call,
/// its receiver, and its arguments.
#[derive(Clone, Debug)]
pub struct PendingEvent {
    pub id: InterpValue,
    pub this: InterpValue,
    pub args: Vec<GoValue>,
}

/// What a pending event holds.
pub struct EventModel {
    pub id: InterpValue,
    pub this: InterpValue,
    pub args: Seq<GoValue>,
}

impl View for PendingEvent {
    type V = EventModel;

    open spec fn view(&self) -> EventModel {
        EventModel { id: self.id, this: self.this, args: self.args@ }
    }
}

/// An object of the arena.
#[derive(Clone, Debug)]
pub enum DynamicObject {
    Uint8Array(Vec<u8>),
    Date,
    FunctionWrapper(InterpValue, InterpValue),
    ValueArray(Vec<GoValue>),
    PendingEvent(PendingEvent),
}

/// What an object of the arena holds.
pub enum ObjectModel {
    Uint8Array(Seq<u8>),
    Date,
    FunctionWrapper(InterpValue, InterpValue),
    ValueArray(Seq<GoValue>),
    PendingEvent(EventModel),
}

impl ObjectModel {
    /// Whether every array in the object has a length that an index of this
    /// machine reaches, as every array in memory has.
    pub open spec fn fits(self) -> bool {
        match self {
            ObjectModel::Uint8Array(bytes) => bytes.len() <= usize::MAX,
            ObjectModel::ValueArray(values) => values.len() <= usize::MAX,
            ObjectModel::PendingEvent(event) => event.args.len() <= usize::MAX,
            _ => true,
        }
    }
}

impl View for DynamicObject {
    type V = ObjectModel;

    open spec fn view(&self) -> ObjectModel {
        match self {
            DynamicObject::Uint8Array(bytes) => ObjectModel::Uint8Array(bytes@),
            DynamicObject::Date => ObjectModel::Date,
            DynamicObject::FunctionWrapper(target, this) => ObjectModel::FunctionWrapper(
                *target,
                *this,
            ),
            DynamicObject::ValueArray(values) => ObjectModel::ValueArray(values@),
            DynamicObject::PendingEvent(event) => ObjectModel::PendingEvent(event@),
        }
    }
}

/// What an object in memory holds fits the machine.
pub proof fn lemma_object_fits(object: DynamicObject)
    ensures
        object@.fits(),
{
    match object {
        DynamicObject::Uint8Array(bytes) => {
            assert(bytes@.len() == bytes.len());
        },
        DynamicObject::ValueArray(values) => {
            assert(values@.len() == values.len());
        },
        DynamicObject::PendingEvent(event) => {
            assert(event.args@.len() == event.args.len());
        },
        _ => {},
    }
}

/// What any object in memory holds fits the machine.
pub proof fn lemma_objects_fit()
    ensures
        forall|object: DynamicObject| #[trigger] object@.fits(),
{
    assert forall|object: DynamicObject| #[trigger] object@.fits() by {
        lemma_object_fits(object);
    }
}

/// A fresh vector with the values of `values`.
pub fn copy_values(values: &Vec<GoValue>) -> (copy: Vec<GoValue>)
    ensures
        copy@ == values@,
{
    let mut copy: Vec<GoValue> = Vec::new();
    let mut i: usize = 0;
    while i < values.len()
        invariant
            0 <= i <= values@.len(),
            copy@ == values@.take(i as int),
        decreases values@.len() - i,
    {
        copy.push(values[i]);
        i += 1;
        assert(copy@ =~= values@.take(i as int));
    }
    assert(values@.take(i as int) =~= values@);
    copy
}

impl PendingEvent {
    /// A fresh event with the same content.
    pub fn duplicate(&self) -> (copy: PendingEvent)
        ensures
            copy@ == self@,
    {
        PendingEvent { id: self.id, this: self.this, args: copy_values(&self.args) }
    }
}

/// The arena as a table: the live objects by identifier, the free list with
/// the most recently freed identifier last, and the number of slots opened so
/// far.
pub struct PoolModel {
    pub objects: Map<u32, ObjectModel>,
    pub free: Seq<u32>,
    pub issued: nat,
}

impl PoolModel {
    /// Whether `id` names a slot that was opened.
    pub open spec fn in_range(self, id: u32) -> bool {
        DYNAMIC_OBJECT_ID_BASE <= id < DYNAMIC_OBJECT_ID_BASE + self.issued
    }

    /// The arena's invariant: every identifier handed out fits 32 bits,
    /// each opened slot is either live or once on the free list, and every
    /// live object fits the machine.
    pub open spec fn wf(self) -> bool {
        &&& DYNAMIC_OBJECT_ID_BASE + self.issued <= u32::MAX + 1
        &&& forall|id: u32|
            #[trigger] self.objects.contains_key(id) ==> self.in_range(id)
                && self.objects[id].fits()
        &&& forall|i: int|
            0 <= i < self.free.len() ==> self.in_range(#[trigger] self.free[i])
                && !self.objects.contains_key(self.free[i])
        &&& self.free.no_duplicates()
        &&& forall|id: u32|
            self.in_range(id) && !self.objects.contains_key(id) ==> #[trigger] self.free.contains(
                id,
            )
    }

    /// The empty arena.
    pub open spec fn empty() -> PoolModel {
        PoolModel { objects: Map::empty(), free: Seq::empty(), issued: 0 }
    }

    /// Whether an identifier is left for one more object.
    pub open spec fn has_room(self) -> bool {
        self.free.len() > 0 || DYNAMIC_OBJECT_ID_BASE + self.issued <= u32::MAX
    }

    /// The identifier that the next insertion returns.
    pub open spec fn next_id(self) -> u32 {
        if self.free.len() > 0 {
            self.free.last()
        } else {
            (DYNAMIC_OBJECT_ID_BASE + self.issued) as u32
        }
    }

    /// The arena after `object` was inserted.
    pub open spec fn insert(self, object: ObjectModel) -> PoolModel {
        PoolModel {
            objects: self.objects.insert(self.next_id(), object),
            free: if self.free.len() > 0 {
                self.free.drop_last()
            } else {
                self.free
            },
            issued: if self.free.len() > 0 {
                self.issued
            } else {
                self.issued + 1
            },
        }
    }

    /// The object under `id`, if it is live.
    pub open spec fn get(self, id: u32) -> Option<ObjectModel> {
        if self.objects.contains_key(id) {
            Some(self.objects[id])
        } else {
            None
        }
    }

    /// The arena after the object under `id` was replaced by `object`; the
    /// same arena where `id` is not live.
    pub open spec fn replace(self, id: u32, object: ObjectModel) -> PoolModel {
        if self.objects.contains_key(id) {
            PoolModel { objects: self.objects.insert(id, object), ..self }
        } else {
            self
        }
    }

    /// Whether this arena is `before` with the live object under `id`
    /// replaced by `object`, stated entry by entry.
    pub open spec fn changed_at(self, before: PoolModel, id: u32, object: ObjectModel) -> bool {
        &&& self.free == before.free
        &&& self.issued == before.issued
        &&& before.objects.contains_key(id)
        &&& forall|k: u32| #[trigger]
            self.objects.contains_key(k) == before.objects.contains_key(k)
        &&& forall|k: u32|
            k != id && before.objects.contains_key(k) ==> #[trigger] self.objects[k]
                == before.objects[k]
        &&& self.objects[id] == object
    }

    /// The arena after `id` was removed; the same arena where `id` is not
    /// live.
    pub open spec fn remove(self, id: u32) -> PoolModel {
        if self.objects.contains_key(id) {
            PoolModel { objects: self.objects.remove(id), free: self.free.push(id), ..self }
        } else {
            self
        }
    }
}

/// The arena of objects that the guest refers to.
pub struct DynamicObjectPool {
    slots: Vec<Option<DynamicObject>>,
    free_ids: Vec<u32>,
}

impl View for DynamicObjectPool {
    type V = PoolModel;

    closed spec fn view(&self) -> PoolModel {
        PoolModel {
            objects: Map::new(
                |id: u32| self.holds(id),
                |id: u32| self.slots@[id - DYNAMIC_OBJECT_ID_BASE].unwrap()@,
            ),
            free: self.free_ids@,
            issued: self.slots@.len(),
        }
    }
}

impl DynamicObjectPool {
    /// Whether the slot of `id` exists and is filled.
    closed spec fn holds(&self, id: u32) -> bool {
        &&& DYNAMIC_OBJECT_ID_BASE <= id
        &&& id - DYNAMIC_OBJECT_ID_BASE < self.slots@.len()
        &&& self.slots@[id - DYNAMIC_OBJECT_ID_BASE] is Some
    }

    /// The arena's invariant.
    pub open spec fn wf(&self) -> bool {
        self@.wf()
    }

    /// An empty arena.
    pub fn new() -> (pool: Self)
        ensures
            pool.wf(),
            pool@ == PoolModel::empty(),
    {
        let pool = DynamicObjectPool { slots: Vec::new(), free_ids: Vec::new() };
        assert(pool@.objects =~= Map::empty());
        pool
    }

    /// Whether an identifier is left for one more object.
    pub fn has_room(&self) -> (room: bool)
        requires
            self.wf(),
        ensures
            room == self@.has_room(),
    {
        self.free_ids.len() > 0 || self.slots.len() <= (u32::MAX - DYNAMIC_OBJECT_ID_BASE) as usize
    }

    /// Stores `object` and returns its identifier: the most recently freed
    /// one, or else the next one that was never handed out.
    pub fn insert(&mut self, object: DynamicObject) -> (id: u32)
        requires
            old(self).wf(),
            old(self)@.has_room(),
        ensures
            final(self).wf(),
            id == old(self)@.next_id(),
            final(self)@ == old(self)@.insert(object@),
    {
        let ghost before = self@;
        let ghost stored = object@;
        proof {
            lemma_object_fits(object);
        }
        let id: u32 = match self.free_ids.pop() {
            Some(id) => {
                assert(id == before.free[before.free.len() - 1]);
                assert(before.in_range(id));
                let slot: usize = (id - DYNAMIC_OBJECT_ID_BASE) as usize;
                self.slots[slot] = Some(object);
                id
            },
            None => {
                let id: u32 = DYNAMIC_OBJECT_ID_BASE + (self.slots.len() as u32);
                self.slots.push(Some(object));
                id
            },
        };
        proof {
            let target = before.insert(stored);
            assert(self@.objects =~= target.objects);
            assert(self@.free =~= target.free);
            lemma_insert_then_get(before, stored, id);
        }
        id
    }

    /// The object under `id`.
    pub fn get(&self, id: u32) -> (found: Option<&DynamicObject>)
        requires
            self.wf(),
        ensures
            match found {
                Some(object) => self@.get(id) == Some(object@),
                None => self@.get(id) is None,
            },
    {
        if id < DYNAMIC_OBJECT_ID_BASE {
            return None;
        }
        let slot: usize = (id - DYNAMIC_OBJECT_ID_BASE) as usize;
        if slot >= self.slots.len() {
            return None;
        }
        self.slots[slot].as_ref()
    }

    /// The object under `id`, to be changed in place.
    pub fn get_mut(&mut self, id: u32) -> (found: Option<&mut DynamicObject>)
        requires
            old(self).wf(),
        ensures
            match found {
                Some(object) => {
                    &&& old(self)@.get(id) == Some(object@)
                    &&& final(self)@.changed_at(old(self)@, id, final(object)@)
                    &&& final(object)@.fits()
                },
                None => {
                    &&& old(self)@.get(id) is None
                    &&& final(self)@ == old(self)@
                },
            },
            final(self).wf(),
    {
        if id < DYNAMIC_OBJECT_ID_BASE {
            return None;
        }
        let slot: usize = (id - DYNAMIC_OBJECT_ID_BASE) as usize;
        if slot >= self.slots.len() {
            return None;
        }
        if self.slots[slot].is_none() {
            return None;
        }
        proof {
            lemma_objects_fit();
        }
        match &mut self.slots[slot] {
            Some(object) => Some(object),
            None => None,
        }
    }

    /// Takes the object under `id` out of the arena and frees the identifier.
    /// An identifier that names no live object leaves the arena as it was.
    pub fn remove(&mut self, id: u32) -> (removed: Option<DynamicObject>)
        requires
            old(self).wf(),
        ensures
            final(self).wf(),
            final(self)@ == old(self)@.remove(id),
            match removed {
                Some(object) => old(self)@.get(id) == Some(object@),
                None => old(self)@.get(id) is None,
            },
    {
        if id < DYNAMIC_OBJECT_ID_BASE {
            return None;
        }
        let slot: usize = (id - DYNAMIC_OBJECT_ID_BASE) as usize;
        if slot >= self.slots.len() {
            return None;
        }
        let ghost before = self@;
        let removed = self.slots[slot].take();
        if removed.is_some() {
            self.free_ids.push(id);
            proof {
                assert(self@.objects =~= before.remove(id).objects);
                lemma_remove_then_get(before, id, id);
            }
        } else {
            assert(self@.objects =~= before.objects);
        }
        removed
    }
}

/// The identifier that an insertion returns was not live before, and lies at
/// or above the base.
pub proof fn lemma_insert_takes_unused_id(pool: PoolModel)
    requires
        pool.wf(),
        pool.has_room(),
    ensures
        pool.get(pool.next_id()) is None,
        pool.next_id() >= DYNAMIC_OBJECT_ID_BASE,
{
    if pool.free.len() > 0 {
        assert(pool.in_range(pool.free[pool.free.len() - 1]));
    }
}

/// After an insertion the returned identifier yields the inserted object,
/// every other identifier yields what it did before, and the arena is still
/// well formed.
pub proof fn lemma_insert_then_get(pool: PoolModel, object: ObjectModel, other: u32)
    requires
        pool.wf(),
        pool.has_room(),
        object.fits(),
    ensures
        pool.insert(object).wf(),
        pool.insert(object).get(pool.next_id()) == Some(object),
        other != pool.next_id() ==> pool.insert(object).get(other) == pool.get(other),
{
    let after = pool.insert(object);
    lemma_insert_takes_unused_id(pool);
    assert forall|id: u32| after.in_range(id) && !after.objects.contains_key(id) implies after.free.contains(
        id,
    ) by {
        if pool.free.len() > 0 {
            assert(pool.free.contains(id));
            let i = choose|i: int| 0 <= i < pool.free.len() && pool.free[i] == id;
            assert(after.free[i] == id);
        }
    }
}

/// After a removal the identifier yields nothing, every other identifier
/// yields what it did before, and the arena is still well formed.
pub proof fn lemma_remove_then_get(pool: PoolModel, id: u32, other: u32)
    requires
        pool.wf(),
    ensures
        pool.remove(id).wf(),
        pool.remove(id).get(id) is None,
        other != id ==> pool.remove(id).get(other) == pool.get(other),
{
    let after = pool.remove(id);
    if pool.objects.contains_key(id) {
        assert forall|k: u32| after.in_range(k) && !after.objects.contains_key(k) implies after.free.contains(
            k,
        ) by {
            if k == id {
                assert(after.free[after.free.len() - 1] == id);
            } else {
                assert(pool.free.contains(k));
                let i = choose|i: int| 0 <= i < pool.free.len() && pool.free[i] == k;
                assert(after.free[i] == k);
            }
        }
    }
}

/// An arena that differs from another at one live identifier, entry by
/// entry, is that arena with the object replaced.
pub proof fn lemma_changed_is_replaced(
    after: PoolModel,
    before: PoolModel,
    id: u32,
    object: ObjectModel,
)
    requires
        after.changed_at(before, id, object),
    ensures
        after == before.replace(id, object),
{
    assert(after.objects =~= before.replace(id, object).objects);
}

/// Removing an identifier that names no live object, one never handed out
/// among them, finds nothing and changes nothing.
pub proof fn lemma_remove_unknown(pool: PoolModel, id: u32)
    requires
        pool.wf(),
        !pool.in_range(id) || pool.get(id) is None,
    ensures
        pool.get(id) is None,
        pool.remove(id) == pool,
{
}

/// An identifier that was removed is the one that the next insertion hands
/// out again.
pub proof fn lemma_removed_id_is_reused(pool: PoolModel, id: u32)
    requires
        pool.wf(),
        pool.get(id) is Some,
    ensures
        pool.remove(id).has_room(),
        pool.remove(id).next_id() == id,
{
}

} // verus!
