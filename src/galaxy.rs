//! The state container: entities with their components, singleton resources
//! with runtime-checked borrows, and per-frame event buffers.
//!
//! Every kind of component, resource and event is named by a `u64` key, and
//! the values of each store are one caller-chosen type (typically an enum with
//! one variant per kind).
use vstd::prelude::*;

verus! {

/// An entity: a slot index and the generation of that slot when it was handed out.
#[derive(PartialEq, Eq, Structural, Clone, Copy, Debug)]
pub struct EntityId {
    pub index: usize,
    pub generation: u64,
}

/// One component: its kind, the entity it belongs to, and its value.
#[derive(Clone, Copy, Debug)]
pub struct Row<C> {
    pub kind: u64,
    pub entity: EntityId,
    pub value: C,
}

/// One buffered event of a given kind.
#[derive(Clone, Copy, Debug)]
pub struct EventRecord<E> {
    pub kind: u64,
    pub value: E,
}

/// One resource with its borrow bookkeeping.
pub struct ResourceSlot<R> {
    pub key: u64,
    pub value: R,
    pub shared: u64,
    pub exclusive: bool,
}

/// Why a resource borrow was refused.
#[derive(PartialEq, Eq, Structural, Clone, Copy, Debug)]
pub enum AccessError {
    /// No resource was ever inserted under the key.
    Missing,
    /// The borrow would alias a live exclusive borrow, or an exclusive borrow
    /// was asked for while another borrow is live.
    Aliased,
}

/// A live shared borrow of the resource under `key`.
#[derive(Debug)]
pub struct SharedGuard {
    key: u64,
}

/// A live exclusive borrow of the resource under `key`.
#[derive(Debug)]
pub struct ExclusiveGuard {
    key: u64,
}

impl SharedGuard {
    pub closed spec fn key_spec(&self) -> u64 {
        self.key
    }

    pub fn key(&self) -> (r: u64)
        ensures
            r == self.key_spec(),
    {
        self.key
    }
}

impl ExclusiveGuard {
    pub closed spec fn key_spec(&self) -> u64 {
        self.key
    }

    pub fn key(&self) -> (r: u64)
        ensures
            r == self.key_spec(),
    {
        self.key
    }
}

/// The mathematical state of a `Galaxy`.
pub struct GalaxyView<R, C, E> {
    pub generations: Seq<u64>,
    pub alive: Seq<bool>,
    pub rows: Seq<Row<C>>,
    pub resources: Seq<ResourceSlot<R>>,
    pub events: Seq<EventRecord<E>>,
    pub exit: bool,
}

/// The rows of `rows` that do not belong to `e`, in their order.
pub open spec fn rows_without<C>(rows: Seq<Row<C>>, e: EntityId) -> Seq<Row<C>>
    decreases rows.len(),
{
    if rows.len() == 0 {
        rows
    } else {
        let rest = rows_without(rows.drop_last(), e);
        if rows.last().entity == e {
            rest
        } else {
            rest.push(rows.last())
        }
    }
}

/// No two rows hold the same kind for the same entity.
pub open spec fn keys_unique<C>(rows: Seq<Row<C>>) -> bool {
    forall|i: int, j: int|
        0 <= i < rows.len() && 0 <= j < rows.len() && i != j ==> !(rows[i].kind == rows[j].kind
            && rows[i].entity == rows[j].entity)
}

/// The values of the components of `kind`, in storage order.
pub open spec fn values_of<C>(rows: Seq<Row<C>>, kind: u64) -> Seq<C>
    decreases rows.len(),
{
    if rows.len() == 0 {
        Seq::empty()
    } else {
        let rest = values_of(rows.drop_last(), kind);
        if rows.last().kind == kind {
            rest.push(rows.last().value)
        } else {
            rest
        }
    }
}

/// Dropping the rows of one entity keeps only rows of the others, taken
/// from the input, and keeps kinds unique per entity.
pub proof fn lemma_rows_without<C>(rows: Seq<Row<C>>, e: EntityId)
    ensures
        forall|k: int|
            0 <= k < rows_without(rows, e).len() ==> (#[trigger] rows_without(rows, e)[k]).entity != e
                && rows.contains(rows_without(rows, e)[k]),
        forall|j: int| 0 <= j < rows.len() && rows[j].entity != e ==> rows_without(rows, e).contains(#[trigger] rows[j]),
        keys_unique(rows) ==> keys_unique(rows_without(rows, e)),
    decreases rows.len(),
{
    if rows.len() > 0 {
        let init = rows.drop_last();
        lemma_rows_without(init, e);
        let rest = rows_without(init, e);
        let res = rows_without(rows, e);
        assert forall|k: int| 0 <= k < res.len() implies (#[trigger] res[k]).entity != e && rows.contains(res[k]) by {
            if k < rest.len() {
                assert(init.contains(rest[k]));
                let j = choose|j: int| 0 <= j < init.len() && init[j] == rest[k];
                assert(rows[j] == init[j]);
            } else {
                assert(rows[rows.len() - 1] == res[k]);
            }
        }
        assert forall|j: int| 0 <= j < rows.len() && rows[j].entity != e implies res.contains(#[trigger] rows[j]) by {
            if j < rows.len() - 1 {
                assert(init[j] == rows[j]);
                assert(rest.contains(init[j]));
                let k = choose|k: int| 0 <= k < rest.len() && rest[k] == init[j];
                if rows.last().entity != e {
                    assert(res[k] == rest[k]);
                }
            } else {
                assert(res[res.len() - 1] == rows[j]);
            }
        }
        if keys_unique(rows) {
            assert(keys_unique(init)) by {
                assert forall|a: int, b: int|
                    0 <= a < init.len() && 0 <= b < init.len() && a != b implies !(init[a].kind == init[b].kind
                        && init[a].entity == init[b].entity) by {
                    assert(init[a] == rows[a] && init[b] == rows[b]);
                }
            }
            if rows.last().entity != e {
                assert forall|a: int, b: int|
                    0 <= a < res.len() && 0 <= b < res.len() && a != b implies !(res[a].kind == res[b].kind
                        && res[a].entity == res[b].entity) by {
                    if a < rest.len() && b < rest.len() {
                        assert(res[a] == rest[a] && res[b] == rest[b]);
                    } else if a < rest.len() {
                        assert(init.contains(rest[a]));
                        let j = choose|j: int| 0 <= j < init.len() && init[j] == rest[a];
                        assert(rows[j] == res[a]);
                        assert(rows[rows.len() - 1] == res[b]);
                    } else if b < rest.len() {
                        assert(init.contains(rest[b]));
                        let j = choose|j: int| 0 <= j < init.len() && init[j] == rest[b];
                        assert(rows[j] == res[b]);
                        assert(rows[rows.len() - 1] == res[a]);
                    }
                }
            }
        }
    }
}

/// The values of the events of `kind`, in the order they were inserted.
pub open spec fn events_of<E>(events: Seq<EventRecord<E>>, kind: u64) -> Seq<E>
    decreases events.len(),
{
    if events.len() == 0 {
        Seq::empty()
    } else {
        let rest = events_of(events.drop_last(), kind);
        if events.last().kind == kind {
            rest.push(events.last().value)
        } else {
            rest
        }
    }
}

impl<R, C, E> GalaxyView<R, C, E> {
    pub open spec fn is_alive(&self, e: EntityId) -> bool {
        &&& e.index < self.alive.len()
        &&& self.alive[e.index as int]
        &&& self.generations[e.index as int] == e.generation
    }

    /// Whether `e` has a component of `kind`.
    pub open spec fn has(&self, kind: u64, e: EntityId) -> bool {
        exists|i: int| 0 <= i < self.rows.len() && self.rows[i].kind == kind && self.rows[i].entity == e
    }

    pub open spec fn component(&self, kind: u64, e: EntityId) -> Option<C> {
        if self.has(kind, e) {
            let i = choose|i: int|
                0 <= i < self.rows.len() && self.rows[i].kind == kind && self.rows[i].entity == e;
            Some(self.rows[i].value)
        } else {
            None
        }
    }

    /// Whether `e` has a component of every kind in `kinds`.
    pub open spec fn has_all(&self, kinds: Seq<u64>, e: EntityId) -> bool {
        forall|j: int| 0 <= j < kinds.len() ==> self.has(#[trigger] kinds[j], e)
    }

    pub open spec fn has_resource(&self, key: u64) -> bool {
        exists|i: int| 0 <= i < self.resources.len() && self.resources[i].key == key
    }

    pub open spec fn resource_index(&self, key: u64) -> int {
        choose|i: int| 0 <= i < self.resources.len() && self.resources[i].key == key
    }

    pub open spec fn resource(&self, key: u64) -> Option<R> {
        if self.has_resource(key) {
            Some(self.resources[self.resource_index(key)].value)
        } else {
            None
        }
    }

    /// The number of live shared borrows of the resource under `key`.
    pub open spec fn shared_count(&self, key: u64) -> nat {
        if self.has_resource(key) {
            self.resources[self.resource_index(key)].shared as nat
        } else {
            0
        }
    }

    /// Whether an exclusive borrow of the resource under `key` is live.
    pub open spec fn exclusive(&self, key: u64) -> bool {
        self.has_resource(key) && self.resources[self.resource_index(key)].exclusive
    }

    /// The outcome of asking for a shared borrow of `key`.
    pub open spec fn shared_access(&self, key: u64) -> Result<(), AccessError> {
        if !self.has_resource(key) {
            Err(AccessError::Missing)
        } else if self.exclusive(key) || self.shared_count(key) >= u64::MAX {
            Err(AccessError::Aliased)
        } else {
            Ok(())
        }
    }

    /// The outcome of asking for an exclusive borrow of `key`.
    pub open spec fn exclusive_access(&self, key: u64) -> Result<(), AccessError> {
        if !self.has_resource(key) {
            Err(AccessError::Missing)
        } else if self.exclusive(key) || self.shared_count(key) > 0 {
            Err(AccessError::Aliased)
        } else {
            Ok(())
        }
    }

    /// The values of the events of `kind` buffered in the current frame.
    pub open spec fn events(&self, kind: u64) -> Seq<E> {
        events_of(self.events, kind)
    }

    /// The entities that a query over `kinds` yields: those holding every kind,
    /// in the order of their components of the first kind.
    pub open spec fn query(&self, kinds: Seq<u64>) -> Seq<EntityId> {
        self.query_prefix(kinds, self.rows.len() as int)
    }

    pub open spec fn query_prefix(&self, kinds: Seq<u64>, n: int) -> Seq<EntityId>
        decreases n,
    {
        if n <= 0 || kinds.len() == 0 {
            Seq::empty()
        } else {
            let rest = self.query_prefix(kinds, n - 1);
            let row = self.rows[n - 1];
            if row.kind == kinds[0] && self.has_all(kinds, row.entity) {
                rest.push(row.entity)
            } else {
                rest
            }
        }
    }

    /// Component kinds are unique per entity and belong to live entities;
    /// resource keys are unique.
    pub open spec fn wf(&self) -> bool {
        &&& self.generations.len() == self.alive.len()
        &&& keys_unique(self.rows)
        &&& forall|i: int| 0 <= i < self.rows.len() ==> self.is_alive(#[trigger] self.rows[i].entity)
        &&& forall|i: int, j: int|
            0 <= i < self.resources.len() && 0 <= j < self.resources.len() && i != j
                ==> self.resources[i].key != self.resources[j].key
    }

    /// The values of the components of `kind`, in storage order.
    pub open spec fn values(&self, kind: u64) -> Seq<C> {
        values_of(self.rows, kind)
    }

    /// The state after `insert(e, kind, value)`.
    pub open spec fn inserted(self, e: EntityId, kind: u64, value: C) -> Self {
        if !self.is_alive(e) {
            self
        } else if self.has(kind, e) {
            let i = choose|i: int|
                0 <= i < self.rows.len() && self.rows[i].kind == kind && self.rows[i].entity == e;
            GalaxyView { rows: self.rows.update(i, Row { kind, entity: e, value }), ..self }
        } else {
            GalaxyView { rows: self.rows.push(Row { kind, entity: e, value }), ..self }
        }
    }

    /// The state after `insert_resource(key, value)`: the value is replaced,
    /// the borrows of the key are kept.
    pub open spec fn with_resource(self, key: u64, value: R) -> Self {
        if self.has_resource(key) {
            let i = self.resource_index(key);
            let old_slot = self.resources[i];
            GalaxyView {
                resources: self.resources.update(
                    i,
                    ResourceSlot { key, value, shared: old_slot.shared, exclusive: old_slot.exclusive },
                ),
                ..self
            }
        } else {
            GalaxyView {
                resources: self.resources.push(ResourceSlot { key, value, shared: 0, exclusive: false }),
                ..self
            }
        }
    }

    /// The state with the borrow bookkeeping of the (present) resource `key` set.
    pub open spec fn with_borrows(self, key: u64, shared: u64, exclusive: bool) -> Self {
        let i = self.resource_index(key);
        let slot = self.resources[i];
        GalaxyView {
            resources: self.resources.update(
                i,
                ResourceSlot { key: slot.key, value: slot.value, shared, exclusive },
            ),
            ..self
        }
    }

    /// The state after `insert_event(kind, value)`.
    pub open spec fn with_event(self, kind: u64, value: E) -> Self {
        GalaxyView { events: self.events.push(EventRecord { kind, value }), ..self }
    }

    /// The state after `update()`: the event buffers are emptied.
    pub open spec fn next_frame(self) -> Self {
        GalaxyView { events: Seq::empty(), ..self }
    }

    /// The state after `remove_entity(e)`: a live `e` is marked dead and its
    /// components are dropped; anything else leaves the state as it was.
    pub open spec fn removed(self, e: EntityId) -> Self {
        if self.is_alive(e) {
            GalaxyView {
                alive: self.alive.update(e.index as int, false),
                rows: rows_without(self.rows, e),
                ..self
            }
        } else {
            self
        }
    }
}


/// The state container handed to every system.
pub struct Galaxy<R, C, E> {
    generations: Vec<u64>,
    alive: Vec<bool>,
    rows: Vec<Row<C>>,
    resources: Vec<ResourceSlot<R>>,
    events: Vec<EventRecord<E>>,
    exit: bool,
}

impl<R, C: Copy, E: Copy> Galaxy<R, C, E> {
    pub closed spec fn view(&self) -> GalaxyView<R, C, E> {
        GalaxyView {
            generations: self.generations@,
            alive: self.alive@,
            rows: self.rows@,
            resources: self.resources@,
            events: self.events@,
            exit: self.exit,
        }
    }

    pub open spec fn wf(&self) -> bool {
        self.view().wf()
    }

    /// An empty container: no entities, resources or events.
    pub fn new() -> (r: Self)
        ensures
            r.wf(),
            r.view().generations.len() == 0,
            r.view().rows.len() == 0,
            r.view().resources.len() == 0,
            r.view().events.len() == 0,
            !r.view().exit,
    {
        Galaxy {
            generations: Vec::new(),
            alive: Vec::new(),
            rows: Vec::new(),
            resources: Vec::new(),
            events: Vec::new(),
            exit: false,
        }
    }

    pub fn is_alive(&self, e: EntityId) -> (r: bool)
        requires
            self.wf(),
        ensures
            r == self.view().is_alive(e),
    {
        e.index < self.alive.len() && self.alive[e.index] && self.generations[e.index] == e.generation
    }

    /// Allocates a fresh entity with no components. A dead slot is reused
    /// with its generation raised by one, so that old identifiers of the
    /// slot stay dead.
    pub fn insert_entity(&mut self) -> (r: EntityId)
        requires
            old(self).wf(),
        ensures
            final(self).wf(),
            !old(self).view().is_alive(r),
            final(self).view().is_alive(r),
            forall|x: EntityId| x != r ==> (final(self).view().is_alive(x) <==> old(self).view().is_alive(x)),
            forall|x: EntityId|
                x.index < old(self).view().generations.len() && x.generation <= old(self).view().generations[x.index as int]
                    && !old(self).view().is_alive(x) ==> !final(self).view().is_alive(x),
            old(self).view().generations.len() <= final(self).view().generations.len(),
            forall|j: int|
                0 <= j < old(self).view().generations.len() ==> old(self).view().generations[j]
                    <= #[trigger] final(self).view().generations[j],
            final(self).view().rows == old(self).view().rows,
            final(self).view().resources == old(self).view().resources,
            final(self).view().events == old(self).view().events,
            final(self).view().exit == old(self).view().exit,
    {
        let n: usize = self.alive.len();
        let mut i: usize = 0;
        while i < n
            invariant
                n == self.alive@.len(),
                self.generations@.len() == n,
                i <= n,
                old(self).wf(),
                self.view() == old(self).view(),
            decreases n - i,
        {
            if !self.alive[i] && self.generations[i] < u64::MAX {
                let g: u64 = self.generations[i] + 1;
                self.generations.set(i, g);
                self.alive.set(i, true);
                let r = EntityId { index: i, generation: g };
                proof {
                    let ov = old(self).view();
                    let nv = self.view();
                    assert forall|k: int| 0 <= k < nv.rows.len() implies nv.is_alive(#[trigger] nv.rows[k].entity) by {
                        assert(ov.is_alive(ov.rows[k].entity));
                    }
                    assert(nv.generations.len() == nv.alive.len());
                    assert(nv.rows == ov.rows);
                    assert(nv.resources == ov.resources);
                    assert(nv.wf());
                }
                return r;
            }
            i += 1;
        }
        self.generations.push(0);
        self.alive.push(true);
        let r = EntityId { index: n, generation: 0 };
        proof {
            let ov = old(self).view();
            let nv = self.view();
            assert forall|k: int| 0 <= k < nv.rows.len() implies nv.is_alive(#[trigger] nv.rows[k].entity) by {
                assert(ov.is_alive(ov.rows[k].entity));
            }
            assert(nv.rows == ov.rows);
            assert(nv.resources == ov.resources);
            assert(nv.wf());
        }
        r
    }

    /// Attaches `value` as the component of `kind` of `e`, replacing one
    /// already there. Returns false, and changes nothing, if `e` is dead.
    pub fn insert(&mut self, e: EntityId, kind: u64, value: C) -> (r: bool)
        requires
            old(self).wf(),
        ensures
            final(self).wf(),
            r == old(self).view().is_alive(e),
            final(self).view() == old(self).view().inserted(e, kind, value),
            r ==> final(self).view().component(kind, e) == Some(value),
    {
        if !self.is_alive(e) {
            return false;
        }
        proof {
            crate::laws::lemma_inserted(self.view(), e, kind, value);
        }
        let n: usize = self.rows.len();
        let mut i: usize = 0;
        while i < n
            invariant
                n == self.rows@.len(),
                i <= n,
                self.view() == old(self).view(),
                old(self).wf(),
                old(self).view().is_alive(e),
                forall|k: int| 0 <= k < i ==> !(self.rows@[k].kind == kind && self.rows@[k].entity == e),
            decreases n - i,
        {
            if self.rows[i].kind == kind && self.rows[i].entity == e {
                let ghost v = old(self).view();
                proof {
                    assert(v.rows[i as int].kind == kind && v.rows[i as int].entity == e);
                    let c = choose|j: int| 0 <= j < v.rows.len() && v.rows[j].kind == kind && v.rows[j].entity == e;
                    assert(v.rows[c].kind == v.rows[i as int].kind);
                    assert(c == i as int);
                }
                self.rows.set(i, Row { kind, entity: e, value });
                proof {
                    crate::laws::lemma_inserted(v, e, kind, value);
                    let nv = self.view();
                    assert(nv.rows == v.rows.update(i as int, Row { kind, entity: e, value }));
                    assert forall|a: int, b: int|
                        0 <= a < nv.rows.len() && 0 <= b < nv.rows.len() && a != b
                            implies !(nv.rows[a].kind == nv.rows[b].kind && nv.rows[a].entity == nv.rows[b].entity) by {
                        assert(v.rows[a].kind == nv.rows[a].kind && v.rows[a].entity == nv.rows[a].entity);
                        assert(v.rows[b].kind == nv.rows[b].kind && v.rows[b].entity == nv.rows[b].entity);
                    }
                    assert forall|k: int| 0 <= k < nv.rows.len() implies nv.is_alive(#[trigger] nv.rows[k].entity) by {
                        assert(v.is_alive(v.rows[k].entity));
                    }
                    assert(nv.resources == v.resources);
                    assert(nv.wf());
                }
                return true;
            }
            i += 1;
        }
        let ghost v = old(self).view();
        self.rows.push(Row { kind, entity: e, value });
        proof {
            let nv = self.view();
            assert(nv.rows == v.rows.push(Row { kind, entity: e, value }));
            assert(!v.has(kind, e));
            assert forall|a: int, b: int|
                0 <= a < nv.rows.len() && 0 <= b < nv.rows.len() && a != b
                    implies !(nv.rows[a].kind == nv.rows[b].kind && nv.rows[a].entity == nv.rows[b].entity) by {
                if a < v.rows.len() && b < v.rows.len() {
                    assert(v.rows[a] == nv.rows[a] && v.rows[b] == nv.rows[b]);
                }
            }
            assert forall|k: int| 0 <= k < nv.rows.len() implies nv.is_alive(#[trigger] nv.rows[k].entity) by {
                if k < v.rows.len() {
                    assert(v.is_alive(v.rows[k].entity));
                }
            }
            assert(nv.resources == v.resources);
            assert(nv.wf());
        }
        true
    }
    /// The component of `kind` of `e`, if it has one.
    pub fn get_component(&self, e: EntityId, kind: u64) -> (r: Option<C>)
        requires
            self.wf(),
        ensures
            r == self.view().component(kind, e),
    {
        let n: usize = self.rows.len();
        let mut i: usize = 0;
        while i < n
            invariant
                n == self.rows@.len(),
                i <= n,
                self.wf(),
                forall|k: int| 0 <= k < i ==> !(self.rows@[k].kind == kind && self.rows@[k].entity == e),
            decreases n - i,
        {
            if self.rows[i].kind == kind && self.rows[i].entity == e {
                let ghost v = self.view();
                proof {
                    assert(v.rows[i as int].kind == kind && v.rows[i as int].entity == e);
                    let c = choose|j: int| 0 <= j < v.rows.len() && v.rows[j].kind == kind && v.rows[j].entity == e;
                    assert(v.rows[c].kind == v.rows[i as int].kind);
                    assert(c == i as int);
                }
                return Some(self.rows[i].value);
            }
            i += 1;
        }
        None
    }

    /// Whether `e` has a component of `kind`.
    pub fn has_component(&self, e: EntityId, kind: u64) -> (r: bool)
        ensures
            r == self.view().has(kind, e),
    {
        let n: usize = self.rows.len();
        let mut i: usize = 0;
        while i < n
            invariant
                n == self.rows@.len(),
                i <= n,
                forall|k: int| 0 <= k < i ==> !(self.rows@[k].kind == kind && self.rows@[k].entity == e),
            decreases n - i,
        {
            if self.rows[i].kind == kind && self.rows[i].entity == e {
                assert(self.view().rows[i as int].kind == kind);
                return true;
            }
            i += 1;
        }
        false
    }

    /// Whether `e` has a component of every kind in `kinds`.
    pub fn has_all(&self, e: EntityId, kinds: &Vec<u64>) -> (r: bool)
        ensures
            r == self.view().has_all(kinds@, e),
    {
        let n: usize = kinds.len();
        let mut j: usize = 0;
        while j < n
            invariant
                n == kinds@.len(),
                j <= n,
                forall|k: int| 0 <= k < j ==> self.view().has(#[trigger] kinds@[k], e),
            decreases n - j,
        {
            if !self.has_component(e, kinds[j]) {
                return false;
            }
            j += 1;
        }
        true
    }

    /// The entities holding a component of every kind in `kinds`, each with
    /// its identifier, in the storage order of the first kind.
    pub fn query(&self, kinds: &Vec<u64>) -> (r: Vec<EntityId>)
        ensures
            r@ == self.view().query(kinds@),
    {
        let mut out: Vec<EntityId> = Vec::new();
        if kinds.len() == 0 {
            return out;
        }
        let first: u64 = kinds[0];
        let n: usize = self.rows.len();
        let mut i: usize = 0;
        while i < n
            invariant
                n == self.rows@.len(),
                i <= n,
                kinds@.len() > 0,
                first == kinds@[0],
                out@ == self.view().query_prefix(kinds@, i as int),
            decreases n - i,
        {
            let row_kind: u64 = self.rows[i].kind;
            let row_entity = self.rows[i].entity;
            if row_kind == first && self.has_all(row_entity, kinds) {
                out.push(row_entity);
            }
            i += 1;
        }
        out
    }

    /// The values of all components of `kind`, in storage order.
    pub fn iter(&self, kind: u64) -> (r: Vec<C>)
        ensures
            r@ == self.view().values(kind),
    {
        let mut out: Vec<C> = Vec::new();
        let n: usize = self.rows.len();
        let mut i: usize = 0;
        while i < n
            invariant
                n == self.rows@.len(),
                i <= n,
                out@ == values_of(self.rows@.take(i as int), kind),
            decreases n - i,
        {
            proof {
                assert(self.rows@.take(i + 1).drop_last() == self.rows@.take(i as int));
            }
            if self.rows[i].kind == kind {
                out.push(self.rows[i].value);
            }
            i += 1;
        }
        proof {
            assert(self.rows@.take(n as int) == self.rows@);
        }
        out
    }

    /// Destroys `e` and all of its components. On an identifier that is
    /// stale or already destroyed this does nothing.
    pub fn remove_entity(&mut self, e: EntityId)
        requires
            old(self).wf(),
        ensures
            final(self).wf(),
            final(self).view() == old(self).view().removed(e),
    {
        if !self.is_alive(e) {
            return;
        }
        let ghost v = self.view();
        let mut kept: Vec<Row<C>> = Vec::new();
        let n: usize = self.rows.len();
        let mut i: usize = 0;
        while i < n
            invariant
                n == self.rows@.len(),
                i <= n,
                self.view() == v,
                kept@ == rows_without(v.rows.take(i as int), e),
            decreases n - i,
        {
            proof {
                assert(v.rows.take(i + 1).drop_last() == v.rows.take(i as int));
            }
            let row = self.rows[i];
            if row.entity != e {
                kept.push(row);
            }
            i += 1;
        }
        proof {
            assert(v.rows.take(n as int) == v.rows);
            lemma_rows_without(v.rows, e);
        }
        self.rows = kept;
        self.alive.set(e.index, false);
        proof {
            let nv = self.view();
            assert(nv == v.removed(e));
            assert forall|k: int| 0 <= k < nv.rows.len() implies nv.is_alive(#[trigger] nv.rows[k].entity) by {
                let x = nv.rows[k];
                assert(v.rows.contains(x));
                let j = choose|j: int| 0 <= j < v.rows.len() && v.rows[j] == x;
                assert(v.is_alive(v.rows[j].entity));
            }
            assert(nv.wf());
        }
    }

    /// Sets the resource under `key` to `value`, replacing any earlier value
    /// entirely. This is the setup write: it does not look at borrows, and
    /// live borrows of the key stay as they are. Systems that change a
    /// resource which others may hold use `write_resource`.
    pub fn insert_resource(&mut self, key: u64, value: R)
        requires
            old(self).wf(),
        ensures
            final(self).wf(),
            final(self).view() == old(self).view().with_resource(key, value),
            final(self).view().resource(key) == Some(value),
            old(self).view().has_resource(key) ==> final(self).view().shared_count(key) == old(self).view().shared_count(key)
                && final(self).view().exclusive(key) == old(self).view().exclusive(key),
            !old(self).view().has_resource(key) ==> final(self).view().shared_count(key) == 0
                && !final(self).view().exclusive(key),
    {
        proof {
            crate::laws::lemma_with_resource(self.view(), key, value);
        }
        let ghost v = self.view();
        let n: usize = self.resources.len();
        let mut i: usize = 0;
        while i < n
            invariant
                n == self.resources@.len(),
                i <= n,
                self.view() == v,
                v == old(self).view(),
                v.wf(),
                forall|k: int| 0 <= k < i ==> self.resources@[k].key != key,
            decreases n - i,
        {
            if self.resources[i].key == key {
                proof {
                    assert(v.resources[i as int].key == key);
                    let c = v.resource_index(key);
                    assert(v.resources[c].key == v.resources[i as int].key);
                    assert(c == i as int);
                }
                let shared: u64 = self.resources[i].shared;
                let exclusive = self.resources[i].exclusive;
                self.resources.set(i, ResourceSlot { key, value, shared, exclusive });
                proof {
                    let nv = self.view();
                    assert(v == old(self).view());
                    assert(nv == v.with_resource(key, value));
                    crate::laws::lemma_with_resource(v, key, value);
                    assert forall|a: int, b: int|
                        0 <= a < nv.resources.len() && 0 <= b < nv.resources.len() && a != b
                            implies nv.resources[a].key != nv.resources[b].key by {
                        assert(nv.resources[a].key == v.resources[a].key);
                        assert(nv.resources[b].key == v.resources[b].key);
                    }
                    assert(nv.wf());
                }
                return;
            }
            i += 1;
        }
        self.resources.push(ResourceSlot { key, value, shared: 0, exclusive: false });
        proof {
            let nv = self.view();
            assert(!v.has_resource(key));
            assert(nv == v.with_resource(key, value));
            assert forall|a: int, b: int|
                0 <= a < nv.resources.len() && 0 <= b < nv.resources.len() && a != b
                    implies nv.resources[a].key != nv.resources[b].key by {
                if a < v.resources.len() && b < v.resources.len() {
                    assert(nv.resources[a].key == v.resources[a].key);
                    assert(nv.resources[b].key == v.resources[b].key);
                }
            }
            assert(nv.wf());
        }
    }

    /// Replaces the value of the resource under `key` through a borrow that
    /// lasts for the call alone: refused, changing nothing, when the key holds
    /// no resource or while any other borrow of it is live.
    pub fn write_resource(&mut self, key: u64, value: R) -> (r: Result<(), AccessError>)
        requires
            old(self).wf(),
        ensures
            final(self).wf(),
            match r {
                Ok(()) => old(self).view().exclusive_access(key) == Ok::<(), AccessError>(())
                    && final(self).view() == old(self).view().with_resource(key, value),
                Err(err) => old(self).view().exclusive_access(key) == Err::<(), AccessError>(err)
                    && final(self).view() == old(self).view(),
            },
            r.is_ok() ==> final(self).view().resource(key) == Some(value)
                && final(self).view().shared_count(key) == 0 && !final(self).view().exclusive(key),
    {
        match self.find_resource(key) {
            None => Err(AccessError::Missing),
            Some(i) => {
                if self.resources[i].exclusive || self.resources[i].shared > 0 {
                    Err(AccessError::Aliased)
                } else {
                    self.insert_resource(key, value);
                    Ok(())
                }
            },
        }
    }

    /// The position of the resource under `key`, if present.
    fn find_resource(&self, key: u64) -> (r: Option<usize>)
        requires
            self.wf(),
        ensures
            r.is_some() == self.view().has_resource(key),
            r matches Some(i) ==> i == self.view().resource_index(key) && i < self.resources@.len(),
    {
        let n: usize = self.resources.len();
        let mut i: usize = 0;
        while i < n
            invariant
                n == self.resources@.len(),
                i <= n,
                self.wf(),
                forall|k: int| 0 <= k < i ==> self.resources@[k].key != key,
            decreases n - i,
        {
            if self.resources[i].key == key {
                proof {
                    let v = self.view();
                    assert(v.resources[i as int].key == key);
                    let c = v.resource_index(key);
                    assert(v.resources[c].key == v.resources[i as int].key);
                    assert(c == i as int);
                }
                return Some(i);
            }
            i += 1;
        }
        proof {
            let v = self.view();
            assert forall|k: int| 0 <= k < v.resources.len() implies v.resources[k].key != key by {
                assert(v.resources[k] == self.resources@[k]);
            }
        }
        None
    }

    /// Sets the borrow bookkeeping of the resource at position `i`.
    fn set_borrows(&mut self, i: usize, shared: u64, exclusive: bool)
        requires
            old(self).wf(),
            i < old(self).resources@.len(),
        ensures
            final(self).wf(),
            final(self).view() == (GalaxyView {
                resources: old(self).view().resources.update(
                    i as int,
                    ResourceSlot {
                        key: old(self).view().resources[i as int].key,
                        value: old(self).view().resources[i as int].value,
                        shared,
                        exclusive,
                    },
                ),
                ..old(self).view()
            }),
    {
        let ghost v = self.view();
        let mut slots: Vec<ResourceSlot<R>> = Vec::new();
        std::mem::swap(&mut slots, &mut self.resources);
        let mut slot = slots.remove(i);
        slot.shared = shared;
        slot.exclusive = exclusive;
        slots.insert(i, slot);
        std::mem::swap(&mut slots, &mut self.resources);
        proof {
            let nv = self.view();
            assert(nv.resources =~= v.resources.update(
                i as int,
                ResourceSlot { key: v.resources[i as int].key, value: v.resources[i as int].value, shared, exclusive },
            ));
            assert forall|a: int, b: int|
                0 <= a < nv.resources.len() && 0 <= b < nv.resources.len() && a != b
                    implies nv.resources[a].key != nv.resources[b].key by {
                assert(nv.resources[a].key == v.resources[a].key);
                assert(nv.resources[b].key == v.resources[b].key);
            }
            assert(nv.wf());
        }
    }

    /// Takes a shared borrow of the resource under `key`. Refused when the
    /// key holds no resource, or while an exclusive borrow of it is live.
    pub fn get_resource(&mut self, key: u64) -> (r: Result<SharedGuard, AccessError>)
        requires
            old(self).wf(),
        ensures
            final(self).wf(),
            match r {
                Ok(g) => old(self).view().shared_access(key) == Ok::<(), AccessError>(())
                    && g.key_spec() == key
                    && final(self).view() == old(self).view().with_borrows(
                        key,
                        (old(self).view().shared_count(key) + 1) as u64,
                        false,
                    ),
                Err(err) => old(self).view().shared_access(key) == Err::<(), AccessError>(err)
                    && final(self).view() == old(self).view(),
            },
            r.is_ok() ==> final(self).view().shared_count(key) == old(self).view().shared_count(key) + 1
                && !final(self).view().exclusive(key)
                && final(self).view().resource(key) == old(self).view().resource(key),
    {
        match self.find_resource(key) {
            None => Err(AccessError::Missing),
            Some(i) => {
                if self.resources[i].exclusive || self.resources[i].shared == u64::MAX {
                    Err(AccessError::Aliased)
                } else {
                    let shared: u64 = self.resources[i].shared + 1;
                    proof {
                        crate::laws::lemma_with_borrows(self.view(), key, shared, false);
                    }
                    self.set_borrows(i, shared, false);
                    Ok(SharedGuard { key })
                }
            },
        }
    }

    /// Takes an exclusive borrow of the resource under `key`. Refused when the
    /// key holds no resource, or while any other borrow of it is live.
    pub fn get_mut_resource(&mut self, key: u64) -> (r: Result<ExclusiveGuard, AccessError>)
        requires
            old(self).wf(),
        ensures
            final(self).wf(),
            match r {
                Ok(g) => old(self).view().exclusive_access(key) == Ok::<(), AccessError>(())
                    && g.key_spec() == key
                    && final(self).view() == old(self).view().with_borrows(key, 0, true),
                Err(err) => old(self).view().exclusive_access(key) == Err::<(), AccessError>(err)
                    && final(self).view() == old(self).view(),
            },
            r.is_ok() ==> final(self).view().shared_count(key) == 0 && final(self).view().exclusive(key)
                && final(self).view().resource(key) == old(self).view().resource(key),
    {
        match self.find_resource(key) {
            None => Err(AccessError::Missing),
            Some(i) => {
                if self.resources[i].exclusive || self.resources[i].shared > 0 {
                    Err(AccessError::Aliased)
                } else {
                    proof {
                        crate::laws::lemma_with_borrows(self.view(), key, 0, true);
                    }
                    self.set_borrows(i, 0, true);
                    Ok(ExclusiveGuard { key })
                }
            },
        }
    }

    /// Ends a shared borrow.
    pub fn release_shared(&mut self, guard: SharedGuard)
        requires
            old(self).wf(),
            old(self).view().shared_count(guard.key_spec()) > 0,
        ensures
            final(self).wf(),
            final(self).view() == old(self).view().with_borrows(
                guard.key_spec(),
                (old(self).view().shared_count(guard.key_spec()) - 1) as u64,
                old(self).view().exclusive(guard.key_spec()),
            ),
            final(self).view().shared_count(guard.key_spec()) == old(self).view().shared_count(guard.key_spec()) - 1,
            final(self).view().exclusive(guard.key_spec()) == old(self).view().exclusive(guard.key_spec()),
            final(self).view().resource(guard.key_spec()) == old(self).view().resource(guard.key_spec()),
    {
        let i = self.find_resource(guard.key).unwrap();
        let shared: u64 = self.resources[i].shared - 1;
        let exclusive = self.resources[i].exclusive;
        proof {
            crate::laws::lemma_with_borrows(self.view(), guard.key, shared, exclusive);
        }
        self.set_borrows(i, shared, exclusive);
    }

    /// Ends an exclusive borrow.
    pub fn release_exclusive(&mut self, guard: ExclusiveGuard)
        requires
            old(self).wf(),
            old(self).view().exclusive(guard.key_spec()),
        ensures
            final(self).wf(),
            final(self).view() == old(self).view().with_borrows(guard.key_spec(), 0, false),
            final(self).view().shared_count(guard.key_spec()) == 0,
            !final(self).view().exclusive(guard.key_spec()),
            final(self).view().resource(guard.key_spec()) == old(self).view().resource(guard.key_spec()),
    {
        let i = self.find_resource(guard.key).unwrap();
        proof {
            crate::laws::lemma_with_borrows(self.view(), guard.key, 0, false);
        }
        self.set_borrows(i, 0, false);
    }

    /// A read of the resource under `key` that lasts for the call alone:
    /// refused when the key holds no resource, or while an exclusive borrow of
    /// it is live.
    pub fn resource_value(&self, key: u64) -> (r: Result<&R, AccessError>)
        requires
            self.wf(),
        ensures
            match r {
                Ok(v) => self.view().has_resource(key) && !self.view().exclusive(key)
                    && self.view().resource(key) == Some(*v),
                Err(err) => err == (if self.view().has_resource(key) {
                    AccessError::Aliased
                } else {
                    AccessError::Missing
                }) && (self.view().has_resource(key) ==> self.view().exclusive(key)),
            },
    {
        match self.find_resource(key) {
            None => Err(AccessError::Missing),
            Some(i) => {
                if self.resources[i].exclusive {
                    Err(AccessError::Aliased)
                } else {
                    Ok(&self.resources[i].value)
                }
            },
        }
    }

    /// The value of the resource a shared guard borrows.
    pub fn read(&self, guard: &SharedGuard) -> (r: &R)
        requires
            self.wf(),
            self.view().has_resource(guard.key_spec()),
        ensures
            Some(*r) == self.view().resource(guard.key_spec()),
    {
        let i = self.find_resource(guard.key).unwrap();
        &self.resources[i].value
    }

    /// The value of the resource an exclusive guard borrows.
    pub fn read_mut(&self, guard: &ExclusiveGuard) -> (r: &R)
        requires
            self.wf(),
            self.view().has_resource(guard.key_spec()),
        ensures
            Some(*r) == self.view().resource(guard.key_spec()),
    {
        let i = self.find_resource(guard.key).unwrap();
        &self.resources[i].value
    }

    /// Replaces the value of the resource an exclusive guard borrows; the
    /// guard stays live.
    pub fn write(&mut self, guard: &ExclusiveGuard, value: R)
        requires
            old(self).wf(),
            old(self).view().exclusive(guard.key_spec()),
        ensures
            final(self).wf(),
            final(self).view() == old(self).view().with_resource(guard.key_spec(), value),
    {
        self.insert_resource(guard.key, value);
    }

    /// Appends an event to the buffer of `kind` for the current frame.
    pub fn insert_event(&mut self, kind: u64, value: E)
        requires
            old(self).wf(),
        ensures
            final(self).wf(),
            final(self).view() == old(self).view().with_event(kind, value),
    {
        self.events.push(EventRecord { kind, value });
        proof {
            let nv = self.view();
            assert(nv.rows == old(self).view().rows);
            assert(nv.resources == old(self).view().resources);
            assert(nv.alive == old(self).view().alive);
            assert(nv.wf());
        }
    }

    /// The events of `kind` inserted so far in this frame, in insertion order.
    pub fn get_events(&self, kind: u64) -> (r: Vec<E>)
        ensures
            r@ == self.view().events(kind),
    {
        let mut out: Vec<E> = Vec::new();
        let n: usize = self.events.len();
        let mut i: usize = 0;
        while i < n
            invariant
                n == self.events@.len(),
                i <= n,
                out@ == events_of(self.events@.take(i as int), kind),
            decreases n - i,
        {
            proof {
                assert(self.events@.take(i + 1).drop_last() == self.events@.take(i as int));
            }
            if self.events[i].kind == kind {
                out.push(self.events[i].value);
            }
            i += 1;
        }
        proof {
            assert(self.events@.take(n as int) == self.events@);
        }
        out
    }

    /// Asks for the frame loop to end after the current frame.
    pub fn set_exit(&mut self)
        requires
            old(self).wf(),
        ensures
            final(self).wf(),
            final(self).view() == (GalaxyView { exit: true, ..old(self).view() }),
    {
        self.exit = true;
        proof {
            let nv = self.view();
            assert(nv.rows == old(self).view().rows);
            assert(nv.resources == old(self).view().resources);
            assert(nv.alive == old(self).view().alive);
            assert(nv.wf());
        }
    }

    /// Ends the current frame: every event buffer is emptied. Returns whether
    /// the frame loop should go on, that is, whether no exit was asked for.
    pub fn update(&mut self) -> (r: bool)
        requires
            old(self).wf(),
        ensures
            final(self).wf(),
            final(self).view() == old(self).view().next_frame(),
            r == !old(self).view().exit,
    {
        self.events = Vec::new();
        proof {
            let nv = self.view();
            assert(nv.rows == old(self).view().rows);
            assert(nv.events =~= Seq::<EventRecord<E>>::empty());
            assert(nv.resources == old(self).view().resources);
            assert(nv.alive == old(self).view().alive);
            assert(nv.wf());
        }
        !self.exit
    }
}

} // verus!
