//! Properties of the container that relate several of its operations.
use vstd::prelude::*;
use crate::galaxy::{AccessError, EntityId, GalaxyView, keys_unique, lemma_rows_without, rows_without};

verus! {

/// A query over `kinds` yields exactly the entities holding every kind, each once.
pub proof fn lemma_query_members<R, C, E>(v: GalaxyView<R, C, E>, kinds: Seq<u64>, n: int)
    requires
        keys_unique(v.rows),
        kinds.len() > 0,
        0 <= n <= v.rows.len(),
    ensures
        forall|x: EntityId|
            v.query_prefix(kinds, n).contains(x) <==> exists|i: int|
                0 <= i < n && v.rows[i].kind == kinds[0] && v.rows[i].entity == x && v.has_all(kinds, x),
        v.query_prefix(kinds, n).no_duplicates(),
    decreases n,
{
    if n > 0 {
        lemma_query_members(v, kinds, n - 1);
        let rest = v.query_prefix(kinds, n - 1);
        let row = v.rows[n - 1];
        let q = v.query_prefix(kinds, n);
        if row.kind == kinds[0] && v.has_all(kinds, row.entity) {
            assert(q == rest.push(row.entity));
            assert forall|x: EntityId| q.contains(x) <==> exists|i: int|
                0 <= i < n && v.rows[i].kind == kinds[0] && v.rows[i].entity == x && v.has_all(kinds, x) by {
                if q.contains(x) {
                    let k = choose|k: int| 0 <= k < q.len() && q[k] == x;
                    if k < rest.len() {
                        assert(rest[k] == x);
                        assert(rest.contains(x));
                    }
                }
                if exists|i: int| 0 <= i < n && v.rows[i].kind == kinds[0] && v.rows[i].entity == x && v.has_all(kinds, x) {
                    let i = choose|i: int| 0 <= i < n && v.rows[i].kind == kinds[0] && v.rows[i].entity == x && v.has_all(kinds, x);
                    if i < n - 1 {
                        assert(rest.contains(x));
                        let k = choose|k: int| 0 <= k < rest.len() && rest[k] == x;
                        assert(q[k] == x);
                    } else {
                        assert(q[q.len() - 1] == x);
                    }
                }
            }
            assert(!rest.contains(row.entity)) by {
                if rest.contains(row.entity) {
                    let i = choose|i: int|
                        0 <= i < n - 1 && v.rows[i].kind == kinds[0] && v.rows[i].entity == row.entity && v.has_all(kinds, row.entity);
                    assert(v.rows[i].kind == v.rows[n - 1].kind);
                }
            }
            assert forall|a: int, b: int| 0 <= a < q.len() && 0 <= b < q.len() && a != b implies q[a] != q[b] by {
                if a < rest.len() && b < rest.len() {
                    assert(q[a] == rest[a] && q[b] == rest[b]);
                } else if a < rest.len() {
                    assert(q[a] == rest[a]);
                    assert(rest.contains(q[a]));
                } else if b < rest.len() {
                    assert(q[b] == rest[b]);
                    assert(rest.contains(q[b]));
                }
            }
        } else {
            assert forall|x: EntityId| q.contains(x) <==> exists|i: int|
                0 <= i < n && v.rows[i].kind == kinds[0] && v.rows[i].entity == x && v.has_all(kinds, x) by {
                if exists|i: int| 0 <= i < n && v.rows[i].kind == kinds[0] && v.rows[i].entity == x && v.has_all(kinds, x) {
                    let i = choose|i: int| 0 <= i < n && v.rows[i].kind == kinds[0] && v.rows[i].entity == x && v.has_all(kinds, x);
                    assert(i < n - 1);
                }
            }
        }
    }
}

/// Giving a live entity a component keeps the container well formed, and the
/// entity then holds a component of that kind.
pub proof fn lemma_inserted<R, C, E>(v: GalaxyView<R, C, E>, e: EntityId, kind: u64, value: C)
    requires
        v.wf(),
        v.is_alive(e),
    ensures
        v.inserted(e, kind, value).wf(),
        v.inserted(e, kind, value).has(kind, e),
        v.inserted(e, kind, value).component(kind, e) == Some(value),
        v.inserted(e, kind, value).alive == v.alive,
        v.inserted(e, kind, value).generations == v.generations,
{
    let w = v.inserted(e, kind, value);
    let new_row = crate::galaxy::Row { kind, entity: e, value };
    if v.has(kind, e) {
        let i = choose|i: int| 0 <= i < v.rows.len() && v.rows[i].kind == kind && v.rows[i].entity == e;
        assert(w.rows == v.rows.update(i, new_row));
        assert(w.rows[i].kind == kind && w.rows[i].entity == e);
        assert forall|a: int, b: int|
            0 <= a < w.rows.len() && 0 <= b < w.rows.len() && a != b
                implies !(w.rows[a].kind == w.rows[b].kind && w.rows[a].entity == w.rows[b].entity) by {
            assert(v.rows[a].kind == w.rows[a].kind && v.rows[a].entity == w.rows[a].entity);
            assert(v.rows[b].kind == w.rows[b].kind && v.rows[b].entity == w.rows[b].entity);
        }
        assert forall|k: int| 0 <= k < w.rows.len() implies w.is_alive(#[trigger] w.rows[k].entity) by {
            assert(v.is_alive(v.rows[k].entity));
        }
        let j = choose|j: int| 0 <= j < w.rows.len() && w.rows[j].kind == kind && w.rows[j].entity == e;
        assert(w.rows[j].kind == w.rows[i].kind);
    } else {
        assert(w.rows == v.rows.push(new_row));
        assert(w.rows[w.rows.len() - 1].kind == kind && w.rows[w.rows.len() - 1].entity == e);
        assert forall|a: int, b: int|
            0 <= a < w.rows.len() && 0 <= b < w.rows.len() && a != b
                implies !(w.rows[a].kind == w.rows[b].kind && w.rows[a].entity == w.rows[b].entity) by {
            if a < v.rows.len() && b < v.rows.len() {
                assert(v.rows[a] == w.rows[a] && v.rows[b] == w.rows[b]);
            }
        }
        assert forall|k: int| 0 <= k < w.rows.len() implies w.is_alive(#[trigger] w.rows[k].entity) by {
            if k < v.rows.len() {
                assert(v.is_alive(v.rows[k].entity));
            }
        }
        let last = w.rows.len() - 1;
        let j = choose|j: int| 0 <= j < w.rows.len() && w.rows[j].kind == kind && w.rows[j].entity == e;
        assert(w.rows[j].kind == w.rows[last].kind);
    }
}

/// After `insert(e, kind, value)` on a live entity, a query over `kind` yields
/// `e` exactly once; after `remove_entity(e)`, no query yields `e`, in that
/// frame or the next, and giving `e` a component again changes nothing.
pub proof fn law_query_after_insert_and_remove<R, C, E>(
    v: GalaxyView<R, C, E>,
    e: EntityId,
    kind: u64,
    value: C,
    kinds: Seq<u64>,
    later_kind: u64,
    later_value: C,
)
    requires
        v.wf(),
        v.is_alive(e),
    ensures
        v.inserted(e, kind, value).query(seq![kind]).contains(e),
        v.inserted(e, kind, value).query(seq![kind]).no_duplicates(),
        !v.inserted(e, kind, value).removed(e).query(kinds).contains(e),
        !v.inserted(e, kind, value).removed(e).next_frame().query(kinds).contains(e),
        v.inserted(e, kind, value).removed(e).inserted(e, later_kind, later_value)
            == v.inserted(e, kind, value).removed(e),
{
    let w = v.inserted(e, kind, value);
    lemma_inserted(v, e, kind, value);
    let ks = seq![kind];
    lemma_query_members(w, ks, w.rows.len() as int);
    let i = choose|i: int| 0 <= i < w.rows.len() && w.rows[i].kind == kind && w.rows[i].entity == e;
    assert(w.has_all(ks, e));
    assert(w.rows[i].kind == ks[0]);
    let u = w.removed(e);
    assert(w.is_alive(e));
    assert(u.rows == rows_without(w.rows, e));
    lemma_rows_without(w.rows, e);
    if kinds.len() > 0 {
        assert(keys_unique(u.rows));
        lemma_query_members(u, kinds, u.rows.len() as int);
        if u.query(kinds).contains(e) {
            let j = choose|j: int|
                0 <= j < u.rows.len() && u.rows[j].kind == kinds[0] && u.rows[j].entity == e && u.has_all(kinds, e);
            assert(u.rows[j].entity != e);
        }
        assert(u.next_frame().query(kinds) == u.query(kinds)) by {
            lemma_query_same_rows(u, u.next_frame(), kinds, u.rows.len() as int);
        }
    }
    assert(!u.is_alive(e));
}

/// A query depends on the components alone.
pub proof fn lemma_query_same_rows<R, C, E>(v: GalaxyView<R, C, E>, w: GalaxyView<R, C, E>, kinds: Seq<u64>, n: int)
    requires
        v.rows == w.rows,
    ensures
        v.query_prefix(kinds, n) == w.query_prefix(kinds, n),
    decreases n,
{
    if n > 0 {
        lemma_query_same_rows(v, w, kinds, n - 1);
        assert(forall|x: EntityId| v.has_all(kinds, x) <==> w.has_all(kinds, x));
    }
}

/// Inserting a resource makes it readable at once, and a second insertion
/// before any read replaces it entirely.
pub proof fn law_resource_insert_replaces<R, C, E>(v: GalaxyView<R, C, E>, key: u64, a: R, b: R)
    requires
        v.wf(),
    ensures
        v.with_resource(key, a).resource(key) == Some(a),
        v.with_resource(key, a).with_resource(key, b).resource(key) == Some(b),
{
    lemma_with_resource(v, key, a);
    lemma_with_resource(v.with_resource(key, a), key, b);
}

/// Inserting a resource keeps keys unique and stores the value under its key.
pub proof fn lemma_with_resource<R, C, E>(v: GalaxyView<R, C, E>, key: u64, value: R)
    requires
        v.wf(),
    ensures
        v.with_resource(key, value).wf(),
        v.with_resource(key, value).resource(key) == Some(value),
        v.has_resource(key) ==> v.with_resource(key, value).shared_count(key) == v.shared_count(key)
            && v.with_resource(key, value).exclusive(key) == v.exclusive(key),
        !v.has_resource(key) ==> v.with_resource(key, value).shared_count(key) == 0
            && !v.with_resource(key, value).exclusive(key),
{
    let w = v.with_resource(key, value);
    if v.has_resource(key) {
        let i = v.resource_index(key);
        assert(w.resources[i].key == key);
        assert forall|a: int, b: int|
            0 <= a < w.resources.len() && 0 <= b < w.resources.len() && a != b
                implies w.resources[a].key != w.resources[b].key by {
            assert(w.resources[a].key == v.resources[a].key);
            assert(w.resources[b].key == v.resources[b].key);
        }
        let j = w.resource_index(key);
        assert(w.resources[j].key == w.resources[i].key);
    } else {
        let i = v.resources.len() as int;
        assert(w.resources[i].key == key);
        assert forall|a: int, b: int|
            0 <= a < w.resources.len() && 0 <= b < w.resources.len() && a != b
                implies w.resources[a].key != w.resources[b].key by {
            if a < v.resources.len() && b < v.resources.len() {
                assert(w.resources[a].key == v.resources[a].key);
                assert(w.resources[b].key == v.resources[b].key);
            }
        }
        let j = w.resource_index(key);
        assert(w.resources[j].key == w.resources[i].key);
    }
    assert(w.rows == v.rows);
}

/// Setting the borrow bookkeeping of a present resource changes nothing else.
pub proof fn lemma_with_borrows<R, C, E>(v: GalaxyView<R, C, E>, key: u64, shared: u64, exclusive: bool)
    requires
        v.wf(),
        v.has_resource(key),
    ensures
        v.with_borrows(key, shared, exclusive).wf(),
        v.with_borrows(key, shared, exclusive).has_resource(key),
        v.with_borrows(key, shared, exclusive).shared_count(key) == shared,
        v.with_borrows(key, shared, exclusive).exclusive(key) == exclusive,
        v.with_borrows(key, shared, exclusive).resource(key) == v.resource(key),
{
    let w = v.with_borrows(key, shared, exclusive);
    let i = v.resource_index(key);
    assert(w.resources[i].key == key);
    assert forall|a: int, b: int|
        0 <= a < w.resources.len() && 0 <= b < w.resources.len() && a != b
            implies w.resources[a].key != w.resources[b].key by {
        assert(w.resources[a].key == v.resources[a].key);
        assert(w.resources[b].key == v.resources[b].key);
    }
    let j = w.resource_index(key);
    assert(w.resources[j].key == w.resources[i].key);
    assert(w.rows == v.rows);
}

/// While a shared borrow of a resource is live an exclusive borrow of it is
/// refused; once that shared borrow is released, the exclusive borrow is granted.
pub proof fn law_shared_blocks_exclusive<R, C, E>(v: GalaxyView<R, C, E>, key: u64)
    requires
        v.wf(),
        v.exclusive_access(key) == Ok::<(), AccessError>(()),
    ensures
        v.shared_access(key) == Ok::<(), AccessError>(()),
        v.with_borrows(key, 1, false).exclusive_access(key) == Err::<(), AccessError>(AccessError::Aliased),
        v.with_borrows(key, 1, false).with_borrows(key, 0, false).exclusive_access(key) == Ok::<(), AccessError>(()),
{
    lemma_with_borrows(v, key, 1, false);
    lemma_with_borrows(v.with_borrows(key, 1, false), key, 0, false);
}

/// An event is visible, after those inserted before it, for the rest of its
/// frame, and is gone once the frame ends.
pub proof fn law_events_last_one_frame<R, C, E>(v: GalaxyView<R, C, E>, kind: u64, value: E)
    ensures
        v.with_event(kind, value).events(kind) == v.events(kind).push(value),
        v.with_event(kind, value).next_frame().events(kind) == Seq::<E>::empty(),
{
    let w = v.with_event(kind, value);
    assert(w.events.drop_last() == v.events);
}

/// Removing an entity twice has the effect of removing it once, and leaves the
/// other entities and their components as they were.
pub proof fn law_remove_entity_idempotent<R, C, E>(v: GalaxyView<R, C, E>, e: EntityId)
    requires
        v.wf(),
    ensures
        v.removed(e).removed(e) == v.removed(e),
        forall|x: EntityId| x != e ==> (v.removed(e).is_alive(x) <==> v.is_alive(x)),
        forall|x: EntityId, kind: u64| x != e ==> (v.removed(e).has(kind, x) <==> v.has(kind, x)),
{
    let w = v.removed(e);
    if v.is_alive(e) {
        assert(!w.is_alive(e));
        lemma_rows_without(v.rows, e);
        assert forall|x: EntityId, kind: u64| x != e implies (w.has(kind, x) <==> v.has(kind, x)) by {
            if w.has(kind, x) {
                let k = choose|k: int| 0 <= k < w.rows.len() && w.rows[k].kind == kind && w.rows[k].entity == x;
                assert(v.rows.contains(w.rows[k]));
            }
            if v.has(kind, x) {
                let j = choose|j: int| 0 <= j < v.rows.len() && v.rows[j].kind == kind && v.rows[j].entity == x;
                assert(w.rows.contains(v.rows[j]));
            }
        }
    }
}

} // verus!
