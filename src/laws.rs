//! Properties of the store's operations, proved over the model that every
//! executable operation follows exactly.
use vstd::prelude::*;

use crate::model::{
    after_create, after_delete, after_update, client_of, client_wf, created, has_id, index_of,
    lemma_index_unique, lookup, merged, store_wf, touched, CreateModel, StoreModel,
    TodoModel, UpdateModel,
};

verus! {

/// A well-formed store has well-formed partitions, seen or not.
pub proof fn lemma_client_wf(m: StoreModel, c: Seq<char>)
    requires
        store_wf(m),
    ensures
        client_wf(client_of(m, c)),
{
}

/// The item of a well-formed list with id `id`, found at position `k`.
proof fn lemma_lookup_at(m: StoreModel, c: Seq<char>, k: int)
    requires
        client_wf(client_of(m, c)),
        0 <= k < client_of(m, c).todos.len(),
    ensures
        lookup(m, c, client_of(m, c).todos[k].id) == Some(client_of(m, c).todos[k]),
{
    lemma_index_unique(client_of(m, c), client_of(m, c).todos[k].id, k);
}

/// Creating keeps the store well formed, and the new item's id is larger
/// than every id the client holds, so no id present is handed out again.
pub proof fn law_create_fresh_id(m: StoreModel, c: Seq<char>, req: CreateModel)
    requires
        store_wf(m),
    ensures
        store_wf(after_create(m, c, req)),
        forall|i: int|
            0 <= i < client_of(m, c).todos.len() ==> #[trigger] client_of(m, c).todos[i].id
                < created(client_of(m, c), req).id,
        !has_id(client_of(m, c).todos, created(client_of(m, c), req).id),
        lookup(after_create(m, c, req), c, created(client_of(m, c), req).id) == Some(
            created(client_of(m, c), req),
        ),
{
    let o = client_of(m, c);
    let n = client_of(after_create(m, c, req), c);
    let t = created(o, req);
    assert forall|i: int, j: int| 0 <= i < j < n.todos.len() implies #[trigger] n.todos[i].id
        < #[trigger] n.todos[j].id by {
        if j < o.todos.len() {
            assert(o.todos[i].id < o.todos[j].id);
        } else {
            assert(o.todos[i].id < o.next_id);
        }
    }
    assert forall|i: int| 0 <= i < n.todos.len() implies 1 <= #[trigger] n.todos[i].id
        < n.next_id by {
        if i < o.todos.len() {
            assert(o.todos[i].id < o.next_id);
        }
    }
    assert(client_wf(n));
    let m2 = after_create(m, c, req);
    assert forall|d: Seq<char>| #[trigger] m2.contains_key(d) implies client_wf(m2[d]) by {
        if d != c {
            assert(m2[d] == m[d]);
        }
    }
    if has_id(o.todos, t.id) {
        let j = index_of(o.todos, t.id);
        assert(o.todos[j].id < o.next_id);
    }
    lemma_lookup_at(m2, c, o.todos.len() as int);
}

/// Updating keeps every id in place, so the store stays well formed.
pub proof fn law_update_wf(m: StoreModel, c: Seq<char>, id: nat, u: UpdateModel)
    requires
        store_wf(m),
    ensures
        store_wf(after_update(m, c, id, u)),
{
    let o = client_of(m, c);
    let m2 = after_update(m, c, id, u);
    let n = client_of(m2, c);
    if has_id(o.todos, id) {
        assert forall|i: int| 0 <= i < n.todos.len() implies #[trigger] n.todos[i].id
            == o.todos[i].id by {}
        assert forall|i: int, j: int| 0 <= i < j < n.todos.len() implies #[trigger] n.todos[i].id
            < #[trigger] n.todos[j].id by {
            assert(o.todos[i].id < o.todos[j].id);
        }
        assert forall|i: int| 0 <= i < n.todos.len() implies 1 <= #[trigger] n.todos[i].id
            < n.next_id by {
            assert(o.todos[i].id < o.next_id);
        }
    }
    assert forall|d: Seq<char>| #[trigger] m2.contains_key(d) implies client_wf(m2[d]) by {
        if d != c {
            assert(m2[d] == m[d]);
        }
    }
}

/// Deleting keeps the store well formed.
pub proof fn law_delete_wf(m: StoreModel, c: Seq<char>, id: nat)
    requires
        store_wf(m),
    ensures
        store_wf(after_delete(m, c, id)),
{
    let o = client_of(m, c);
    let m2 = after_delete(m, c, id);
    let n = client_of(m2, c);
    if has_id(o.todos, id) {
        let k = index_of(o.todos, id);
        assert forall|i: int, j: int| 0 <= i < j < n.todos.len() implies #[trigger] n.todos[i].id
            < #[trigger] n.todos[j].id by {
            let oi = if i < k { i } else { i + 1 };
            let oj = if j < k { j } else { j + 1 };
            assert(o.todos[oi].id < o.todos[oj].id);
        }
        assert forall|i: int| 0 <= i < n.todos.len() implies 1 <= #[trigger] n.todos[i].id
            < n.next_id by {
            let oi = if i < k { i } else { i + 1 };
            assert(o.todos[oi].id < o.next_id);
        }
    }
    assert forall|d: Seq<char>| #[trigger] m2.contains_key(d) implies client_wf(m2[d]) by {
        if d != c {
            assert(m2[d] == m[d]);
        }
    }
}

/// No operation of client `a` changes what client `b` holds: its items, and
/// so everything a list or lookup under `b` returns, stay as they were.
pub proof fn law_isolation(
    m: StoreModel,
    a: Seq<char>,
    b: Seq<char>,
    req: CreateModel,
    id: nat,
    u: UpdateModel,
)
    requires
        a != b,
    ensures
        client_of(touched(m, a), b) == client_of(m, b),
        client_of(after_create(m, a, req), b) == client_of(m, b),
        client_of(after_update(m, a, id, u), b) == client_of(m, b),
        client_of(after_delete(m, a, id), b) == client_of(m, b),
{
}

/// A client's first item gets id 1.
pub proof fn law_first_id(m: StoreModel, c: Seq<char>, req: CreateModel)
    requires
        !m.contains_key(c),
    ensures
        created(client_of(m, c), req).id == 1,
{
}

/// While a client has deleted nothing, so that its counter is one past its
/// size, each new item's id is that size plus one, and this stays so.
pub proof fn law_id_follows_size(m: StoreModel, c: Seq<char>, req: CreateModel)
    requires
        client_of(m, c).next_id == client_of(m, c).todos.len() + 1,
    ensures
        created(client_of(m, c), req).id == client_of(m, c).todos.len() + 1,
        client_of(after_create(m, c, req), c).next_id == client_of(
            after_create(m, c, req),
            c,
        ).todos.len() + 1,
{
}

/// Each create takes the counter's value and raises it by one; updates and
/// deletes leave the counter alone.
pub proof fn law_counter(m: StoreModel, c: Seq<char>, req: CreateModel, id: nat, u: UpdateModel)
    ensures
        created(client_of(m, c), req).id == client_of(m, c).next_id,
        client_of(after_create(m, c, req), c).next_id == client_of(m, c).next_id + 1,
        client_of(after_update(m, c, id, u), c).next_id == client_of(m, c).next_id,
        client_of(after_delete(m, c, id), c).next_id == client_of(m, c).next_id,
{
}

/// An update with no field present returns the item as it was, and leaves
/// the client's items as they were.
pub proof fn law_empty_update(m: StoreModel, c: Seq<char>, id: nat)
    requires
        store_wf(m),
    ensures
        ({
            let u = UpdateModel { title: None, desc: None, is_done: None };
            &&& client_of(after_update(m, c, id, u), c) == client_of(m, c)
            &&& forall|t: TodoModel| merged(t, u) == t
        }),
{
    let u = UpdateModel { title: None, desc: None, is_done: None };
    let o = client_of(m, c);
    if has_id(o.todos, id) {
        let k = index_of(o.todos, id);
        assert(merged(o.todos[k], u) == o.todos[k]);
        assert(o.todos.update(k, o.todos[k]) =~= o.todos);
    }
}

/// An update that carries only a title changes the title of that item and
/// nothing else: its id, description and done flag, and every other item,
/// stay as they were.
pub proof fn law_title_update(m: StoreModel, c: Seq<char>, id: nat, title: Seq<char>)
    requires
        store_wf(m),
        lookup(m, c, id) is Some,
    ensures
        ({
            let u = UpdateModel { title: Some(title), desc: None, is_done: None };
            let before = lookup(m, c, id)->Some_0;
            &&& lookup(after_update(m, c, id, u), c, id) == Some(
                TodoModel { id: before.id, title, desc: before.desc, is_done: before.is_done },
            )
            &&& forall|other: nat|
                other != id ==> #[trigger] lookup(after_update(m, c, id, u), c, other) == lookup(
                    m,
                    c,
                    other,
                )
        }),
{
    let u = UpdateModel { title: Some(title), desc: None, is_done: None };
    let o = client_of(m, c);
    let m2 = after_update(m, c, id, u);
    let n = client_of(m2, c);
    let k = index_of(o.todos, id);
    law_update_wf(m, c, id, u);
    lemma_lookup_at(m2, c, k);
    assert forall|other: nat| other != id implies #[trigger] lookup(m2, c, other) == lookup(
        m,
        c,
        other,
    ) by {
        if has_id(o.todos, other) {
            let j = index_of(o.todos, other);
            lemma_lookup_at(m, c, j);
            lemma_lookup_at(m2, c, j);
        } else if has_id(n.todos, other) {
            let j = index_of(n.todos, other);
            assert(o.todos[j].id == other);
        }
    }
}

/// Once an item is deleted a lookup of its id finds nothing, and every other
/// id of the client finds what it found before.
pub proof fn law_delete_then_get(m: StoreModel, c: Seq<char>, id: nat)
    requires
        store_wf(m),
        lookup(m, c, id) is Some,
    ensures
        lookup(after_delete(m, c, id), c, id) is None,
        forall|other: nat|
            other != id ==> #[trigger] lookup(after_delete(m, c, id), c, other) == lookup(
                m,
                c,
                other,
            ),
{
    let o = client_of(m, c);
    let m2 = after_delete(m, c, id);
    let n = client_of(m2, c);
    let k = index_of(o.todos, id);
    law_delete_wf(m, c, id);
    if has_id(n.todos, id) {
        let j = index_of(n.todos, id);
        let oj = if j < k { j } else { j + 1 };
        if oj < k {
            assert(o.todos[oj].id < o.todos[k].id);
        } else {
            assert(o.todos[k].id < o.todos[oj].id);
        }
    }
    assert forall|other: nat| other != id implies #[trigger] lookup(m2, c, other) == lookup(
        m,
        c,
        other,
    ) by {
        if has_id(o.todos, other) {
            let j = index_of(o.todos, other);
            lemma_lookup_at(m, c, j);
            let nj = if j < k { j } else { j - 1 };
            assert(n.todos[nj] == o.todos[j]);
            lemma_lookup_at(m2, c, nj);
        } else if has_id(n.todos, other) {
            let j = index_of(n.todos, other);
            let oj = if j < k { j } else { j + 1 };
            assert(o.todos[oj].id == other);
        }
    }
}

/// A client the store has never seen holds no items.
pub proof fn law_unknown_client(m: StoreModel, c: Seq<char>)
    requires
        !m.contains_key(c),
    ensures
        client_of(m, c).todos.len() == 0,
{
}

/// Two creates for one client, one after the other, give two items with
/// consecutive ids, and both can be found afterwards: no id is given twice
/// and no item is lost.
pub proof fn law_two_creates(m: StoreModel, c: Seq<char>, first: CreateModel, second: CreateModel)
    requires
        store_wf(m),
    ensures
        ({
            let m1 = after_create(m, c, first);
            let m2 = after_create(m1, c, second);
            let t1 = created(client_of(m, c), first);
            let t2 = created(client_of(m1, c), second);
            &&& t2.id == t1.id + 1
            &&& lookup(m2, c, t1.id) == Some(t1)
            &&& lookup(m2, c, t2.id) == Some(t2)
            &&& client_of(m2, c).todos == client_of(m, c).todos.push(t1).push(t2)
        }),
{
    let m1 = after_create(m, c, first);
    let m2 = after_create(m1, c, second);
    law_create_fresh_id(m, c, first);
    law_create_fresh_id(m1, c, second);
    lemma_client_wf(m2, c);
    lemma_lookup_at(m2, c, client_of(m, c).todos.len() as int);
}

} // verus!
