//! The mathematical model of the store and of each operation on it.
//!
//! A store is a map from client names to that client's list and id counter.
//! Each operation is a function from one map to the next; the executable
//! store is proved to follow these functions exactly.
use vstd::prelude::*;

verus! {

/// A todo item as plain values.
pub struct TodoModel {
    pub id: nat,
    pub title: Seq<char>,
    pub desc: Seq<char>,
    pub is_done: bool,
}

/// The fields of a create request.
pub struct CreateModel {
    pub title: Seq<char>,
    pub desc: Seq<char>,
    pub is_done: bool,
}

/// The fields of an update request; `None` leaves a field as it is.
pub struct UpdateModel {
    pub title: Option<Seq<char>>,
    pub desc: Option<Seq<char>>,
    pub is_done: Option<bool>,
}

/// One client's items, in order of creation, and the id its next item gets.
pub struct ClientModel {
    pub todos: Seq<TodoModel>,
    pub next_id: nat,
}

/// The whole store: a partition for each client seen so far.
pub type StoreModel = Map<Seq<char>, ClientModel>;

/// A client that the store has never seen.
pub open spec fn fresh_client() -> ClientModel {
    ClientModel { todos: Seq::empty(), next_id: 1 }
}

/// A client's partition; an unseen client has an empty one.
pub open spec fn client_of(m: StoreModel, c: Seq<char>) -> ClientModel {
    if m.contains_key(c) {
        m[c]
    } else {
        fresh_client()
    }
}

/// The store once client `c` has a partition (created empty if it had none).
pub open spec fn touched(m: StoreModel, c: Seq<char>) -> StoreModel {
    m.insert(c, client_of(m, c))
}

/// Ids rise strictly along the list, start at 1 and stay below the counter.
pub open spec fn client_wf(cm: ClientModel) -> bool {
    &&& cm.next_id >= 1
    &&& forall|i: int| 0 <= i < cm.todos.len() ==> 1 <= #[trigger] cm.todos[i].id < cm.next_id
    &&& forall|i: int, j: int|
        0 <= i < j < cm.todos.len() ==> #[trigger] cm.todos[i].id < #[trigger] cm.todos[j].id
}

/// Every partition of the store is well formed.
pub open spec fn store_wf(m: StoreModel) -> bool {
    forall|c: Seq<char>| #[trigger] m.contains_key(c) ==> client_wf(m[c])
}

/// Some item of the list carries `id`.
pub open spec fn has_id(todos: Seq<TodoModel>, id: nat) -> bool {
    exists|j: int| 0 <= j < todos.len() && todos[j].id == id
}

/// The position of the item that carries `id` (meaningful when `has_id`).
pub open spec fn index_of(todos: Seq<TodoModel>, id: nat) -> int {
    choose|j: int| 0 <= j < todos.len() && todos[j].id == id
}

/// The item of client `c` with id `id`, if there is one.
pub open spec fn lookup(m: StoreModel, c: Seq<char>, id: nat) -> Option<TodoModel> {
    let todos = client_of(m, c).todos;
    if has_id(todos, id) {
        Some(todos[index_of(todos, id)])
    } else {
        None
    }
}

/// The item that a create request makes for a client.
pub open spec fn created(cm: ClientModel, req: CreateModel) -> TodoModel {
    TodoModel { id: cm.next_id, title: req.title, desc: req.desc, is_done: req.is_done }
}

/// The store after client `c` creates an item.
pub open spec fn after_create(m: StoreModel, c: Seq<char>, req: CreateModel) -> StoreModel {
    let cm = client_of(m, c);
    m.insert(c, ClientModel { todos: cm.todos.push(created(cm, req)), next_id: cm.next_id + 1 })
}

/// An item with the present fields of an update written over it.
pub open spec fn merged(t: TodoModel, u: UpdateModel) -> TodoModel {
    TodoModel {
        id: t.id,
        title: match u.title {
            Some(s) => s,
            None => t.title,
        },
        desc: match u.desc {
            Some(s) => s,
            None => t.desc,
        },
        is_done: match u.is_done {
            Some(b) => b,
            None => t.is_done,
        },
    }
}

/// The store after client `c` updates item `id` (only touched if it has none).
pub open spec fn after_update(m: StoreModel, c: Seq<char>, id: nat, u: UpdateModel) -> StoreModel {
    let cm = client_of(m, c);
    if has_id(cm.todos, id) {
        let i = index_of(cm.todos, id);
        m.insert(
            c,
            ClientModel { todos: cm.todos.update(i, merged(cm.todos[i], u)), next_id: cm.next_id },
        )
    } else {
        touched(m, c)
    }
}

/// The store after client `c` deletes item `id` (only touched if it has none).
pub open spec fn after_delete(m: StoreModel, c: Seq<char>, id: nat) -> StoreModel {
    let cm = client_of(m, c);
    if has_id(cm.todos, id) {
        m.insert(
            c,
            ClientModel { todos: cm.todos.remove(index_of(cm.todos, id)), next_id: cm.next_id },
        )
    } else {
        touched(m, c)
    }
}

/// In a well-formed list at most one item carries a given id.
pub proof fn lemma_index_unique(cm: ClientModel, id: nat, k: int)
    requires
        client_wf(cm),
        0 <= k < cm.todos.len(),
        cm.todos[k].id == id,
    ensures
        has_id(cm.todos, id),
        index_of(cm.todos, id) == k,
{
    let j = index_of(cm.todos, id);
    if j < k {
        assert(cm.todos[j].id < cm.todos[k].id);
    } else if k < j {
        assert(cm.todos[k].id < cm.todos[j].id);
    }
}

} // verus!
