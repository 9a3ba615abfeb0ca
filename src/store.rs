//! The executable store: one partition per client, kept in a vector with
//! distinct client names.
use vstd::prelude::*;

use crate::model::{
    after_create, after_delete, after_update, client_of, client_wf, created, has_id, index_of,
    lemma_index_unique, lookup, merged, store_wf, touched, ClientModel, StoreModel, TodoModel,
};
use crate::todos::{CreateTodo, Todo, UpdateTodo};

verus! {

/// The only way a store operation fails: the client has no item with that id.
#[derive(Debug, Clone, Copy, PartialEq, Eq, Structural)]
pub enum StoreError {
    NotFound,
}

/// The items of a sequence of todos, as plain values.
pub open spec fn todo_views(s: Seq<Todo>) -> Seq<TodoModel> {
    s.map_values(|t: Todo| t@)
}

/// One client's partition.
struct ClientTodos {
    client: String,
    todos: Vec<Todo>,
    next_id: usize,
}

impl View for ClientTodos {
    type V = ClientModel;

    closed spec fn view(&self) -> ClientModel {
        ClientModel { todos: todo_views(self.todos@), next_id: self.next_id as nat }
    }
}

impl ClientTodos {
    /// The position of the item with `id`, if any.
    fn find(&self, id: usize) -> (r: Option<usize>)
        requires
            client_wf(self@),
        ensures
            match r {
                Some(k) => k < self.todos@.len() && self.todos@[k as int].id == id && index_of(
                    self@.todos,
                    id as nat,
                ) == k && has_id(self@.todos, id as nat),
                None => !has_id(self@.todos, id as nat),
            },
    {
        let mut k: usize = 0;
        while k < self.todos.len()
            invariant
                client_wf(self@),
                k <= self.todos@.len(),
                forall|j: int| 0 <= j < k ==> self.todos@[j].id != id,
            decreases self.todos@.len() - k,
        {
            if self.todos[k].id == id {
                assert(self@.todos[k as int].id == id as nat);
                proof {
                    lemma_index_unique(self@, id as nat, k as int);
                }
                return Some(k);
            }
            k = k + 1;
        }
        assert forall|j: int| 0 <= j < self@.todos.len() implies self@.todos[j].id != id as nat by {
            assert(self@.todos[j] == self.todos@[j]@);
        }
        None
    }
    /// Appends a new item with the next id.
    fn create(&mut self, req: CreateTodo) -> (r: Todo)
        requires
            client_wf(old(self)@),
            old(self).next_id < usize::MAX,
        ensures
            r@ == created(old(self)@, req@),
            final(self)@ == (ClientModel {
                todos: old(self)@.todos.push(r@),
                next_id: old(self)@.next_id + 1,
            }),
            client_wf(final(self)@),
            final(self).client == old(self).client,
    {
        let t = Todo { id: self.next_id, title: req.title, desc: req.desc, is_done: req.is_done };
        let r = t.copied();
        self.todos.push(t);
        self.next_id = self.next_id + 1;
        assert(todo_views(self.todos@) =~= todo_views(old(self).todos@).push(r@));
        proof {
            let (o, n) = (old(self)@, self@);
            assert forall|i: int, j: int| 0 <= i < j < n.todos.len() implies #[trigger] n.todos[i].id
                < #[trigger] n.todos[j].id by {
                if j < o.todos.len() {
                    assert(o.todos[i].id < o.todos[j].id);
                } else {
                    assert(o.todos[i].id < o.next_id);
                }
            }
            assert forall|i: int| 0 <= i < n.todos.len() implies 1 <= #[trigger] n.todos[i].id
                < n.next_id by {
                if i < o.todos.len() {
                    assert(o.todos[i].id < o.next_id);
                }
            }
        }
        r
    }

    /// Overwrites the item at `k` with the present fields of `u`.
    fn merge_at(&mut self, k: usize, u: UpdateTodo) -> (r: Todo)
        requires
            client_wf(old(self)@),
            k < old(self).todos@.len(),
        ensures
            r@ == merged(old(self)@.todos[k as int], u@),
            final(self)@ == (ClientModel {
                todos: old(self)@.todos.update(k as int, r@),
                next_id: old(self)@.next_id,
            }),
            client_wf(final(self)@),
            final(self).client == old(self).client,
    {
        let cur = &self.todos[k];
        let title = match u.title {
            Some(s) => s,
            None => cur.title.clone(),
        };
        let desc = match u.desc {
            Some(s) => s,
            None => cur.desc.clone(),
        };
        let is_done = match u.is_done {
            Some(b) => b,
            None => cur.is_done,
        };
        let t = Todo { id: cur.id, title, desc, is_done };
        let r = t.copied();
        self.todos.set(k, t);
        assert(todo_views(self.todos@) =~= todo_views(old(self).todos@).update(k as int, r@));
        proof {
            let (o, n) = (old(self)@, self@);
            assert forall|i: int| 0 <= i < n.todos.len() implies #[trigger] n.todos[i].id
                == o.todos[i].id by {}
            assert forall|i: int, j: int| 0 <= i < j < n.todos.len() implies #[trigger] n.todos[i].id
                < #[trigger] n.todos[j].id by {
                assert(o.todos[i].id < o.todos[j].id);
            }
            assert forall|i: int| 0 <= i < n.todos.len() implies 1 <= #[trigger] n.todos[i].id
                < n.next_id by {
                assert(o.todos[i].id < o.next_id);
            }
        }
        r
    }

    /// Removes the item at `k`, keeping the order of the others.
    fn remove_at(&mut self, k: usize)
        requires
            client_wf(old(self)@),
            k < old(self).todos@.len(),
        ensures
            final(self)@ == (ClientModel {
                todos: old(self)@.todos.remove(k as int),
                next_id: old(self)@.next_id,
            }),
            client_wf(final(self)@),
            final(self).client == old(self).client,
    {
        self.todos.remove(k);
        assert(todo_views(self.todos@) =~= todo_views(old(self).todos@).remove(k as int));
    }
}

spec fn holds(parts: Seq<ClientTodos>, c: Seq<char>) -> bool {
    exists|i: int| 0 <= i < parts.len() && parts[i].client@ == c
}

spec fn slot_of(parts: Seq<ClientTodos>, c: Seq<char>) -> int {
    choose|i: int| 0 <= i < parts.len() && parts[i].client@ == c
}

spec fn names_unique(parts: Seq<ClientTodos>) -> bool {
    forall|i: int, j: int|
        0 <= i < parts.len() && 0 <= j < parts.len() && i != j ==> #[trigger] parts[i].client@
            != #[trigger] parts[j].client@
}

/// The map from each client name to its partition.
spec fn model_of(parts: Seq<ClientTodos>) -> StoreModel {
    Map::new(|c: Seq<char>| holds(parts, c), |c: Seq<char>| parts[slot_of(parts, c)]@)
}

proof fn lemma_model_at(parts: Seq<ClientTodos>, k: int)
    requires
        names_unique(parts),
        0 <= k < parts.len(),
    ensures
        model_of(parts).contains_key(parts[k].client@),
        model_of(parts)[parts[k].client@] == parts[k]@,
{
    let c = parts[k].client@;
    assert(holds(parts, c));
    let j = slot_of(parts, c);
    assert(j == k);
}

/// Replacing partition `i` by one of the same client changes only that
/// client's entry.
proof fn lemma_model_replace(parts: Seq<ClientTodos>, i: int, p: ClientTodos)
    requires
        names_unique(parts),
        0 <= i < parts.len(),
        p.client@ == parts[i].client@,
    ensures
        names_unique(parts.update(i, p)),
        model_of(parts.update(i, p)) == model_of(parts).insert(p.client@, p@),
{
    let name = p.client@;
    let np = parts.update(i, p);
    assert forall|a: int, b: int|
        0 <= a < np.len() && 0 <= b < np.len() && a != b implies #[trigger] np[a].client@
        != #[trigger] np[b].client@ by {
        assert(parts[a].client@ != parts[b].client@);
    }
    let target = model_of(parts).insert(name, p@);
    assert forall|c: Seq<char>| #[trigger] model_of(np).contains_key(c) == target.contains_key(c) by {
        if c != name {
            if holds(np, c) {
                let j = slot_of(np, c);
                assert(parts[j].client@ == c);
            }
            if holds(parts, c) {
                let j = slot_of(parts, c);
                assert(np[j].client@ == c);
            }
        } else {
            lemma_model_at(np, i);
        }
    }
    assert forall|c: Seq<char>| #[trigger] model_of(np).contains_key(c) implies model_of(np)[c]
        == target[c] by {
        if c == name {
            lemma_model_at(np, i);
        } else {
            let j = slot_of(np, c);
            lemma_model_at(np, j);
            assert(parts[j] == np[j]);
            lemma_model_at(parts, j);
        }
    }
    assert(model_of(np) =~= target);
}

/// Adding a partition for a client not yet present adds exactly its entry.
proof fn lemma_model_push(parts: Seq<ClientTodos>, p: ClientTodos)
    requires
        names_unique(parts),
        !holds(parts, p.client@),
    ensures
        names_unique(parts.push(p)),
        model_of(parts.push(p)) == model_of(parts).insert(p.client@, p@),
{
    let name = p.client@;
    let np = parts.push(p);
    let n = parts.len() as int;
    assert forall|a: int, b: int|
        0 <= a < np.len() && 0 <= b < np.len() && a != b implies #[trigger] np[a].client@
        != #[trigger] np[b].client@ by {
        if a < n && b < n {
            assert(parts[a].client@ != parts[b].client@);
        } else if a < n {
            assert(parts[a].client@ != name);
        } else {
            assert(parts[b].client@ != name);
        }
    }
    let target = model_of(parts).insert(name, p@);
    assert forall|c: Seq<char>| #[trigger] model_of(np).contains_key(c) == target.contains_key(c) by {
        if c != name {
            if holds(np, c) {
                let j = slot_of(np, c);
                assert(parts[j].client@ == c);
            }
            if holds(parts, c) {
                let j = slot_of(parts, c);
                assert(np[j].client@ == c);
            }
        } else {
            lemma_model_at(np, n);
        }
    }
    assert forall|c: Seq<char>| #[trigger] model_of(np).contains_key(c) implies model_of(np)[c]
        == target[c] by {
        if c == name {
            lemma_model_at(np, n);
        } else {
            let j = slot_of(np, c);
            lemma_model_at(np, j);
            assert(parts[j] == np[j]);
            lemma_model_at(parts, j);
        }
    }
    assert(model_of(np) =~= target);
}

/// Every client's todo list, each behind its client name.
pub struct TodoStore {
    clients: Vec<ClientTodos>,
}

impl View for TodoStore {
    type V = StoreModel;

    closed spec fn view(&self) -> StoreModel {
        model_of(self.clients@)
    }
}

impl TodoStore {
    /// Client names are distinct, and each partition is well formed.
    pub closed spec fn wf(&self) -> bool {
        &&& names_unique(self.clients@)
        &&& forall|i: int| 0 <= i < self.clients@.len() ==> client_wf(#[trigger] self.clients@[i]@)
    }

    /// A well-formed store has a well-formed model.
    pub proof fn lemma_model_wf(&self)
        requires
            self.wf(),
        ensures
            store_wf(self@),
    {
        assert forall|c: Seq<char>| #[trigger] self@.contains_key(c) implies client_wf(self@[c]) by {
            lemma_model_at(self.clients@, slot_of(self.clients@, c));
        }
    }

    /// An empty store.
    pub fn new() -> (r: TodoStore)
        ensures
            r.wf(),
            r@ == StoreModel::empty(),
    {
        let r = TodoStore { clients: Vec::new() };
        assert(r@ =~= StoreModel::empty());
        r
    }

    /// The partition of client `c`, if the store has one.
    fn position(&self, c: &String) -> (r: Option<usize>)
        ensures
            match r {
                Some(i) => i < self.clients@.len() && self.clients@[i as int].client@ == c@,
                None => !holds(self.clients@, c@),
            },
    {
        let mut i: usize = 0;
        while i < self.clients.len()
            invariant
                i <= self.clients@.len(),
                forall|j: int| 0 <= j < i ==> self.clients@[j].client@ != c@,
            decreases self.clients@.len() - i,
        {
            if self.clients[i].client == *c {
                return Some(i);
            }
            i = i + 1;
        }
        None
    }

    /// The partition of client `c`, made empty if the client is new.
    fn slot(&mut self, c: &String) -> (i: usize)
        requires
            old(self).wf(),
        ensures
            final(self).wf(),
            i < final(self).clients@.len(),
            final(self).clients@[i as int].client@ == c@,
            final(self).clients@[i as int]@ == client_of(old(self)@, c@),
            final(self)@ == touched(old(self)@, c@),
    {
        match self.position(c) {
            Some(i) => {
                proof {
                    lemma_model_at(self.clients@, i as int);
                    assert(self@ =~= touched(self@, c@));
                }
                i
            },
            None => {
                let p = ClientTodos { client: c.clone(), todos: Vec::new(), next_id: 1 };
                assert(p@.todos =~= Seq::<TodoModel>::empty());
                proof {
                    lemma_model_push(self.clients@, p);
                }
                self.clients.push(p);
                self.clients.len() - 1
            },
        }
    }
    /// The id that the next item of `client` will get.
    pub fn next_id(&self, client: &String) -> (r: usize)
        requires
            self.wf(),
        ensures
            r as nat == client_of(self@, client@).next_id,
    {
        match self.position(client) {
            Some(i) => {
                proof {
                    lemma_model_at(self.clients@, i as int);
                }
                self.clients[i].next_id
            },
            None => 1,
        }
    }

    /// Creates an item for `client` from `req`, with the client's next id.
    pub fn create(&mut self, client: &String, req: CreateTodo) -> (r: Todo)
        requires
            old(self).wf(),
            client_of(old(self)@, client@).next_id < usize::MAX,
        ensures
            final(self).wf(),
            r@ == created(client_of(old(self)@, client@), req@),
            final(self)@ == after_create(old(self)@, client@, req@),
    {
        let i = self.slot(client);
        let ghost mid = self.clients@;
        let r = self.clients[i].create(req);
        proof {
            lemma_model_replace(mid, i as int, self.clients@[i as int]);
            assert(self.clients@ == mid.update(i as int, self.clients@[i as int]));
            assert(self@ =~= after_create(old(self)@, client@, req@));
        }
        r
    }

    /// All items of `client`, in order of creation.
    pub fn list(&mut self, client: &String) -> (r: Vec<Todo>)
        requires
            old(self).wf(),
        ensures
            final(self).wf(),
            todo_views(r@) == client_of(old(self)@, client@).todos,
            final(self)@ == touched(old(self)@, client@),
    {
        let i = self.slot(client);
        let todos = &self.clients[i].todos;
        let mut r: Vec<Todo> = Vec::new();
        let mut k: usize = 0;
        while k < todos.len()
            invariant
                k <= todos@.len(),
                r@.len() == k,
                forall|j: int| 0 <= j < k ==> #[trigger] r@[j]@ == todos@[j]@,
            decreases todos@.len() - k,
        {
            r.push(todos[k].copied());
            k = k + 1;
        }
        assert(todo_views(r@) =~= todo_views(todos@));
        r
    }

    /// The item of `client` with id `id`.
    pub fn get_by_id(&mut self, client: &String, id: usize) -> (r: Result<Todo, StoreError>)
        requires
            old(self).wf(),
        ensures
            final(self).wf(),
            final(self)@ == touched(old(self)@, client@),
            match r {
                Ok(t) => lookup(old(self)@, client@, id as nat) == Some(t@),
                Err(_) => lookup(old(self)@, client@, id as nat) is None,
            },
    {
        let i = self.slot(client);
        let part = &self.clients[i];
        match part.find(id) {
            Some(k) => Ok(part.todos[k].copied()),
            None => Err(StoreError::NotFound),
        }
    }

    /// Writes the present fields of `req` over the item of `client` with id
    /// `id`, and returns the item as it now is.
    pub fn update(&mut self, client: &String, id: usize, req: UpdateTodo) -> (r: Result<
        Todo,
        StoreError,
    >)
        requires
            old(self).wf(),
        ensures
            final(self).wf(),
            final(self)@ == after_update(old(self)@, client@, id as nat, req@),
            match r {
                Ok(t) => match lookup(old(self)@, client@, id as nat) {
                    Some(before) => t@ == merged(before, req@),
                    None => false,
                },
                Err(_) => lookup(old(self)@, client@, id as nat) is None,
            },
    {
        let i = self.slot(client);
        let ghost mid = self.clients@;
        match self.clients[i].find(id) {
            Some(k) => {
                let r = self.clients[i].merge_at(k, req);
                proof {
                    lemma_model_replace(mid, i as int, self.clients@[i as int]);
                    assert(self.clients@ == mid.update(i as int, self.clients@[i as int]));
                    assert(self@ =~= after_update(old(self)@, client@, id as nat, req@));
                }
                Ok(r)
            },
            None => Err(StoreError::NotFound),
        }
    }

    /// Removes the item of `client` with id `id`; the others keep their
    /// order, ids and fields.
    pub fn delete(&mut self, client: &String, id: usize) -> (r: Result<(), StoreError>)
        requires
            old(self).wf(),
        ensures
            final(self).wf(),
            final(self)@ == after_delete(old(self)@, client@, id as nat),
            r is Ok <==> lookup(old(self)@, client@, id as nat) is Some,
    {
        let i = self.slot(client);
        let ghost mid = self.clients@;
        match self.clients[i].find(id) {
            Some(k) => {
                self.clients[i].remove_at(k);
                proof {
                    lemma_model_replace(mid, i as int, self.clients@[i as int]);
                    assert(self.clients@ == mid.update(i as int, self.clients@[i as int]));
                    assert(self@ =~= after_delete(old(self)@, client@, id as nat));
                }
                Ok(())
            },
            None => Err(StoreError::NotFound),
        }
    }
}

} // verus!
