use memorable::{CreateTodo, ErrorRes, SocketIPAddr, StoreError, Todo, TodoStore, UpdateTodo};

fn client(name: &str) -> String {
    String::from(name)
}

fn req(title: &str, desc: &str, is_done: bool) -> CreateTodo {
    CreateTodo { title: String::from(title), desc: String::from(desc), is_done }
}

fn no_change() -> UpdateTodo {
    UpdateTodo { title: None, desc: None, is_done: None }
}

#[test]
fn scenario_create_delete_list() {
    let mut s = TodoStore::new();
    let c1 = client("c1");
    let a = s.create(&c1, req("Buy milk", "2%", false));
    assert_eq!(a.id, 1);
    assert_eq!(a.title, "Buy milk");
    assert_eq!(a.desc, "2%");
    assert!(!a.is_done);
    let b = s.create(&c1, req("Clean", "", false));
    assert_eq!(b.id, 2);
    assert_eq!(b.title, "Clean");
    assert_eq!(s.delete(&c1, 1), Ok(()));
    assert!(matches!(s.get_by_id(&c1, 1), Err(StoreError::NotFound)));
    let l = s.list(&c1);
    assert_eq!(l.len(), 1);
    assert_eq!(l[0].id, 2);
    assert_eq!(l[0].title, "Clean");
    assert_eq!(l[0].desc, "");
}

#[test]
fn first_create_gets_id_one() {
    let mut s = TodoStore::new();
    let c = client("10.0.0.1");
    assert_eq!(s.next_id(&c), 1);
    assert_eq!(s.create(&c, req("a", "b", true)).id, 1);
    assert_eq!(s.next_id(&c), 2);
}

#[test]
fn ids_follow_size_without_deletes() {
    let mut s = TodoStore::new();
    let c = client("c");
    for n in 1..=5usize {
        let size = s.list(&c).len();
        let t = s.create(&c, req("t", "d", false));
        assert_eq!(t.id, size + 1);
        assert_eq!(t.id, n);
    }
}

#[test]
fn ids_are_never_reused_after_delete() {
    let mut s = TodoStore::new();
    let c = client("c");
    s.create(&c, req("one", "", false));
    s.create(&c, req("two", "", false));
    assert_eq!(s.delete(&c, 2), Ok(()));
    let t = s.create(&c, req("three", "", false));
    assert_eq!(t.id, 3);
    assert_eq!(s.delete(&c, 1), Ok(()));
    let u = s.create(&c, req("four", "", false));
    assert_eq!(u.id, 4);
    let ids: Vec<usize> = s.list(&c).iter().map(|t| t.id).collect();
    assert_eq!(ids, vec![3, 4]);
}

#[test]
fn empty_update_keeps_item() {
    let mut s = TodoStore::new();
    let c = client("c");
    let t = s.create(&c, req("title", "desc", true));
    let u = s.update(&c, t.id, no_change()).unwrap();
    assert_eq!(u.id, t.id);
    assert_eq!(u.title, "title");
    assert_eq!(u.desc, "desc");
    assert!(u.is_done);
    let g = s.get_by_id(&c, t.id).unwrap();
    assert_eq!(g.title, "title");
    assert_eq!(g.desc, "desc");
    assert!(g.is_done);
}

#[test]
fn title_update_changes_only_title() {
    let mut s = TodoStore::new();
    let c = client("c");
    let t = s.create(&c, req("old", "keep", false));
    let other = s.create(&c, req("other", "o", true));
    let upd = UpdateTodo { title: Some(String::from("X")), desc: None, is_done: None };
    let u = s.update(&c, t.id, upd).unwrap();
    assert_eq!(u.id, t.id);
    assert_eq!(u.title, "X");
    assert_eq!(u.desc, "keep");
    assert!(!u.is_done);
    let o = s.get_by_id(&c, other.id).unwrap();
    assert_eq!(o.title, "other");
    assert_eq!(o.desc, "o");
    assert!(o.is_done);
}

#[test]
fn update_all_fields() {
    let mut s = TodoStore::new();
    let c = client("c");
    let t = s.create(&c, req("a", "b", false));
    let upd = UpdateTodo {
        title: Some(String::from("A")),
        desc: Some(String::from("B")),
        is_done: Some(true),
    };
    let u = s.update(&c, t.id, upd).unwrap();
    assert_eq!(u.title, "A");
    assert_eq!(u.desc, "B");
    assert!(u.is_done);
    let l = s.list(&c);
    assert_eq!(l.len(), 1);
    assert_eq!(l[0].title, "A");
}

#[test]
fn delete_leaves_others_intact() {
    let mut s = TodoStore::new();
    let c = client("c");
    s.create(&c, req("a", "1", false));
    s.create(&c, req("b", "2", true));
    s.create(&c, req("c", "3", false));
    assert_eq!(s.delete(&c, 2), Ok(()));
    assert!(matches!(s.get_by_id(&c, 2), Err(StoreError::NotFound)));
    let a = s.get_by_id(&c, 1).unwrap();
    assert_eq!((a.title.as_str(), a.desc.as_str(), a.is_done), ("a", "1", false));
    let z = s.get_by_id(&c, 3).unwrap();
    assert_eq!((z.title.as_str(), z.desc.as_str(), z.is_done), ("c", "3", false));
    let ids: Vec<usize> = s.list(&c).iter().map(|t| t.id).collect();
    assert_eq!(ids, vec![1, 3]);
}

#[test]
fn unknown_client_lists_empty() {
    let mut s = TodoStore::new();
    assert!(s.list(&client("never-seen-client")).is_empty());
}

#[test]
fn clients_are_isolated() {
    let mut s = TodoStore::new();
    let a = client("1.1.1.1");
    let b = client("2.2.2.2");
    let t = s.create(&a, req("mine", "", false));
    assert!(s.list(&b).is_empty());
    assert!(matches!(s.get_by_id(&b, t.id), Err(StoreError::NotFound)));
    assert_eq!(s.delete(&b, t.id), Err(StoreError::NotFound));
    assert!(s.update(&b, t.id, no_change()).is_err());
    let tb = s.create(&b, req("theirs", "", false));
    assert_eq!(tb.id, 1);
    let la = s.list(&a);
    assert_eq!(la.len(), 1);
    assert_eq!(la[0].title, "mine");
}

#[test]
fn consecutive_creates_get_distinct_sequential_ids() {
    let mut s = TodoStore::new();
    let c = client("c");
    let a = s.create(&c, req("x", "", false));
    let b = s.create(&c, req("y", "", false));
    assert_eq!(b.id, a.id + 1);
    let l = s.list(&c);
    assert_eq!(l.len(), 2);
    assert_eq!(l[0].title, "x");
    assert_eq!(l[1].title, "y");
}

#[test]
fn missing_id_is_not_found() {
    let mut s = TodoStore::new();
    let c = client("c");
    assert!(matches!(s.get_by_id(&c, 1), Err(StoreError::NotFound)));
    assert!(matches!(s.update(&c, 1, no_change()), Err(StoreError::NotFound)));
    assert_eq!(s.delete(&c, 1), Err(StoreError::NotFound));
    s.create(&c, req("a", "", false));
    assert!(matches!(s.get_by_id(&c, 0), Err(StoreError::NotFound)));
    assert_eq!(s.delete(&c, 7), Err(StoreError::NotFound));
    assert_eq!(s.list(&c).len(), 1);
}

#[test]
fn empty_strings_are_stored_verbatim() {
    let mut s = TodoStore::new();
    let c = client("");
    let t = s.create(&c, req("", "", false));
    assert_eq!(t.title, "");
    let l = s.list(&c);
    assert_eq!(l[0].desc, "");
}

#[test]
fn todo_copy_and_wrappers() {
    let t = Todo { id: 9, title: String::from("t"), desc: String::from("d"), is_done: true };
    let u = t.copied();
    assert_eq!((u.id, u.title.as_str(), u.desc.as_str(), u.is_done), (9, "t", "d", true));
    let ip = SocketIPAddr::new(String::from("127.0.0.1"));
    assert_eq!(ip.ip(), "127.0.0.1");
    let e = ErrorRes::new(String::from("Todo not found"));
    assert_eq!(e.message(), "Todo not found");
}
