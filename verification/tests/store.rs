use reust::engine::{new_state_store, SetState, StateChange, StateStore};
use std::rc::Rc;

#[test]
fn a_new_store_holds_nothing() {
    let store: StateStore<i32> = new_state_store();
    assert!(store.get("/0~Node").is_none());
    assert!(store.get("").is_none());
}

#[test]
fn get_returns_what_set_stored() {
    let mut store: StateStore<i32> = StateStore::new();
    store.set("/0~Counter", Rc::new(26));
    assert_eq!(store.get("/0~Counter").map(|s| *s), Some(26));
    assert!(store.get("/1~Counter").is_none());
}

#[test]
fn set_overwrites_the_entry() {
    let mut store: StateStore<i32> = StateStore::new();
    store.set("/0~Counter", Rc::new(26));
    store.set("/0~Counter", Rc::new(27));
    assert_eq!(store.get("/0~Counter").map(|s| *s), Some(27));
}

#[test]
fn entries_at_different_paths_are_apart() {
    let mut store: StateStore<i32> = StateStore::new();
    store.set("/0~Counter", Rc::new(1));
    store.set("/1~Counter", Rc::new(2));
    store.set("/0~Counter", Rc::new(3));
    assert_eq!(store.get("/0~Counter").map(|s| *s), Some(3));
    assert_eq!(store.get("/1~Counter").map(|s| *s), Some(2));
}

#[test]
fn get_shares_the_stored_value() {
    let mut store: StateStore<String> = StateStore::new();
    let state = Rc::new(String::from("kept"));
    store.set("/0~A", Rc::clone(&state));
    let first = store.get("/0~A").unwrap();
    let second = store.get("/0~A").unwrap();
    assert!(Rc::ptr_eq(&first, &state));
    assert!(Rc::ptr_eq(&first, &second));
    assert_eq!(*second, "kept");
}

#[test]
fn a_callback_keeps_the_latest_request() {
    let mut set_state: SetState<i32> = SetState::new("/0~Counter");
    set_state.set(Rc::new(5));
    set_state.set(Rc::new(6));
    assert_eq!(set_state.take().map(|s| *s), Some(6));
}

#[test]
fn a_callback_without_request_yields_nothing() {
    let set_state: SetState<i32> = SetState::new("/0~Counter");
    assert!(set_state.take().is_none());
}

#[test]
fn a_bound_change_overwrites_its_own_path() {
    let mut store: StateStore<i32> = StateStore::new();
    store.set("/0~Counter", Rc::new(1));
    store.set("/1~Counter", Rc::new(10));
    let set_state: SetState<i32> = SetState::new("/0~Counter");
    let change = set_state.bind(Rc::new(2));
    assert_eq!(change.path, "/0~Counter");
    assert_eq!(*change.state, 2);
    change.apply(&mut store);
    assert_eq!(store.get("/0~Counter").map(|s| *s), Some(2));
    assert_eq!(store.get("/1~Counter").map(|s| *s), Some(10));
}

#[test]
fn a_change_creates_a_missing_entry() {
    let mut store: StateStore<i32> = StateStore::new();
    let change = StateChange { path: String::from("/4~X"), state: Rc::new(9) };
    change.apply(&mut store);
    assert_eq!(store.get("/4~X").map(|s| *s), Some(9));
}
