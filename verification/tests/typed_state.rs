use reust::component::counter::{CounterComponent, CounterComponentState};
use reust::component::{TextComponent, TextState};
use reust::engine::{
    new_state_store, render_app, El, RenderedEl, StateReceiver, StateReceiverDefault, StateStore,
};
use reust::frontend::text::TextNode;
use std::rc::Rc;

fn downcast(state: &TextState) -> Option<CounterComponentState> {
    <CounterComponent as StateReceiver<TextState, CounterComponentState>>::downcast(state)
}

fn a_counter() -> CounterComponent {
    CounterComponent { initial_counter: 26, increment: 1 }
}

#[test]
fn the_downcast_yields_the_components_own_state() {
    let state = TextState::Counter(CounterComponentState { num: 12 });
    let own = downcast(&state);
    assert_eq!(own.map(|s| s.num), Some(12));
}

#[test]
fn the_downcast_of_another_type_yields_nothing() {
    let own = downcast(&TextState::Unit);
    assert!(own.is_none());
}

#[test]
fn receive_state_returns_the_own_state() {
    let state = Rc::new(TextState::Counter(CounterComponentState { num: 12 }));
    match a_counter().receive_state(state) {
        Ok(own) => assert_eq!(own.num, 12),
        Err(_) => panic!("the state is a counter's"),
    }
}

#[test]
fn receive_state_rc_returns_the_own_state() {
    let state = Rc::new(TextState::Counter(CounterComponentState { num: -3 }));
    match a_counter().receive_state_rc(state) {
        Ok(own) => assert_eq!(own.num, -3),
        Err(_) => panic!("the state is a counter's"),
    }
}

#[test]
fn receive_state_hands_a_foreign_state_back_untouched() {
    let state = Rc::new(TextState::Unit);
    match a_counter().receive_state(Rc::clone(&state)) {
        Ok(_) => panic!("the state is not a counter's"),
        Err(e) => {
            assert!(Rc::ptr_eq(&e, &state));
            assert!(matches!(*e, TextState::Unit));
        }
    }
}

#[test]
fn receive_state_rc_hands_a_foreign_state_back_untouched() {
    let state = Rc::new(TextState::Unit);
    match a_counter().receive_state_rc(Rc::clone(&state)) {
        Ok(_) => panic!("the state is not a counter's"),
        Err(e) => assert!(Rc::ptr_eq(&e, &state)),
    }
}

#[test]
fn must_receive_state_returns_the_own_state() {
    let state = Rc::new(TextState::Counter(CounterComponentState { num: 99 }));
    assert_eq!(a_counter().must_receive_state(Rc::clone(&state)).num, 99);
    assert_eq!(a_counter().must_receive_state_rc(state).num, 99);
}

#[test]
fn a_foreign_state_at_its_path_does_not_corrupt_a_counter() {
    let mut store: StateStore<TextState> = new_state_store();
    store.set("/0~CounterComponent", Rc::new(TextState::Unit));
    let el: El<TextNode, TextComponent> =
        El::Component(Box::new(TextComponent::Counter(a_counter())));
    let rendered = render_app(&el, &mut store);
    match rendered {
        RenderedEl::Node(n) => assert_eq!(n.payload.text, "The counter is: 26"),
        _ => panic!("the counter renders to a node"),
    }
    match store.get("/0~CounterComponent").map(|s| *s) {
        Some(TextState::Counter(s)) => assert_eq!(s.num, 27),
        _ => panic!("the counter has stored its own state"),
    }
}
