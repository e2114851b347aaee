//! The terminal demonstration: a greeting above a button that counts the
//! clicks on it.

use crate::engine::{
    el_rank, lemma_node_view, lemma_rank_of_first_below, lemma_rank_of_first_bounds, views,
    Component, El, ElView, KnowsType, Node, SetState, StateReceiver, StateReceiverDefault,
};
use crate::frontend::tui::{default_cell, TUINode, TUINodeView};
use crate::path::{push_signed_decimal, signed_decimal};
use std::rc::Rc;
use vstd::prelude::*;

verus! {

/// A button that shows how often it was clicked.
pub struct Counter {}

/// The state of the button: the number of clicks so far.
#[derive(Clone, Copy)]
pub struct CounterState {
    pub counter: i32,
}

impl StateReceiver<CounterState, CounterState> for Counter {
    open spec fn spec_downcast(state: CounterState) -> Option<CounterState> {
        Some(state)
    }

    fn downcast(state: &CounterState) -> (own: Option<CounterState>) {
        Some(*state)
    }
}

/// The text on the button after `counter` clicks.
pub open spec fn button_text(counter: i32) -> Seq<char> {
    "Le bouton ("@ + signed_decimal(counter as int) + ")"@
}

/// The cell of the button after `counter` clicks, rendered at `path`: a
/// click on it stores the next number there, wrapping around at the bounds
/// of `i32`.
pub open spec fn button_cell(counter: i32, path: Seq<char>) -> TUINodeView<CounterState> {
    TUINodeView {
        left: 30,
        top: 30,
        width: 30,
        height: 30,
        border: true,
        text: Some(button_text(counter)),
        on_click: Some((path, CounterState { counter: counter.wrapping_add(1) })),
        ..default_cell::<CounterState>()
    }
}

impl KnowsType for Counter {
    open spec fn spec_type_id(&self) -> Seq<char> {
        "Counter"@
    }

    open spec fn rank(&self) -> nat {
        0
    }

    fn type_id(&self) -> (id: String) {
        String::from_str("Counter")
    }
}

impl Component<TUINode<CounterState>> for Counter {
    type State = CounterState;

    open spec fn spec_initial_state(&self) -> CounterState {
        CounterState { counter: 0 }
    }

    open spec fn spec_render(&self, state: CounterState, path: Seq<char>) -> ElView<
        TUINodeView<CounterState>,
        Counter,
    > {
        ElView::Node { payload: button_cell(state.counter, path), children: Seq::empty() }
    }

    open spec fn spec_next_state(&self, state: CounterState) -> Option<CounterState> {
        None
    }

    fn initial_state(&self) -> (state: Rc<CounterState>) {
        Rc::new(CounterState { counter: 0 })
    }

    fn render(&self, state: Rc<CounterState>, set_state: &mut SetState<CounterState>) -> (el: El<
        TUINode<CounterState>,
        Counter,
    >) {
        let s = self.must_receive_state(state);
        let counter: i32 = s.counter;
        let mut text = String::from_str("Le bouton (");
        push_signed_decimal(&mut text, counter as i64);
        text.append(")");
        assert(text@ =~= button_text(counter));
        let on_click = set_state.bind(Rc::new(CounterState { counter: counter.wrapping_add(1) }));
        let n = Node::new(
            TUINode::new(30, 30).set_text(Some(text)).set_width(30).set_height(30).set_border(
                true,
            ).set_on_click(Some(on_click)),
        );
        proof {
            lemma_node_view::<TUINode<CounterState>, Counter>(n);
            assert(views(n.children@) =~= Seq::<
                ElView<TUINodeView<CounterState>, Counter>,
            >::empty());
        }
        El::Node(n)
    }
}

/// The cell of the greeting.
pub open spec fn greeting_cell() -> TUINodeView<CounterState> {
    TUINodeView {
        left: 10,
        top: 10,
        width: 20,
        height: 3,
        border: true,
        text: Some("Hello, World!"@),
        ..default_cell::<CounterState>()
    }
}

/// The tree of the demonstration: the greeting with the button as its only
/// child.
pub open spec fn app_spec() -> ElView<TUINodeView<CounterState>, Counter> {
    ElView::Node {
        payload: greeting_cell(),
        children: seq![ElView::Component { component: Counter {  } }],
    }
}

/// The tree of the demonstration, built afresh for one pass.
pub fn app() -> (el: El<TUINode<CounterState>, Counter>)
    ensures
        el@ == app_spec(),
        el_rank(el@) == 1,
{
    let button = El::Component(Box::new(Counter {  }));
    let n = Node::new(
        TUINode::new(10, 10).set_text(Some(String::from_str("Hello, World!"))).set_height(
            3,
        ).set_width(20).set_border(true),
    ).add_child(button);
    proof {
        lemma_node_view::<TUINode<CounterState>, Counter>(n);
        assert(views(n.children@) =~= seq![button@]);
        lemma_rank_of_first_below(views(n.children@), 1, 1);
        lemma_rank_of_first_bounds(views(n.children@), 1, 0);
    }
    El::Node(n)
}

} // verus!
