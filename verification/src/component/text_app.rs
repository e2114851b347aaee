//! The plain-text demonstration in one component: a header above a counter
//! that moves on by a fixed step with every pass.

use crate::engine::{
    lemma_container_view, lemma_node_view, lemma_rank_of_first_below, views, Component, El,
    ElView, KnowsType, SetState, StateReceiver, StateReceiverDefault,
};
use crate::frontend::text::{node, TextNode};
use crate::path::{push_signed_decimal, signed_decimal};
use std::rc::Rc;
use vstd::prelude::*;

verus! {

/// The state of the application: the number that it shows.
#[derive(Clone, Copy)]
pub struct AppState {
    pub value: i32,
}

pub struct App {
    pub increment: i32,
}

impl StateReceiver<AppState, AppState> for App {
    open spec fn spec_downcast(state: AppState) -> Option<AppState> {
        Some(state)
    }

    fn downcast(state: &AppState) -> (own: Option<AppState>) {
        Some(*state)
    }
}

/// The line that shows the number.
pub open spec fn value_line(value: i32) -> Seq<char> {
    "The counter is "@ + signed_decimal(value as int)
}

/// What the application renders to at the number `value`: the header above
/// the line with the number, and the footer, side by side in one container.
pub open spec fn app_view(value: i32) -> ElView<Seq<char>, App> {
    ElView::Container {
        elements: seq![
            ElView::Node {
                payload: "# Header A"@,
                children: seq![ElView::Node { payload: value_line(value), children: Seq::empty() }],
            },
            ElView::Node { payload: "Ctrl-c to quit"@, children: Seq::empty() },
        ],
    }
}

impl KnowsType for App {
    open spec fn spec_type_id(&self) -> Seq<char> {
        "App"@
    }

    open spec fn rank(&self) -> nat {
        0
    }

    fn type_id(&self) -> (id: String) {
        String::from_str("App")
    }
}

impl Component<TextNode> for App {
    type State = AppState;

    open spec fn spec_initial_state(&self) -> AppState {
        AppState { value: 0 }
    }

    open spec fn spec_render(&self, state: AppState, path: Seq<char>) -> ElView<Seq<char>, App> {
        app_view(state.value)
    }

    /// The number moves on by the increment, wrapping around at the bounds
    /// of `i32`.
    open spec fn spec_next_state(&self, state: AppState) -> Option<AppState> {
        Some(AppState { value: state.value.wrapping_add(self.increment) })
    }

    fn initial_state(&self) -> (state: Rc<AppState>) {
        Rc::new(AppState { value: 0 })
    }

    fn render(&self, state: Rc<AppState>, set_state: &mut SetState<AppState>) -> (el: El<
        TextNode,
        App,
    >) {
        let state = self.must_receive_state(state);
        set_state.set(Rc::new(AppState { value: state.value.wrapping_add(self.increment) }));
        let mut line = String::from_str("The counter is ");
        push_signed_decimal(&mut line, state.value as i64);
        let shown = El::Node(node(line.as_str()));
        let header = node("# Header A").add_child(shown);
        let footer = node("Ctrl-c to quit");
        let elements = vec![El::Node(header), El::Node(footer)];
        proof {
            lemma_node_view::<TextNode, App>(shown->Node_0);
            lemma_node_view::<TextNode, App>(header);
            lemma_node_view::<TextNode, App>(footer);
            lemma_container_view::<TextNode, App>(elements);
            assert(views(shown->Node_0.children@) =~= Seq::empty());
            assert(views(footer.children@) =~= Seq::empty());
            assert(views(header.children@) =~= seq![shown@]);
            assert(views(elements@) =~= seq![El::Node(header)@, El::Node(footer)@]);
            lemma_rank_of_first_below(views(header.children@), 1, 0);
            lemma_rank_of_first_below(views(elements@), 2, 0);
        }
        El::Container(elements)
    }
}

/// The tree of the demonstration, built afresh for one pass: the
/// application with a step of eight.
pub fn app() -> (el: El<TextNode, App>)
    ensures
        el@ == (ElView::<Seq<char>, App>::Component { component: App { increment: 8 } }),
{
    El::Component(Box::new(App { increment: 8 }))
}

} // verus!
