//! A text component that counts: every pass shows the stored number and
//! asks for the next one.

use crate::component::leaf::LeafComponent;
use crate::component::{TextComponent, TextState};
use crate::engine::{
    el_rank, lemma_node_view, lemma_rank_of_first_below, views, El, ElView, SetState,
    StateReceiver, StateReceiverDefault,
};
use crate::frontend::text::{node, TextNode};
use crate::path::{push_signed_decimal, signed_decimal};
use std::rc::Rc;
use vstd::prelude::*;

verus! {

pub struct CounterComponent {
    pub initial_counter: i32,
    pub increment: i32,
}

/// The state of a counter: the number that it shows.
#[derive(Clone, Copy)]
pub struct CounterComponentState {
    pub num: i32,
}

impl StateReceiver<TextState, CounterComponentState> for CounterComponent {
    open spec fn spec_downcast(state: TextState) -> Option<CounterComponentState> {
        match state {
            TextState::Counter(s) => Some(s),
            TextState::Unit => None,
        }
    }

    fn downcast(state: &TextState) -> (own: Option<CounterComponentState>) {
        match state {
            TextState::Counter(s) => Some(*s),
            TextState::Unit => None,
        }
    }
}

/// The line of a counter that stands at a multiple of ten.
pub open spec fn skip_line(counter: int) -> Seq<char> {
    signed_decimal(counter) + " IS %10!; skipping!"@
}

/// The line of a counter that stands anywhere else.
pub open spec fn counter_line(counter: int) -> Seq<char> {
    "The counter is: "@ + signed_decimal(counter)
}

impl CounterComponent {
    /// The state of a counter that was never rendered: its initial number.
    pub open spec fn spec_initial_state(&self) -> TextState {
        TextState::Counter(CounterComponentState { num: self.initial_counter })
    }

    /// The number that the counter shows in `state`: the stored number, or
    /// the initial one where the store holds a state of another type.
    pub open spec fn spec_counter(&self, state: TextState) -> i32 {
        match state {
            TextState::Counter(s) => s.num,
            TextState::Unit => self.initial_counter,
        }
    }

    /// The state that the counter asks for while it renders in `state`: the
    /// number shown plus the increment, wrapping around at the bounds of
    /// `i32`.
    pub open spec fn spec_next_state(&self, state: TextState) -> TextState {
        TextState::Counter(
            CounterComponentState { num: self.spec_counter(state).wrapping_add(self.increment) },
        )
    }

    /// What the counter renders to in `state`: at a multiple of ten one line
    /// that says so, else the line with the number above a sub-element that
    /// holds a leaf.
    pub open spec fn spec_render(&self, state: TextState) -> ElView<Seq<char>, TextComponent> {
        let counter = self.spec_counter(state);
        if counter as int % 10 == 0 {
            ElView::Node { payload: skip_line(counter as int), children: Seq::empty() }
        } else {
            ElView::Node {
                payload: counter_line(counter as int),
                children: seq![
                    ElView::Node {
                        payload: "Sub element"@,
                        children: seq![
                            ElView::Component {
                                component: TextComponent::Leaf(
                                    LeafComponent { over_100: counter > 100 },
                                ),
                            },
                        ],
                    },
                ],
            }
        }
    }

    pub fn initial_state(&self) -> (state: Rc<TextState>)
        ensures
            *state == self.spec_initial_state(),
    {
        Rc::new(TextState::Counter(CounterComponentState { num: self.initial_counter }))
    }

    pub fn render(&self, state: Rc<TextState>, set_state: &mut SetState<TextState>) -> (el: El<
        TextNode,
        TextComponent,
    >)
        ensures
            el@ == self.spec_render(*state),
            final(set_state).path() == old(set_state).path(),
            final(set_state).requested() == Some(self.spec_next_state(*state)),
            el_rank(el@) <= 1,
    {
        let counter: i32 = match self.receive_state(state) {
            Ok(own) => own.num,
            Err(_) => self.initial_counter,
        };
        set_state.set(
            Rc::new(
                TextState::Counter(
                    CounterComponentState { num: counter.wrapping_add(self.increment) },
                ),
            ),
        );
        if counter % 10 == 0 {
            let mut line = String::new();
            push_signed_decimal(&mut line, counter as i64);
            line.append(" IS %10!; skipping!");
            assert(line@ =~= skip_line(counter as int));
            let n = node(line.as_str());
            proof {
                lemma_node_view(n);
                assert(views(n.children@) =~= Seq::empty());
            }
            El::Node(n)
        } else {
            let mut line = String::from_str("The counter is: ");
            push_signed_decimal(&mut line, counter as i64);
            let leaf = El::Component(
                Box::new(TextComponent::Leaf(LeafComponent { over_100: counter > 100 })),
            );
            let sub = node("Sub element").add_child(leaf);
            let top = node(line.as_str()).add_child(El::Node(sub));
            proof {
                lemma_node_view(sub);
                lemma_node_view(top);
                assert(views(sub.children@) =~= seq![leaf@]);
                assert(views(top.children@) =~= seq![El::Node(sub)@]);
                lemma_rank_of_first_below(views(sub.children@), 1, 1);
                lemma_rank_of_first_below(views(top.children@), 1, 1);
            }
            El::Node(top)
        }
    }
}

} // verus!
