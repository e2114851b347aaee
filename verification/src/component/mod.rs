//! The components of the demonstrations: the counters of the plain-text
//! frontend, and the buttons, bars and settings of the terminal one.

pub mod app;
pub mod button;
pub mod click_counter;
pub mod counter;
pub mod header;
pub mod leaf;
pub mod progress_bar;
pub mod settings_controls;
pub mod text_app;

use crate::component::app::AppComponent;
use crate::component::counter::{CounterComponent, CounterComponentState};
use crate::component::leaf::LeafComponent;
use crate::engine::{Component, El, ElView, KnowsType, SetState};
use crate::frontend::text::TextNode;
use std::rc::Rc;
use vstd::prelude::*;

verus! {

/// The type-erased state of the text components: what the store keeps for
/// them.
#[derive(Clone, Copy)]
pub enum TextState {
    /// The state of a component that keeps none.
    Unit,
    /// The state of a counter.
    Counter(CounterComponentState),
}

/// The components that may stand in a text tree.
pub enum TextComponent {
    App(AppComponent),
    Counter(CounterComponent),
    Leaf(LeafComponent),
}

impl KnowsType for TextComponent {
    open spec fn spec_type_id(&self) -> Seq<char> {
        match self {
            TextComponent::App(_) => "AppComponent"@,
            TextComponent::Counter(_) => "CounterComponent"@,
            TextComponent::Leaf(_) => "LeafComponent"@,
        }
    }

    open spec fn rank(&self) -> nat {
        match self {
            TextComponent::App(_) => 2,
            TextComponent::Counter(_) => 1,
            TextComponent::Leaf(_) => 0,
        }
    }

    fn type_id(&self) -> (id: String) {
        match self {
            TextComponent::App(_) => String::from_str("AppComponent"),
            TextComponent::Counter(_) => String::from_str("CounterComponent"),
            TextComponent::Leaf(_) => String::from_str("LeafComponent"),
        }
    }
}

impl Component<TextNode> for TextComponent {
    type State = TextState;

    open spec fn spec_initial_state(&self) -> TextState {
        match self {
            TextComponent::App(_) => TextState::Unit,
            TextComponent::Counter(c) => c.spec_initial_state(),
            TextComponent::Leaf(_) => TextState::Unit,
        }
    }

    open spec fn spec_render(&self, state: TextState, path: Seq<char>) -> ElView<
        Seq<char>,
        TextComponent,
    > {
        match self {
            TextComponent::App(c) => c.spec_render(),
            TextComponent::Counter(c) => c.spec_render(state),
            TextComponent::Leaf(c) => c.spec_render(),
        }
    }

    open spec fn spec_next_state(&self, state: TextState) -> Option<TextState> {
        match self {
            TextComponent::App(_) => None,
            TextComponent::Counter(c) => Some(c.spec_next_state(state)),
            TextComponent::Leaf(_) => None,
        }
    }

    fn initial_state(&self) -> (state: Rc<TextState>) {
        match self {
            TextComponent::App(_) => Rc::new(TextState::Unit),
            TextComponent::Counter(c) => c.initial_state(),
            TextComponent::Leaf(_) => Rc::new(TextState::Unit),
        }
    }

    fn render(&self, state: Rc<TextState>, set_state: &mut SetState<TextState>) -> (el: El<
        TextNode,
        TextComponent,
    >) {
        match self {
            TextComponent::App(c) => c.render(),
            TextComponent::Counter(c) => c.render(state, set_state),
            TextComponent::Leaf(c) => c.render(),
        }
    }
}

} // verus!
