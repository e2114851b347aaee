//! The settings demonstration of the terminal frontend: two buttons that
//! move a percentage down and up, the bar that shows it, and a notice at
//! either end of the scale.

use crate::component::button::{button, button_cell, ButtonProps};
use crate::component::header::{header, header_cell, HeaderProps};
use crate::component::progress_bar::{progress_bar, progress_cell, ProgressBarProps};
use crate::engine::{
    el_rank, lemma_container_view, lemma_node_view, lemma_rank_of_first_below,
    lemma_rank_of_first_bounds, views, Component, El, ElView, KnowsType, Node, SetState,
    StateReceiver, StateReceiverDefault,
};
use crate::frontend::tui::{default_cell, MouseClickHandler, Position, TUINode, TUINodeView};
use std::rc::Rc;
use vstd::prelude::*;

verus! {

pub struct SettingsControls {
    pub increment: i32,
}

/// The state of the settings: the percentage.
#[derive(Clone, Copy)]
pub struct SettingsControlsState {
    pub percent: i32,
}

impl StateReceiver<SettingsControlsState, SettingsControlsState> for SettingsControls {
    open spec fn spec_downcast(state: SettingsControlsState) -> Option<SettingsControlsState> {
        Some(state)
    }

    fn downcast(state: &SettingsControlsState) -> (own: Option<SettingsControlsState>) {
        Some(*state)
    }
}

/// The percentage after a click on "Less": down by the increment, and zero
/// where it is not above the increment. The subtraction wraps around at the
/// bounds of `i32`.
pub open spec fn less(percent: i32, increment: i32) -> i32 {
    if percent > increment {
        percent.wrapping_sub(increment)
    } else {
        0
    }
}

/// The percentage after a click on "Moar!": up by the increment, and at
/// most 100. The addition wraps around at the bounds of `i32`.
pub open spec fn more(percent: i32, increment: i32) -> i32 {
    if percent.wrapping_add(increment) > 100 {
        100
    } else {
        percent.wrapping_add(increment)
    }
}

/// The notice at either end of the scale, and nothing in between.
pub open spec fn notice_spec(percent: i32) -> ElView<
    TUINodeView<SettingsControlsState>,
    SettingsControls,
> {
    if percent <= 0 {
        ElView::Node {
            payload: TUINodeView {
                left: 50,
                top: 27,
                text: Some("Can't go lower than 0!"@),
                ..default_cell::<SettingsControlsState>()
            },
            children: Seq::empty(),
        }
    } else if percent >= 100 {
        ElView::Node {
            payload: TUINodeView {
                left: 50,
                top: 27,
                text: Some("You're at the maximum!"@),
                ..default_cell::<SettingsControlsState>()
            },
            children: Seq::empty(),
        }
    } else {
        ElView::Empty
    }
}

/// What the settings render to at the percentage `percent`, with their
/// callback bound to `path`: the two buttons, each disabled at its end of
/// the scale, the bar and the notice.
pub open spec fn settings_spec(percent: i32, increment: i32, path: Seq<char>) -> ElView<
    TUINodeView<SettingsControlsState>,
    SettingsControls,
> {
    ElView::Container {
        elements: seq![
            ElView::Node {
                payload: button_cell(
                    10,
                    10,
                    "Less"@,
                    percent <= 0,
                    Some((path, SettingsControlsState { percent: less(percent, increment) })),
                ),
                children: Seq::empty(),
            },
            ElView::Node {
                payload: button_cell(
                    45,
                    10,
                    "Moar!"@,
                    percent >= 100,
                    Some((path, SettingsControlsState { percent: more(percent, increment) })),
                ),
                children: Seq::empty(),
            },
            ElView::Node {
                payload: progress_cell::<SettingsControlsState>(10, 20, percent),
                children: Seq::empty(),
            },
            notice_spec(percent),
        ],
    }
}

fn handle_on_less(
    state: &SettingsControlsState,
    set_state: &SetState<SettingsControlsState>,
    increment: i32,
) -> (handler: MouseClickHandler<SettingsControlsState>)
    ensures
        handler.path@ == set_state.path(),
        *handler.state == (SettingsControlsState { percent: less(state.percent, increment) }),
{
    set_state.bind(
        Rc::new(
            SettingsControlsState {
                percent: if state.percent > increment {
                    state.percent.wrapping_sub(increment)
                } else {
                    0
                },
            },
        ),
    )
}

fn handle_on_more(
    state: &SettingsControlsState,
    set_state: &SetState<SettingsControlsState>,
    increment: i32,
) -> (handler: MouseClickHandler<SettingsControlsState>)
    ensures
        handler.path@ == set_state.path(),
        *handler.state == (SettingsControlsState { percent: more(state.percent, increment) }),
{
    set_state.bind(
        Rc::new(
            SettingsControlsState {
                percent: if state.percent.wrapping_add(increment) > 100 {
                    100
                } else {
                    state.percent.wrapping_add(increment)
                },
            },
        ),
    )
}

fn notice(percent: i32) -> (el: El<TUINode<SettingsControlsState>, SettingsControls>)
    ensures
        el@ == notice_spec(percent),
{
    if percent <= 0 {
        let n = Node::new(
            TUINode::new(50, 27).set_text(Some(String::from_str("Can't go lower than 0!"))),
        );
        proof {
            lemma_node_view::<TUINode<SettingsControlsState>, SettingsControls>(n);
            assert(views(n.children@) =~= Seq::<
                ElView<TUINodeView<SettingsControlsState>, SettingsControls>,
            >::empty());
        }
        El::Node(n)
    } else if percent >= 100 {
        let n = Node::new(
            TUINode::new(50, 27).set_text(Some(String::from_str("You're at the maximum!"))),
        );
        proof {
            lemma_node_view::<TUINode<SettingsControlsState>, SettingsControls>(n);
            assert(views(n.children@) =~= Seq::<
                ElView<TUINodeView<SettingsControlsState>, SettingsControls>,
            >::empty());
        }
        El::Node(n)
    } else {
        El::Empty
    }
}

impl KnowsType for SettingsControls {
    open spec fn spec_type_id(&self) -> Seq<char> {
        "SettingsControls"@
    }

    open spec fn rank(&self) -> nat {
        0
    }

    fn type_id(&self) -> (id: String) {
        String::from_str("SettingsControls")
    }
}

impl Component<TUINode<SettingsControlsState>> for SettingsControls {
    type State = SettingsControlsState;

    open spec fn spec_initial_state(&self) -> SettingsControlsState {
        SettingsControlsState { percent: 50 }
    }

    open spec fn spec_render(&self, state: SettingsControlsState, path: Seq<char>) -> ElView<
        TUINodeView<SettingsControlsState>,
        SettingsControls,
    > {
        settings_spec(state.percent, self.increment, path)
    }

    open spec fn spec_next_state(&self, state: SettingsControlsState) -> Option<
        SettingsControlsState,
    > {
        None
    }

    fn initial_state(&self) -> (state: Rc<SettingsControlsState>) {
        Rc::new(SettingsControlsState { percent: 50 })
    }

    fn render(
        &self,
        state: Rc<SettingsControlsState>,
        set_state: &mut SetState<SettingsControlsState>,
    ) -> (el: El<TUINode<SettingsControlsState>, SettingsControls>) {
        let state = self.must_receive_state_rc(state);
        let less_button = button(
            ButtonProps {
                pos: Position { left: 10, top: 10 },
                title: String::from_str("Less"),
                disable: state.percent <= 0,
                on_click: Some(handle_on_less(&state, set_state, self.increment)),
            },
        );
        let more_button = button(
            ButtonProps {
                pos: Position { left: 45, top: 10 },
                title: String::from_str("Moar!"),
                disable: state.percent >= 100,
                on_click: Some(handle_on_more(&state, set_state, self.increment)),
            },
        );
        let bar = progress_bar(
            ProgressBarProps { pos: Position { left: 10, top: 20 }, percent: state.percent },
        );
        let end = notice(state.percent);
        let elements = vec![less_button, more_button, bar, end];
        proof {
            lemma_container_view::<TUINode<SettingsControlsState>, SettingsControls>(elements);
            assert(views(elements@) =~= seq![less_button@, more_button@, bar@, end@]);
            lemma_rank_of_first_below(views(elements@), 4, 0);
        }
        El::Container(elements)
    }
}

/// The tree of the settings demonstration.
pub open spec fn app_spec() -> ElView<TUINodeView<SettingsControlsState>, SettingsControls> {
    ElView::Container {
        elements: seq![
            ElView::Node {
                payload: header_cell::<SettingsControlsState>(
                    1,
                    1,
                    "Reactive TUI experiment with Rust"@,
                ),
                children: Seq::empty(),
            },
            ElView::Component { component: SettingsControls { increment: 10 } },
        ],
    }
}

/// The tree of the settings demonstration, built afresh for one pass.
pub fn app() -> (el: El<TUINode<SettingsControlsState>, SettingsControls>)
    ensures
        el@ == app_spec(),
        el_rank(el@) == 1,
{
    let title = header(
        HeaderProps {
            pos: Position { left: 1, top: 1 },
            text: String::from_str("Reactive TUI experiment with Rust"),
        },
    );
    let controls = El::Component(Box::new(SettingsControls { increment: 10 }));
    let elements = vec![title, controls];
    proof {
        lemma_container_view::<TUINode<SettingsControlsState>, SettingsControls>(elements);
        assert(views(elements@) =~= seq![title@, controls@]);
        lemma_rank_of_first_below(views(elements@), 2, 1);
        lemma_rank_of_first_bounds(views(elements@), 2, 1);
    }
    El::Container(elements)
}

} // verus!
