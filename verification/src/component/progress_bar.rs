//! A bar for the terminal frontend that is as wide as a percentage is large.

use crate::engine::{lemma_node_view, views, El, ElView, Node};
use crate::frontend::tui::{default_cell, Position, TUINode, TUINodeView};
use crate::path::{push_signed_decimal, signed_decimal};
use vstd::prelude::*;

verus! {

pub struct ProgressBarProps {
    pub pos: Position,
    pub percent: i32,
}

/// The text of a bar: the percentage and a percent sign.
pub open spec fn progress_text(percent: i32) -> Seq<char> {
    signed_decimal(percent as int) + " %"@
}

/// The width of a bar: one column for each percent, none below zero; the
/// count wraps around at the bounds of `u16`.
pub open spec fn progress_width(percent: i32) -> u16 {
    if percent <= 0 {
        0
    } else {
        (percent % 0x1_0000) as u16
    }
}

/// The cell of a bar: bordered, three rows high, as wide as the percentage.
pub open spec fn progress_cell<S>(left: u16, top: u16, percent: i32) -> TUINodeView<S> {
    TUINodeView {
        left,
        top,
        text: Some(progress_text(percent)),
        border: true,
        width: progress_width(percent),
        height: 3,
        ..default_cell::<S>()
    }
}

/// A progress bar: one childless bordered cell that shows the percentage.
pub fn progress_bar<S, C>(props: ProgressBarProps) -> (el: El<TUINode<S>, C>)
    ensures
        el@ == (ElView::<TUINodeView<S>, C>::Node {
            payload: progress_cell::<S>(props.pos.left, props.pos.top, props.percent),
            children: Seq::empty(),
        }),
{
    let mut text = String::new();
    push_signed_decimal(&mut text, props.percent as i64);
    text.append(" %");
    assert(text@ =~= progress_text(props.percent));
    let width: u16 = if props.percent <= 0 {
        0
    } else {
        (props.percent % 0x1_0000) as u16
    };
    let n = Node::new(
        TUINode::new(props.pos.left, props.pos.top).set_text(Some(text)).set_border(
            true,
        ).set_dimension(width, 3),
    );
    proof {
        lemma_node_view::<TUINode<S>, C>(n);
        assert(views(n.children@) =~= Seq::<ElView<TUINodeView<S>, C>>::empty());
    }
    El::Node(n)
}

} // verus!
