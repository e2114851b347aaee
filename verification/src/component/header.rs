//! A line of heading for the terminal frontend.

use crate::engine::{lemma_node_view, views, El, ElView, Node};
use crate::frontend::tui::{default_cell, Position, TUINode, TUINodeView};
use vstd::prelude::*;

verus! {

pub struct HeaderProps {
    pub pos: Position,
    pub text: String,
}

/// The text of a heading: the title behind a hash sign.
pub open spec fn header_text(title: Seq<char>) -> Seq<char> {
    "# "@ + title
}

/// The cell of a heading: the heading's text at the given position.
pub open spec fn header_cell<S>(left: u16, top: u16, title: Seq<char>) -> TUINodeView<S> {
    TUINodeView { left, top, text: Some(header_text(title)), ..default_cell::<S>() }
}

/// A heading: one childless cell that shows `# ` and the title.
pub fn header<S, C>(props: HeaderProps) -> (el: El<TUINode<S>, C>)
    ensures
        el@ == (ElView::<TUINodeView<S>, C>::Node {
            payload: header_cell::<S>(props.pos.left, props.pos.top, props.text@),
            children: Seq::empty(),
        }),
{
    let mut text = String::from_str("# ");
    text.append(props.text.as_str());
    let n = Node::new(TUINode::new(props.pos.left, props.pos.top).set_text(Some(text)));
    proof {
        lemma_node_view::<TUINode<S>, C>(n);
        assert(views(n.children@) =~= Seq::<ElView<TUINodeView<S>, C>>::empty());
    }
    El::Node(n)
}

} // verus!
