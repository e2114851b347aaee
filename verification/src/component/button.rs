//! A clickable, bordered cell for the terminal frontend.

use crate::engine::{lemma_node_view, views, El, ElView, Node};
use crate::frontend::tui::{
    byte_len, grid_len, handler_view, MouseClickHandler, Position, TUINode, TUINodeView,
};
use vstd::prelude::*;

verus! {

pub struct ButtonProps<S> {
    pub pos: Position,
    pub title: String,
    pub on_click: Option<MouseClickHandler<S>>,
    pub disable: bool,
}

impl<S> Default for ButtonProps<S> {
    fn default() -> (props: Self)
        ensures
            props.pos.left == 0,
            props.pos.top == 0,
            props.title@ == Seq::<char>::empty(),
            !props.disable,
            props.on_click is None,
    {
        ButtonProps {
            pos: Position { left: 0, top: 0 },
            title: String::new(),
            disable: false,
            on_click: None,
        }
    }
}

/// The cell of a button: bordered, five rows high, twelve columns wider than
/// its title has bytes of UTF-8; the count wraps around at the bounds of
/// `u16`.
pub open spec fn button_cell<S>(
    left: u16,
    top: u16,
    title: Seq<char>,
    disable: bool,
    on_click: Option<(Seq<char>, S)>,
) -> TUINodeView<S> {
    TUINodeView {
        left,
        top,
        text: Some(title),
        border: true,
        width: 12u16.wrapping_add(grid_len(title)),
        height: 5,
        disabled: disable,
        on_click,
    }
}

/// A button: one childless cell that shows the title and takes clicks.
pub fn button<S, C>(props: ButtonProps<S>) -> (el: El<TUINode<S>, C>)
    ensures
        el@ == (ElView::<TUINodeView<S>, C>::Node {
            payload: button_cell(
                props.pos.left,
                props.pos.top,
                props.title@,
                props.disable,
                handler_view(props.on_click),
            ),
            children: Seq::empty(),
        }),
{
    let length: usize = byte_len(props.title.as_str());
    let short: u16 = (length % 0x1_0000) as u16;
    let n = Node::new(
        TUINode::new(props.pos.left, props.pos.top).set_text(Some(props.title)).set_border(
            true,
        ).set_dimension(12u16.wrapping_add(short), 5).disable(props.disable).set_on_click(
            props.on_click,
        ),
    );
    proof {
        lemma_node_view::<TUINode<S>, C>(n);
        assert(views(n.children@) =~= Seq::<ElView<TUINodeView<S>, C>>::empty());
    }
    El::Node(n)
}

} // verus!
