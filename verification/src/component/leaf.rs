//! The innermost text component: one line that says whether the counter
//! above it has passed 100.

use crate::component::TextComponent;
use crate::engine::{el_rank, lemma_node_view, El, ElView};
use crate::frontend::text::{node, TextNode};
use vstd::prelude::*;

verus! {

pub struct LeafComponent {
    pub over_100: bool,
}

impl LeafComponent {
    /// The line that the leaf shows.
    pub open spec fn spec_text(&self) -> Seq<char> {
        if self.over_100 {
            "It's OVER 9000! (jk 100)"@
        } else {
            "The leaf"@
        }
    }

    /// What the leaf renders to: a single childless line.
    pub open spec fn spec_render(&self) -> ElView<Seq<char>, TextComponent> {
        ElView::Node { payload: self.spec_text(), children: Seq::empty() }
    }

    pub fn render(&self) -> (el: El<TextNode, TextComponent>)
        ensures
            el@ == self.spec_render(),
            el_rank(el@) == 0,
    {
        let n = if self.over_100 {
            node("It's OVER 9000! (jk 100)")
        } else {
            node("The leaf")
        };
        proof {
            lemma_node_view(n);
            assert(crate::engine::views(n.children@) =~= Seq::empty());
        }
        El::Node(n)
    }
}

} // verus!
