//! The root of the text demonstration: a header, two counters and a footer.

use crate::component::counter::CounterComponent;
use crate::component::TextComponent;
use crate::engine::{el_rank, lemma_node_view, lemma_rank_of_first_below, views, El, ElView};
use crate::frontend::text::{node, TextNode};
use vstd::prelude::*;

verus! {

pub struct AppComponent {
    pub increment: i32,
}

impl AppComponent {
    /// The first counter of the application.
    pub open spec fn upper_counter(&self) -> TextComponent {
        TextComponent::Counter(CounterComponent { initial_counter: 26, increment: self.increment })
    }

    /// The second counter of the application, below the separator.
    pub open spec fn lower_counter(&self) -> TextComponent {
        TextComponent::Counter(
            CounterComponent { initial_counter: -80i32, increment: self.increment },
        )
    }

    /// What the application renders to: the root line above a header, the
    /// first counter, a separator that holds the second counter, and a
    /// footer.
    pub open spec fn spec_render(&self) -> ElView<Seq<char>, TextComponent> {
        ElView::Node {
            payload: "Root"@,
            children: seq![
                ElView::Node { payload: "# Header A"@, children: Seq::empty() },
                ElView::Component { component: self.upper_counter() },
                ElView::Node {
                    payload: "----------------------------"@,
                    children: seq![ElView::Component { component: self.lower_counter() }],
                },
                ElView::Node { payload: "Ctrl-c to quit"@, children: Seq::empty() },
            ],
        }
    }

    pub fn render(&self) -> (el: El<TextNode, TextComponent>)
        ensures
            el@ == self.spec_render(),
            el_rank(el@) <= 2,
    {
        let header = node("# Header A");
        let upper = El::Component(
            Box::new(
                TextComponent::Counter(
                    CounterComponent { initial_counter: 26, increment: self.increment },
                ),
            ),
        );
        let lower = El::Component(
            Box::new(
                TextComponent::Counter(
                    CounterComponent { initial_counter: -80, increment: self.increment },
                ),
            ),
        );
        let separator = node("----------------------------").add_children(vec![lower]);
        let footer = node("Ctrl-c to quit");
        let root = node("Root").add_children(
            vec![El::Node(header), upper, El::Node(separator), El::Node(footer)],
        );
        proof {
            lemma_node_view(header);
            lemma_node_view(separator);
            lemma_node_view(footer);
            lemma_node_view(root);
            assert(views(header.children@) =~= Seq::empty());
            assert(views(footer.children@) =~= Seq::empty());
            assert(views(separator.children@) =~= seq![lower@]);
            assert(views(root.children@) =~= seq![
                El::Node(header)@,
                upper@,
                El::Node(separator)@,
                El::Node(footer)@,
            ]);
            lemma_rank_of_first_below(views(separator.children@), 1, 2);
            lemma_rank_of_first_below(views(root.children@), 4, 2);
        }
        El::Node(root)
    }
}

} // verus!
