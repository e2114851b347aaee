//! The plain-text frontend: every node is one line of text, indented by its
//! depth.

use crate::engine::{
    lemma_rendered_views, render_app, render_spec, rendered_views, Component, El, Node,
    RenderedEl, RenderedView, StateStore,
};
use vstd::prelude::*;

verus! {

/// The payload of the text frontend: one line of text.
#[derive(Clone)]
pub struct TextNode {
    pub text: String,
}

impl View for TextNode {
    type V = Seq<char>;

    open spec fn view(&self) -> Seq<char> {
        self.text@
    }
}

impl TextNode {
    /// A line that reads `text`.
    pub fn new(text: &str) -> (line: Self)
        ensures
            line@ == text@,
    {
        Self { text: String::from_str(text) }
    }
}

/// A childless node that carries the line `text`.
pub fn node<C>(text: &str) -> (n: Node<TextNode, El<TextNode, C>>)
    ensures
        (*n.payload)@ == text@,
        n.children@ == Seq::<El<TextNode, C>>::empty(),
{
    Node::new(TextNode::new(text))
}

/// The sequence that moves the cursor home and clears the screen, and the
/// line break that follows it.
pub open spec fn clear_screen_spec() -> Seq<char> {
    seq!['\x1b', '[', '0', ';', '0', 'H', '\x1b', '[', '2', 'J', '\n']
}

/// One level of indentation.
pub open spec fn indent_step() -> Seq<char> {
    seq![' ', ' ', ' ', ' ']
}

/// The text that `e` is drawn as below the indentation `indent`: a node is
/// its line, indented, and then its children one level deeper; a container is
/// its elements at its own level.
pub open spec fn draw_element_spec(e: RenderedView<Seq<char>>, indent: Seq<char>) -> Seq<char>
    decreases e, 0nat,
{
    match e {
        RenderedView::Empty => Seq::empty(),
        RenderedView::Node { path, payload, children } => indent + payload + seq!['\n']
            + draw_elements_spec(children, children.len(), indent + indent_step()),
        RenderedView::Container { elements } => draw_elements_spec(
            elements,
            elements.len(),
            indent,
        ),
    }
}

/// The text that the first `n` elements of `els` are drawn as, in order.
pub open spec fn draw_elements_spec(
    els: Seq<RenderedView<Seq<char>>>,
    n: nat,
    indent: Seq<char>,
) -> Seq<char>
    decreases els, n,
{
    if n == 0 || n > els.len() {
        Seq::empty()
    } else {
        draw_elements_spec(els, (n - 1) as nat, indent) + draw_element_spec(els[n - 1], indent)
    }
}

/// The whole frame that `e` is drawn as: the screen cleared, then the tree.
pub open spec fn draw_graph_spec(e: RenderedView<Seq<char>>) -> Seq<char> {
    clear_screen_spec() + draw_element_spec(e, Seq::empty())
}

fn clear_screen(out: &mut String)
    ensures
        final(out)@ == old(out)@ + clear_screen_spec(),
{
    proof {
        reveal_strlit("\x1b[0;0H\x1b[2J\n");
    }
    out.append("\x1b[0;0H\x1b[2J\n");
    assert(out@ =~= old(out)@ + clear_screen_spec());
}

fn draw_elements(els: &Vec<RenderedEl<TextNode>>, indent: &str, out: &mut String)
    ensures
        final(out)@ == old(out)@ + draw_elements_spec(rendered_views(els@), els@.len(), indent@),
    decreases rendered_views(els@), 0nat,
{
    let mut i: usize = 0;
    proof {
        lemma_rendered_views(els@);
        assert(out@ =~= old(out)@ + draw_elements_spec(rendered_views(els@), 0, indent@));
    }
    while i < els.len()
        invariant
            i <= els.len(),
            rendered_views(els@).len() == els@.len(),
            forall|k: int| 0 <= k < els@.len() ==> (#[trigger] rendered_views(els@)[k]) == els@[k]@,
            out@ == old(out)@ + draw_elements_spec(rendered_views(els@), i as nat, indent@),
        decreases els.len() - i,
    {
        assert(rendered_views(els@)[i as int] == els@[i as int]@);
        draw_element(&els[i], indent, out);
        i += 1;
        assert(out@ =~= old(out)@ + draw_elements_spec(rendered_views(els@), i as nat, indent@));
    }
}

fn draw_element(e: &RenderedEl<TextNode>, indent: &str, out: &mut String)
    ensures
        final(out)@ == old(out)@ + draw_element_spec(e@, indent@),
    decreases e@, 1nat,
{
    match e {
        RenderedEl::Empty => {
            assert(out@ =~= old(out)@ + draw_element_spec(e@, indent@));
        },
        RenderedEl::Node(rel) => {
            proof {
                reveal_strlit("\n");
                reveal_strlit("    ");
                lemma_rendered_views(rel.children@);
                assert(e@->Node_children == rendered_views(rel.children@));
                assert(decreases_to!(e@ => rendered_views(rel.children@)));
            }
            out.append(indent);
            out.append(rel.payload.text.as_str());
            out.append("\n");
            let mut deeper = String::from_str(indent);
            deeper.append("    ");
            assert(deeper@ =~= indent@ + indent_step());
            draw_elements(&rel.children, deeper.as_str(), out);
            assert(out@ =~= old(out)@ + draw_element_spec(e@, indent@));
        },
        RenderedEl::Container(cont) => {
            proof {
                lemma_rendered_views(cont@);
                assert(e@->Container_elements == rendered_views(cont@));
                assert(decreases_to!(e@ => rendered_views(cont@)));
            }
            draw_elements(cont, indent, out);
        },
    }
}

/// The frame that shows the resolved tree `e`, as the text to print.
pub fn draw_graph(e: &RenderedEl<TextNode>) -> (frame: String)
    ensures
        frame@ == draw_graph_spec(e@),
{
    proof {
        reveal_strlit("");
        assert(""@ =~= Seq::<char>::empty());
    }
    let mut frame = String::new();
    clear_screen(&mut frame);
    draw_element(e, "", &mut frame);
    assert(frame@ =~= draw_graph_spec(e@));
    frame
}

/// One render pass over the whole tree `el`, drawn: the frame to print.
pub fn run_app<C: Component<TextNode>>(el: &El<TextNode, C>, state_store: &mut StateStore<
    C::State,
>) -> (frame: String)
    ensures
        ({
            let pass = render_spec::<TextNode, C>(
                el@,
                Seq::<char>::empty(),
                0,
                old(state_store)@,
            );
            &&& frame@ == draw_graph_spec(pass.0)
            &&& final(state_store)@ == pass.1
        }),
{
    let rendered = render_app(el, state_store);
    draw_graph(&rendered)
}

} // verus!
