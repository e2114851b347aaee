use reust::component::counter::CounterComponent;
use reust::component::text_app::{app, App, AppState};
use reust::component::TextComponent;
use reust::engine::{new_state_store, render_app, El, Node, RenderedEl, StateStore};
use std::rc::Rc;
use reust::frontend::text::{draw_graph, node, run_app, TextNode};

type TextEl = El<TextNode, TextComponent>;

const CLEAR: &str = "\x1b[0;0H\x1b[2J\n";

fn line(text: &str) -> TextEl {
    El::Node(node(text))
}

#[test]
fn a_text_node_holds_its_line() {
    assert_eq!(TextNode::new("a line").text, "a line");
    assert_eq!(TextNode::new("").text, "");
}

#[test]
fn node_makes_a_childless_node() {
    let n: Node<TextNode, TextEl> = node("a line");
    assert_eq!(n.payload.text, "a line");
    assert!(n.children.is_empty());
}

#[test]
fn add_child_appends_in_order() {
    let n: Node<TextNode, TextEl> = node("root").add_child(line("a")).add_child(line("b"));
    assert_eq!(n.children.len(), 2);
    match (&n.children[0], &n.children[1]) {
        (El::Node(a), El::Node(b)) => {
            assert_eq!(a.payload.text, "a");
            assert_eq!(b.payload.text, "b");
        }
        _ => panic!("both children are nodes"),
    }
}

#[test]
fn add_children_appends_all_in_order() {
    let n: Node<TextNode, TextEl> =
        node("root").add_child(line("a")).add_children(vec![line("b"), El::Empty, line("c")]);
    assert_eq!(n.children.len(), 4);
    assert!(matches!(n.children[2], El::Empty));
    match &n.children[3] {
        El::Node(c) => assert_eq!(c.payload.text, "c"),
        _ => panic!("the last child is a node"),
    }
}

#[test]
fn nothing_is_drawn_as_a_cleared_screen() {
    let rendered: RenderedEl<TextNode> = RenderedEl::Empty;
    assert_eq!(draw_graph(&rendered), CLEAR);
}

#[test]
fn children_are_indented_by_four_spaces_a_level() {
    let el: TextEl = El::Node(
        node("root")
            .add_child(El::Node(node("a").add_child(line("deep"))))
            .add_child(line("b")),
    );
    let mut store = new_state_store();
    let rendered = render_app(&el, &mut store);
    assert_eq!(
        draw_graph(&rendered),
        format!("{}root\n    a\n        deep\n    b\n", CLEAR)
    );
}

#[test]
fn a_container_is_drawn_at_its_own_level() {
    let el: TextEl = El::Node(
        node("root").add_child(El::Container(vec![line("a"), El::Container(vec![line("b")])])),
    );
    let mut store = new_state_store();
    let rendered = render_app(&el, &mut store);
    assert_eq!(draw_graph(&rendered), format!("{}root\n    a\n    b\n", CLEAR));
}

#[test]
fn run_app_renders_and_draws() {
    let mut store = new_state_store();
    let el: TextEl = El::Component(Box::new(TextComponent::Counter(CounterComponent {
        initial_counter: 26,
        increment: 1,
    })));
    assert_eq!(
        run_app(&el, &mut store),
        format!("{}The counter is: 26\n    Sub element\n        The leaf\n", CLEAR)
    );
    assert_eq!(
        run_app(&el, &mut store),
        format!("{}The counter is: 27\n    Sub element\n        The leaf\n", CLEAR)
    );
}

#[test]
fn the_demonstration_counts_in_steps_of_eight() {
    let mut store = new_state_store();
    assert_eq!(
        run_app(&app(), &mut store),
        format!("{}# Header A\n    The counter is 0\nCtrl-c to quit\n", CLEAR)
    );
    assert_eq!(store.get("/0~App").map(|s| s.value), Some(8));
    assert_eq!(
        run_app(&app(), &mut store),
        format!("{}# Header A\n    The counter is 8\nCtrl-c to quit\n", CLEAR)
    );
    assert_eq!(store.get("/0~App").map(|s| s.value), Some(16));
}

#[test]
fn the_demonstration_renders_to_a_container_below_its_own_path() {
    let mut store = new_state_store();
    let rendered = render_app(&app(), &mut store);
    match rendered {
        RenderedEl::Container(elements) => {
            assert_eq!(elements.len(), 2);
            match (&elements[0], &elements[1]) {
                (RenderedEl::Node(header), RenderedEl::Node(footer)) => {
                    assert_eq!(header.path, "/0~App/0~Container/0~Node");
                    assert_eq!(footer.path, "/0~App/0~Container/1~Node");
                    assert_eq!(header.children.len(), 1);
                    assert!(footer.children.is_empty());
                }
                _ => panic!("both elements are nodes"),
            }
        }
        _ => panic!("the demonstration renders to a container"),
    }
}

#[test]
fn the_demonstration_goes_on_from_the_stored_number() {
    let mut store: StateStore<AppState> = new_state_store();
    store.set("/0~App", Rc::new(AppState { value: -3 }));
    let el: El<TextNode, App> = El::Component(Box::new(App { increment: -5 }));
    assert_eq!(
        run_app(&el, &mut store),
        format!("{}# Header A\n    The counter is -3\nCtrl-c to quit\n", CLEAR)
    );
    assert_eq!(store.get("/0~App").map(|s| s.value), Some(-8));
}
