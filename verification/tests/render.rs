use reust::component::app::AppComponent;
use reust::component::counter::{CounterComponent, CounterComponentState};
use reust::component::leaf::LeafComponent;
use reust::component::{TextComponent, TextState};
use reust::engine::{
    new_state_store, render, render_app, render_children, render_container, render_node,
    render_stateful_component, El, Node, RenderedEl, StateStore,
};
use reust::frontend::text::{node, TextNode};
use std::rc::Rc;

type TextEl = El<TextNode, TextComponent>;

fn line(text: &str) -> TextEl {
    El::Node(node(text))
}

fn counter(initial_counter: i32, increment: i32) -> TextEl {
    El::Component(Box::new(TextComponent::Counter(CounterComponent { initial_counter, increment })))
}

fn collect(rendered: &RenderedEl<TextNode>, paths: &mut Vec<String>, texts: &mut Vec<String>) {
    match rendered {
        RenderedEl::Empty => {}
        RenderedEl::Node(n) => {
            paths.push(n.path.clone());
            texts.push(n.payload.text.clone());
            for child in &n.children {
                collect(child, paths, texts);
            }
        }
        RenderedEl::Container(elements) => {
            for child in elements {
                collect(child, paths, texts);
            }
        }
    }
}

fn paths_of(rendered: &RenderedEl<TextNode>) -> Vec<String> {
    let mut paths = Vec::new();
    let mut texts = Vec::new();
    collect(rendered, &mut paths, &mut texts);
    paths
}

fn texts_of(rendered: &RenderedEl<TextNode>) -> Vec<String> {
    let mut paths = Vec::new();
    let mut texts = Vec::new();
    collect(rendered, &mut paths, &mut texts);
    texts
}

fn stored_number(store: &StateStore<TextState>, path: &str) -> Option<i32> {
    match store.get(path) {
        Some(state) => match *state {
            TextState::Counter(CounterComponentState { num }) => Some(num),
            TextState::Unit => None,
        },
        None => None,
    }
}

fn static_tree() -> TextEl {
    El::Node(
        node("root")
            .add_child(line("a"))
            .add_child(El::Empty)
            .add_child(El::Container(vec![line("b"), El::Node(node("c").add_child(line("d")))]))
            .add_child(line("e")),
    )
}

#[test]
fn nothing_renders_to_nothing() {
    let mut store = new_state_store();
    let el: TextEl = El::Empty;
    let rendered = render_app(&el, &mut store);
    assert!(matches!(rendered, RenderedEl::Empty));
}

#[test]
fn a_node_gets_the_root_path() {
    let mut store = new_state_store();
    let rendered = render_app(&line("only"), &mut store);
    match rendered {
        RenderedEl::Node(n) => {
            assert_eq!(n.path, "/0~Node");
            assert_eq!(n.payload.text, "only");
            assert!(n.children.is_empty());
        }
        _ => panic!("a node renders to a node"),
    }
}

#[test]
fn the_payload_is_shared_not_copied() {
    let mut store = new_state_store();
    let el = line("shared");
    let rendered = render_app(&el, &mut store);
    match (&el, &rendered) {
        (El::Node(declared), RenderedEl::Node(resolved)) => {
            assert!(Rc::ptr_eq(&declared.payload, &resolved.payload));
        }
        _ => panic!("a node renders to a node"),
    }
}

#[test]
fn children_are_indexed_in_declaration_order() {
    let mut store = new_state_store();
    let rendered = render_app(&static_tree(), &mut store);
    assert_eq!(
        paths_of(&rendered),
        vec![
            "/0~Node",
            "/0~Node/0~Node",
            "/0~Node/2~Container/0~Node",
            "/0~Node/2~Container/1~Node",
            "/0~Node/2~Container/1~Node/0~Node",
            "/0~Node/3~Node",
        ]
    );
    assert_eq!(texts_of(&rendered), vec!["root", "a", "b", "c", "d", "e"]);
}

#[test]
fn the_shape_of_the_tree_is_kept() {
    let mut store = new_state_store();
    let rendered = render_app(&static_tree(), &mut store);
    match rendered {
        RenderedEl::Node(root) => {
            assert_eq!(root.children.len(), 4);
            assert!(matches!(root.children[0], RenderedEl::Node(_)));
            assert!(matches!(root.children[1], RenderedEl::Empty));
            match &root.children[2] {
                RenderedEl::Container(elements) => assert_eq!(elements.len(), 2),
                _ => panic!("a container renders to a container"),
            }
            assert!(matches!(root.children[3], RenderedEl::Node(_)));
        }
        _ => panic!("a node renders to a node"),
    }
}

#[test]
fn a_static_tree_renders_the_same_twice() {
    let mut store = new_state_store();
    let first = render_app(&static_tree(), &mut store);
    let second = render_app(&static_tree(), &mut store);
    assert_eq!(paths_of(&first), paths_of(&second));
    assert_eq!(texts_of(&first), texts_of(&second));
}

#[test]
fn a_static_tree_ignores_the_store() {
    let mut empty = new_state_store();
    let mut filled: StateStore<TextState> = new_state_store();
    filled.set("/0~Node", Rc::new(TextState::Unit));
    filled.set("/0~Node/0~Node", Rc::new(TextState::Counter(CounterComponentState { num: 5 })));
    let from_empty = render_app(&static_tree(), &mut empty);
    let from_filled = render_app(&static_tree(), &mut filled);
    assert_eq!(paths_of(&from_empty), paths_of(&from_filled));
    assert_eq!(texts_of(&from_empty), texts_of(&from_filled));
    assert!(empty.get("/0~Node").is_none());
    assert_eq!(stored_number(&filled, "/0~Node/0~Node"), Some(5));
}

#[test]
fn a_component_occupies_a_slot_named_by_its_type() {
    let mut store = new_state_store();
    let rendered = render_app(&counter(1, 1), &mut store);
    assert_eq!(
        paths_of(&rendered),
        vec![
            "/0~CounterComponent/0~Node",
            "/0~CounterComponent/0~Node/0~Node",
            "/0~CounterComponent/0~Node/0~Node/0~LeafComponent/0~Node",
        ]
    );
    assert_eq!(texts_of(&rendered), vec!["The counter is: 1", "Sub element", "The leaf"]);
}

#[test]
fn a_component_keeps_the_sibling_index_for_its_child() {
    let mut store = new_state_store();
    let el: TextEl = El::Node(node("root").add_child(line("a")).add_child(counter(1, 1)));
    let rendered = render_app(&el, &mut store);
    let paths = paths_of(&rendered);
    assert_eq!(paths[2], "/0~Node/1~CounterComponent/1~Node");
    assert_eq!(paths[3], "/0~Node/1~CounterComponent/1~Node/0~Node");
}

#[test]
fn the_first_pass_reads_and_stores_the_initial_state() {
    let mut store = new_state_store();
    let leaf = TextComponent::Leaf(LeafComponent { over_100: false });
    let el: TextEl = El::Component(Box::new(leaf));
    assert!(store.get("/0~LeafComponent").is_none());
    let rendered = render_app(&el, &mut store);
    assert_eq!(texts_of(&rendered), vec!["The leaf"]);
    assert!(matches!(store.get("/0~LeafComponent").map(|s| *s), Some(TextState::Unit)));
}

#[test]
fn the_first_pass_shows_the_initial_counter() {
    let mut store = new_state_store();
    let rendered = render_app(&counter(41, 3), &mut store);
    assert_eq!(texts_of(&rendered)[0], "The counter is: 41");
}

#[test]
fn a_requested_state_is_stored_and_read_by_the_next_pass() {
    let mut store = new_state_store();
    let _ = render_app(&counter(41, 3), &mut store);
    assert_eq!(stored_number(&store, "/0~CounterComponent"), Some(44));
    let second = render_app(&counter(41, 3), &mut store);
    assert_eq!(texts_of(&second)[0], "The counter is: 44");
    assert_eq!(stored_number(&store, "/0~CounterComponent"), Some(47));
}

#[test]
fn a_stored_state_wins_over_the_initial_one() {
    let mut store: StateStore<TextState> = new_state_store();
    store.set(
        "/0~CounterComponent",
        Rc::new(TextState::Counter(CounterComponentState { num: 7 })),
    );
    let rendered = render_app(&counter(41, 3), &mut store);
    assert_eq!(texts_of(&rendered)[0], "The counter is: 7");
    assert_eq!(stored_number(&store, "/0~CounterComponent"), Some(10));
}

#[test]
fn counter_shows_twelve_consecutive_values() {
    let mut store = new_state_store();
    let mut shown = Vec::new();
    for _ in 0..12 {
        let rendered = render_app(&counter(26, 1), &mut store);
        shown.push(texts_of(&rendered)[0].clone());
    }
    assert_eq!(
        shown,
        vec![
            "The counter is: 26",
            "The counter is: 27",
            "The counter is: 28",
            "The counter is: 29",
            "30 IS %10!; skipping!",
            "The counter is: 31",
            "The counter is: 32",
            "The counter is: 33",
            "The counter is: 34",
            "The counter is: 35",
            "The counter is: 36",
            "The counter is: 37",
        ]
    );
}

#[test]
fn a_skipping_counter_has_no_children() {
    let mut store = new_state_store();
    let rendered = render_app(&counter(30, 1), &mut store);
    assert_eq!(paths_of(&rendered), vec!["/0~CounterComponent/0~Node"]);
    assert_eq!(texts_of(&rendered), vec!["30 IS %10!; skipping!"]);
}

#[test]
fn a_negative_multiple_of_ten_skips_too() {
    let mut store = new_state_store();
    let rendered = render_app(&counter(-80, 1), &mut store);
    assert_eq!(texts_of(&rendered), vec!["-80 IS %10!; skipping!"]);
}

#[test]
fn the_leaf_knows_when_the_counter_is_over_100() {
    let mut store = new_state_store();
    let rendered = render_app(&counter(101, 1), &mut store);
    assert_eq!(
        texts_of(&rendered),
        vec!["The counter is: 101", "Sub element", "It's OVER 9000! (jk 100)"]
    );
}

#[test]
fn the_counter_wraps_around() {
    let mut store = new_state_store();
    let _ = render_app(&counter(i32::MAX, 1), &mut store);
    assert_eq!(stored_number(&store, "/0~CounterComponent"), Some(i32::MIN));
}

#[test]
fn siblings_of_one_type_keep_their_states_apart() {
    let mut store = new_state_store();
    let build = || -> TextEl {
        El::Container(vec![counter(1, 1), counter(1001, 2), counter(5, 0)])
    };
    for _ in 0..3 {
        let _ = render_app(&build(), &mut store);
    }
    let rendered = render_app(&build(), &mut store);
    let texts = texts_of(&rendered);
    assert!(texts.contains(&String::from("The counter is: 4")));
    assert!(texts.contains(&String::from("The counter is: 1007")));
    assert!(texts.contains(&String::from("The counter is: 5")));
    assert_eq!(stored_number(&store, "/0~Container/0~CounterComponent"), Some(5));
    assert_eq!(stored_number(&store, "/0~Container/1~CounterComponent"), Some(1009));
    assert_eq!(stored_number(&store, "/0~Container/2~CounterComponent"), Some(5));
}

#[test]
fn a_sibling_that_comes_and_goes_leaves_the_other_alone() {
    let mut alone = new_state_store();
    let mut together = new_state_store();
    for _ in 0..4 {
        let _ = render_app(&El::Container(vec![counter(1, 1)]), &mut alone);
        let _ = render_app(&El::Container(vec![counter(1, 1), counter(50, 7)]), &mut together);
    }
    assert_eq!(
        stored_number(&alone, "/0~Container/0~CounterComponent"),
        stored_number(&together, "/0~Container/0~CounterComponent")
    );
    assert_eq!(stored_number(&together, "/0~Container/0~CounterComponent"), Some(5));
    assert_eq!(stored_number(&together, "/0~Container/1~CounterComponent"), Some(78));
}

#[test]
fn a_component_that_is_gone_leaves_a_stale_entry() {
    let mut store = new_state_store();
    let _ = render_app(&El::Container(vec![counter(1, 1)]), &mut store);
    let _ = render_app(&El::Container(vec![line("instead")]), &mut store);
    assert_eq!(stored_number(&store, "/0~Container/0~CounterComponent"), Some(2));
}

#[test]
fn a_container_keeps_the_payloads_and_changes_the_paths() {
    let grouped: TextEl = El::Node(
        node("root")
            .add_child(line("a"))
            .add_child(El::Container(vec![line("b"), line("c")]))
            .add_child(line("d")),
    );
    let inlined: TextEl = El::Node(
        node("root")
            .add_child(line("a"))
            .add_child(line("b"))
            .add_child(line("c"))
            .add_child(line("d")),
    );
    let mut store = new_state_store();
    let with_container = render_app(&grouped, &mut store);
    let without = render_app(&inlined, &mut store);
    assert_eq!(texts_of(&with_container), texts_of(&without));
    assert_eq!(texts_of(&with_container), vec!["root", "a", "b", "c", "d"]);
    let grouped_paths = paths_of(&with_container);
    let inlined_paths = paths_of(&without);
    assert_eq!(grouped_paths[2], "/0~Node/1~Container/0~Node");
    assert_eq!(inlined_paths[2], "/0~Node/1~Node");
    assert_ne!(grouped_paths[2], inlined_paths[2]);
    assert_ne!(grouped_paths[3], inlined_paths[3]);
    assert!(!inlined_paths.contains(&grouped_paths[2]));
    assert!(!inlined_paths.contains(&grouped_paths[3]));
}

#[test]
fn the_application_renders_header_counters_and_footer() {
    let mut store = new_state_store();
    let el: TextEl = El::Component(Box::new(TextComponent::App(AppComponent { increment: 1 })));
    let rendered = render_app(&el, &mut store);
    assert_eq!(
        texts_of(&rendered),
        vec![
            "Root",
            "# Header A",
            "The counter is: 26",
            "Sub element",
            "The leaf",
            "----------------------------",
            "-80 IS %10!; skipping!",
            "Ctrl-c to quit",
        ]
    );
    assert_eq!(stored_number(&store, "/0~AppComponent/0~Node/1~CounterComponent"), Some(27));
    assert_eq!(
        stored_number(&store, "/0~AppComponent/0~Node/2~Node/0~CounterComponent"),
        Some(-79)
    );
    let second = render_app(&el, &mut store);
    assert_eq!(texts_of(&second)[2], "The counter is: 27");
    assert_eq!(texts_of(&second)[6], "The counter is: -79");
}

#[test]
fn no_two_nodes_of_a_pass_share_a_path() {
    let mut store = new_state_store();
    let el: TextEl = El::Container(vec![
        El::Component(Box::new(TextComponent::App(AppComponent { increment: 3 }))),
        El::Component(Box::new(TextComponent::App(AppComponent { increment: 3 }))),
        static_tree(),
        counter(1, 1),
        static_tree(),
    ]);
    let rendered = render_app(&el, &mut store);
    let paths = paths_of(&rendered);
    assert_eq!(paths.len(), 8 + 8 + 6 + 3 + 6);
    for i in 0..paths.len() {
        for j in (i + 1)..paths.len() {
            assert_ne!(paths[i], paths[j]);
        }
    }
    for path in &paths {
        assert!(path.starts_with("/0~Container/"));
    }
}

#[test]
fn the_application_puts_its_counters_at_their_own_paths() {
    let mut store = new_state_store();
    let el: TextEl = El::Component(Box::new(TextComponent::App(AppComponent { increment: 1 })));
    let rendered = render_app(&el, &mut store);
    assert_eq!(
        paths_of(&rendered),
        vec![
            "/0~AppComponent/0~Node",
            "/0~AppComponent/0~Node/0~Node",
            "/0~AppComponent/0~Node/1~CounterComponent/1~Node",
            "/0~AppComponent/0~Node/1~CounterComponent/1~Node/0~Node",
            "/0~AppComponent/0~Node/1~CounterComponent/1~Node/0~Node/0~LeafComponent/0~Node",
            "/0~AppComponent/0~Node/2~Node",
            "/0~AppComponent/0~Node/2~Node/0~CounterComponent/0~Node",
            "/0~AppComponent/0~Node/3~Node",
        ]
    );
}

#[test]
fn render_takes_the_parent_path_and_the_sibling_index() {
    let mut store = new_state_store();
    let rendered = render(&line("x"), "/4~Container", 7, &mut store);
    assert_eq!(paths_of(&rendered), vec!["/4~Container/7~Node"]);
}

#[test]
fn render_node_takes_the_nodes_own_path() {
    let mut store = new_state_store();
    let n: Node<TextNode, TextEl> = node("x").add_child(line("y")).add_child(line("z"));
    let rendered = render_node(&n, "/own", 5, &mut store);
    assert_eq!(paths_of(&rendered), vec!["/own", "/own/0~Node", "/own/1~Node"]);
    assert_eq!(texts_of(&rendered), vec!["x", "y", "z"]);
}

#[test]
fn render_container_takes_the_containers_own_path() {
    let mut store = new_state_store();
    let elements: Vec<TextEl> = vec![line("y"), El::Empty, line("z")];
    let rendered = render_container(&elements, "/own", 5, &mut store);
    assert!(matches!(rendered, RenderedEl::Container(_)));
    assert_eq!(paths_of(&rendered), vec!["/own/0~Node", "/own/2~Node"]);
}

#[test]
fn render_children_renders_one_for_one() {
    let mut store = new_state_store();
    let elements: Vec<TextEl> = vec![line("y"), El::Empty, counter(3, 1)];
    let rendered = render_children(&elements, "/own", &mut store);
    assert_eq!(rendered.len(), 3);
    assert!(matches!(rendered[1], RenderedEl::Empty));
    assert_eq!(stored_number(&store, "/own/2~CounterComponent"), Some(4));
}

#[test]
fn render_stateful_component_takes_the_components_own_path() {
    let mut store = new_state_store();
    let c = Box::new(TextComponent::Counter(CounterComponent { initial_counter: 9, increment: 2 }));
    let rendered = render_stateful_component(&c, "/slot", 3, &mut store);
    assert_eq!(texts_of(&rendered)[0], "The counter is: 9");
    assert_eq!(paths_of(&rendered)[0], "/slot/3~Node");
    assert_eq!(stored_number(&store, "/slot"), Some(11));
}
