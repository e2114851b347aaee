use reust::component::button::{button, ButtonProps};
use reust::component::settings_controls::{app, SettingsControls, SettingsControlsState};
use reust::engine::{new_state_store, render_app, El, Node, RenderedEl, StateChange, StateStore};
use reust::frontend::tui::{draw_graph_with, process_events, InputEvent, Position, TUINode};
use std::rc::Rc;

type Tree = RenderedEl<TUINode<SettingsControlsState>>;

fn cells(rendered: &Tree, out: &mut Vec<(String, Rc<TUINode<SettingsControlsState>>)>) {
    match rendered {
        RenderedEl::Empty => {}
        RenderedEl::Node(n) => {
            out.push((n.path.clone(), Rc::clone(&n.payload)));
            for child in &n.children {
                cells(child, out);
            }
        }
        RenderedEl::Container(elements) => {
            for child in elements {
                cells(child, out);
            }
        }
    }
}

fn texts(rendered: &Tree) -> Vec<String> {
    let mut all = Vec::new();
    cells(rendered, &mut all);
    all.iter().map(|(_, cell)| cell.text.clone().unwrap_or_default()).collect()
}

fn percent(store: &StateStore<SettingsControlsState>) -> Option<i32> {
    store.get("/0~Container/1~SettingsControls").map(|s| s.percent)
}

fn click(
    left: u16,
    top: u16,
    current: &Option<Tree>,
    store: &mut StateStore<SettingsControlsState>,
) {
    assert!(!process_events(&vec![InputEvent::MouseRelease(left, top)], current, store));
}

#[test]
fn button_props_default_to_an_empty_enabled_button() {
    let props: ButtonProps<i32> = ButtonProps::default();
    assert_eq!((props.pos.left, props.pos.top), (0, 0));
    assert_eq!(props.title, "");
    assert!(!props.disable);
    assert!(props.on_click.is_none());
}

#[test]
fn a_button_is_twelve_columns_wider_than_its_title() {
    let el: El<TUINode<i32>, SettingsControls> = button(ButtonProps {
        pos: Position { left: 10, top: 11 },
        title: String::from("Less"),
        on_click: Some(StateChange { path: String::from("/p"), state: Rc::new(3) }),
        disable: true,
    });
    match el {
        El::Node(Node { payload, children }) => {
            assert_eq!(payload.text.as_deref(), Some("Less"));
            assert_eq!((payload.pos.left, payload.pos.top), (10, 11));
            assert_eq!((payload.dim.width, payload.dim.height), (16, 5));
            assert!(payload.style.border);
            assert!(payload.disabled);
            let handler = payload.event_handlers.on_click.as_ref();
            let handler = handler.expect("the button has a handler");
            assert_eq!(handler.path, "/p");
            assert_eq!(*handler.state, 3);
            assert!(children.is_empty());
        }
        _ => panic!("a button is a node"),
    }
}

#[test]
fn the_width_of_a_button_counts_the_bytes_of_its_title() {
    let el: El<TUINode<i32>, SettingsControls> = button(ButtonProps {
        pos: Position { left: 1, top: 1 },
        title: String::from("\u{e9}t\u{e9}"),
        on_click: None,
        disable: false,
    });
    match el {
        El::Node(Node { payload, .. }) => assert_eq!(payload.dim.width, 17),
        _ => panic!("a button is a node"),
    }
}

#[test]
fn the_settings_start_at_fifty_percent() {
    let mut store = new_state_store();
    let rendered = render_app(&app(), &mut store);
    assert_eq!(
        texts(&rendered),
        vec!["# Reactive TUI experiment with Rust", "Less", "Moar!", "50 %"]
    );
    assert_eq!(percent(&store), Some(50));
    let mut all = Vec::new();
    cells(&rendered, &mut all);
    let paths: Vec<&str> = all.iter().map(|(path, _)| path.as_str()).collect();
    assert_eq!(
        paths,
        vec![
            "/0~Container/0~Node",
            "/0~Container/1~SettingsControls/1~Container/0~Node",
            "/0~Container/1~SettingsControls/1~Container/1~Node",
            "/0~Container/1~SettingsControls/1~Container/2~Node",
        ]
    );
    let bar = &all[3].1;
    assert_eq!((bar.dim.width, bar.dim.height), (50, 3));
    assert!(!all[1].1.disabled);
    assert!(!all[2].1.disabled);
}

#[test]
fn the_buttons_are_bound_to_the_path_of_the_settings() {
    let mut store = new_state_store();
    let rendered = render_app(&app(), &mut store);
    let mut all = Vec::new();
    cells(&rendered, &mut all);
    let less = all[1].1.event_handlers.on_click.as_ref().expect("Less is clickable");
    let more = all[2].1.event_handlers.on_click.as_ref().expect("Moar! is clickable");
    assert_eq!(less.path, "/0~Container/1~SettingsControls");
    assert_eq!(more.path, "/0~Container/1~SettingsControls");
    assert_eq!(less.state.percent, 40);
    assert_eq!(more.state.percent, 60);
}

#[test]
fn clicks_move_the_percentage_between_the_passes() {
    let mut store = new_state_store();
    let mut current = Some(render_app(&app(), &mut store));
    click(50, 12, &current, &mut store);
    assert_eq!(percent(&store), Some(60));
    current = Some(render_app(&app(), &mut store));
    assert_eq!(texts(current.as_ref().unwrap())[3], "60 %");
    click(12, 12, &current, &mut store);
    click(12, 12, &current, &mut store);
    assert_eq!(percent(&store), Some(50));
    current = Some(render_app(&app(), &mut store));
    assert_eq!(texts(current.as_ref().unwrap())[3], "50 %");
}

#[test]
fn the_scale_ends_at_one_hundred() {
    let mut store = new_state_store();
    let mut current = Some(render_app(&app(), &mut store));
    for _ in 0..7 {
        click(50, 12, &current, &mut store);
        current = Some(render_app(&app(), &mut store));
    }
    assert_eq!(percent(&store), Some(100));
    let tree = current.as_ref().unwrap();
    assert_eq!(
        texts(tree),
        vec![
            "# Reactive TUI experiment with Rust",
            "Less",
            "Moar!",
            "100 %",
            "You're at the maximum!"
        ]
    );
    let mut all = Vec::new();
    cells(tree, &mut all);
    assert!(!all[1].1.disabled);
    assert!(all[2].1.disabled);
    assert_eq!((all[4].1.pos.left, all[4].1.pos.top), (50, 27));
    click(50, 12, &current, &mut store);
    assert_eq!(percent(&store), Some(100));
}

#[test]
fn the_scale_ends_at_zero() {
    let mut store = new_state_store();
    let mut current = Some(render_app(&app(), &mut store));
    for _ in 0..6 {
        click(12, 12, &current, &mut store);
        current = Some(render_app(&app(), &mut store));
    }
    assert_eq!(percent(&store), Some(0));
    let tree = current.as_ref().unwrap();
    assert_eq!(
        texts(tree),
        vec![
            "# Reactive TUI experiment with Rust",
            "Less",
            "Moar!",
            "0 %",
            "Can't go lower than 0!"
        ]
    );
    let mut all = Vec::new();
    cells(tree, &mut all);
    assert!(all[1].1.disabled);
    assert!(!all[2].1.disabled);
    assert_eq!(all[3].1.dim.width, 0);
}

#[test]
fn less_stops_at_zero_when_the_step_is_too_large() {
    let mut store: StateStore<SettingsControlsState> = new_state_store();
    store.set("/0~Container/1~SettingsControls", Rc::new(SettingsControlsState { percent: 7 }));
    let current = Some(render_app(&app(), &mut store));
    click(12, 12, &current, &mut store);
    assert_eq!(percent(&store), Some(0));
}

#[test]
fn the_settings_are_drawn_cell_by_cell() {
    let mut store = new_state_store();
    let rendered = render_app(&app(), &mut store);
    let frame = draw_graph_with(&rendered, "");
    assert!(frame.starts_with(
        "\x1b[2J\x1b[?25l\x1b[1;1H# Reactive TUI experiment with Rust\x1b[10;11H"
    ));
    assert!(frame.contains("Less"));
    assert!(frame.contains("Moar!"));
    assert!(frame.contains("50 %"));
    assert!(!frame.contains("\x1b[39m"));
}
