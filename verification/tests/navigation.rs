use std::collections::VecDeque;
use tree_picker::history::History;
use tree_picker::key::Key;
use tree_picker::node::{describe_node_key, Node, NodeType};
use tree_picker::selection::SelectionMeta;
use tree_picker::state::JsonAppState;

fn text(s: &str) -> Node {
    Node::String(s.to_string())
}

fn services() -> Node {
    Node::Array(vec![text("signal"), text("firefox"), text("gmail")])
}

fn scope() -> Node {
    Node::Object(vec![("restart".to_string(), services())])
}

fn document() -> Node {
    Node::Object(vec![(
        "systemctl".to_string(),
        Node::Object(vec![
            ("--system".to_string(), scope()),
            ("--user".to_string(), scope()),
        ]),
    )])
}

fn strings(items: &[&str]) -> Vec<String> {
    items.iter().map(|s| s.to_string()).collect()
}

#[test]
fn test_new() {
    let data = document();
    let mut app = JsonAppState::new(&data);

    app.set_filter("sys".to_string());
    app.push_selection();
    let systemctl = data.get(&Key::MapKey("systemctl".to_string())).unwrap();
    assert_eq!(app.current().parent(), systemctl);

    app.set_filter("sys".to_string());
    app.push_selection();
    let system = systemctl.get(&Key::MapKey("--system".to_string())).unwrap();
    assert_eq!(app.current().parent(), system);

    println!("app current before {:?}", app.current());
    app.set_filter("res".to_string());
    app.push_selection();
    println!("app current after {:?}", app.current());
    let restart = system.get(&Key::MapKey("restart".to_string())).unwrap();
    assert_eq!(app.current().parent(), restart);
    assert_eq!(app.current().parent(), &services());
}

#[test]
fn scenario_descends_through_filtered_keys() {
    let data = document();
    let mut app = JsonAppState::new(&data);

    app.set_filter("sys".to_string());
    assert_eq!(app.choices(), Some((vec![], "systemctl".to_string(), vec![])));
    assert_eq!(app.push_selection(), NodeType::Branch);

    app.set_filter("sys".to_string());
    assert_eq!(app.choices(), Some((vec![], "--system".to_string(), vec![])));
    assert_eq!(app.push_selection(), NodeType::Branch);

    app.set_filter("res".to_string());
    assert_eq!(app.choices(), Some((vec![], "restart".to_string(), vec![])));
    assert_eq!(app.push_selection(), NodeType::Branch);
    assert_eq!(app.current().parent(), &services());

    assert_eq!(app.get_history().render(), "systemctl --system restart");

    app.pop_selection();
    assert_eq!(app.get_filter(), "res");
    assert_eq!(app.current().selected(), Some(Key::MapKey("restart".to_string())));
    assert_eq!(app.current().parent(), &scope());
    assert_eq!(app.get_history().render(), "systemctl --system");
}

#[test]
fn user_does_not_match_sys() {
    let data = document();
    let mut app = JsonAppState::new(&data);
    app.push_selection();
    assert_eq!(
        app.choices(),
        Some((vec![], "--system".to_string(), strings(&["--user"])))
    );
    app.set_filter("use".to_string());
    assert_eq!(app.choices(), Some((vec![], "--user".to_string(), vec![])));
    app.set_filter("sys".to_string());
    assert_eq!(app.choices(), Some((vec![], "--system".to_string(), vec![])));
}

#[test]
fn empty_filter_offers_every_eligible_child_in_order() {
    let array = Node::Array(vec![
        text("b"),
        Node::Number("1".to_string()),
        text("a"),
        Node::Null,
        Node::Bool(true),
        text("c"),
        Node::Array(vec![]),
    ]);
    let mut context = SelectionMeta::new(&array);
    let (left, selected, right) = context.choices().unwrap();
    assert!(left.is_empty());
    assert_eq!(selected, &Key::ArrayIndex(0));
    assert_eq!(right, &VecDeque::from(vec![Key::ArrayIndex(2), Key::ArrayIndex(5)]));

    context.set_filter("c".to_string());
    assert_eq!(context.selected(), Some(Key::ArrayIndex(5)));
    context.set_filter(String::new());
    let (left, selected, right) = context.choices().unwrap();
    assert!(left.is_empty());
    assert_eq!(selected, &Key::ArrayIndex(0));
    assert_eq!(right.len(), 2);

    let object = Node::Object(vec![
        ("z".to_string(), Node::Null),
        ("a".to_string(), text("x")),
        ("m".to_string(), Node::Bool(false)),
    ]);
    let mut app = JsonAppState::new(&object);
    assert_eq!(app.choices(), Some((vec![], "z".to_string(), strings(&["a", "m"]))));
    app.set_filter("m".to_string());
    app.set_filter(String::new());
    assert_eq!(app.choices(), Some((vec![], "z".to_string(), strings(&["a", "m"]))));
}

#[test]
fn filter_keeps_native_order_of_matches() {
    let object = Node::Object(vec![
        ("beta".to_string(), Node::Null),
        ("alpha".to_string(), Node::Null),
        ("gamma".to_string(), Node::Null),
        ("delta".to_string(), Node::Null),
        ("xyz".to_string(), Node::Null),
    ]);
    let mut app = JsonAppState::new(&object);
    app.set_filter("a".to_string());
    assert_eq!(
        app.choices(),
        Some((vec![], "beta".to_string(), strings(&["alpha", "gamma", "delta"])))
    );
    app.set_filter("la".to_string());
    assert_eq!(app.choices(), Some((vec![], "alpha".to_string(), strings(&["delta"]))));
    app.set_filter("lp".to_string());
    assert_eq!(app.choices(), Some((vec![], "alpha".to_string(), vec![])));
    app.set_filter("q".to_string());
    assert_eq!(app.choices(), None);
    assert_eq!(app.current().selected(), None);
    assert_eq!(app.current().describe_selected_key(), "");
}

#[test]
fn set_filter_resets_the_selection_to_the_first_match() {
    let object = Node::Object(vec![
        ("one".to_string(), Node::Null),
        ("two".to_string(), Node::Null),
        ("three".to_string(), Node::Null),
    ]);
    let mut app = JsonAppState::new(&object);
    app.select_next();
    app.select_next();
    assert_eq!(app.choices(), Some((strings(&["one", "two"]), "three".to_string(), vec![])));
    app.set_filter("t".to_string());
    assert_eq!(app.choices(), Some((vec![], "two".to_string(), strings(&["three"]))));
}

#[test]
fn cursor_moves_and_stops_at_the_ends() {
    let array = services();
    let mut app = JsonAppState::new(&array);
    assert_eq!(app.choices(), Some((vec![], "signal".to_string(), strings(&["firefox", "gmail"]))));
    app.select_prev();
    assert_eq!(app.choices(), Some((vec![], "signal".to_string(), strings(&["firefox", "gmail"]))));
    app.select_next();
    assert_eq!(app.choices(), Some((strings(&["signal"]), "firefox".to_string(), strings(&["gmail"]))));
    app.select_next();
    assert_eq!(app.choices(), Some((strings(&["signal", "firefox"]), "gmail".to_string(), vec![])));
    app.select_next();
    assert_eq!(app.choices(), Some((strings(&["signal", "firefox"]), "gmail".to_string(), vec![])));
    app.select_prev();
    assert_eq!(app.choices(), Some((strings(&["signal"]), "firefox".to_string(), strings(&["gmail"]))));
    app.select_next();
    app.select_prev();
    assert_eq!(app.choices(), Some((strings(&["signal"]), "firefox".to_string(), strings(&["gmail"]))));
}

#[test]
fn moves_without_candidates_do_nothing() {
    let leaf = text("alone");
    let mut app = JsonAppState::new(&leaf);
    assert_eq!(app.choices(), None);
    app.select_next();
    app.select_prev();
    assert_eq!(app.choices(), None);
    assert_eq!(app.push_selection(), NodeType::Leaf);
    assert_eq!(app.get_history().len(), 0);
    assert_eq!(app.get_history().render(), "");
    app.pop_selection();
    assert_eq!(app.current().parent(), &leaf);
}

#[test]
fn push_selection_reaches_a_leaf() {
    let data = document();
    let mut app = JsonAppState::new(&data);
    assert_eq!(app.push_selection(), NodeType::Branch);
    assert_eq!(app.push_selection(), NodeType::Branch);
    assert_eq!(app.push_selection(), NodeType::Branch);
    app.select_next();
    assert_eq!(app.push_selection(), NodeType::Leaf);
    assert_eq!(app.current().parent(), &text("firefox"));
    assert_eq!(app.get_history().len(), 4);
    assert_eq!(app.get_history().render(), "systemctl --system restart firefox");
    assert_eq!(
        app.get_history().iter(),
        strings(&["systemctl", "--system", "restart", "firefox"])
    );
    assert_eq!(app.input_line(), "systemctl --system restart firefox ");
    assert_eq!(app.push_selection(), NodeType::Leaf);
    assert_eq!(app.get_history().len(), 4);
}

#[test]
fn push_selection_without_a_match_is_a_no_op() {
    let data = document();
    let mut app = JsonAppState::new(&data);
    app.set_filter("nothing like it".to_string());
    assert_eq!(app.choices(), None);
    assert_eq!(app.push_selection(), NodeType::Branch);
    assert_eq!(app.get_history().len(), 0);
    assert_eq!(app.get_filter(), "nothing like it");
    assert_eq!(app.current().parent(), &data);
}

#[test]
fn one_frame_per_descent_and_one_less_per_ascent() {
    let data = document();
    let mut app = JsonAppState::new(&data);
    assert_eq!(app.get_history().len(), 0);
    app.push_selection();
    assert_eq!(app.get_history().len(), 1);
    app.set_filter("u".to_string());
    app.push_selection();
    assert_eq!(app.get_history().len(), 2);
    assert_eq!(app.get_filter(), "");
    app.pop_selection();
    assert_eq!(app.get_history().len(), 1);
    assert_eq!(app.get_filter(), "u");
    assert_eq!(app.choices(), Some((vec![], "--user".to_string(), vec![])));
    app.pop_selection();
    assert_eq!(app.get_history().len(), 0);
    assert_eq!(app.get_filter(), "");
    app.pop_selection();
    assert_eq!(app.get_history().len(), 0);
    assert_eq!(app.current().parent(), &data);
}

#[test]
fn pop_selection_restores_the_cursor_position() {
    let object = Node::Object(vec![
        ("one".to_string(), Node::Null),
        ("two".to_string(), services()),
        ("three".to_string(), Node::Null),
    ]);
    let mut app = JsonAppState::new(&object);
    app.set_filter("t".to_string());
    assert_eq!(app.choices(), Some((vec![], "two".to_string(), strings(&["three"]))));
    app.select_next();
    app.select_prev();
    assert_eq!(app.push_selection(), NodeType::Branch);
    app.select_next();
    app.pop_selection();
    assert_eq!(app.get_filter(), "t");
    assert_eq!(app.choices(), Some((vec![], "two".to_string(), strings(&["three"]))));
    app.select_next();
    assert_eq!(app.push_selection(), NodeType::Leaf);
    app.pop_selection();
    assert_eq!(app.choices(), Some((strings(&["two"]), "three".to_string(), vec![])));
}

#[test]
fn breadcrumb_of_two_descents() {
    let data = document();
    let mut app = JsonAppState::new(&data);
    app.push_selection();
    assert_eq!(app.get_history().render(), "systemctl");
    app.select_next();
    app.push_selection();
    assert_eq!(app.get_history().render(), "systemctl --user");
    app.set_filter("re".to_string());
    assert_eq!(app.input_line(), "systemctl --user re");
}

#[test]
fn input_line_at_the_root_is_the_filter() {
    let data = document();
    let mut app = JsonAppState::new(&data);
    assert_eq!(app.input_line(), "");
    app.set_filter("sy".to_string());
    assert_eq!(app.input_line(), "sy");
}

#[test]
fn history_refuses_a_context_without_selection() {
    let data = document();
    let mut history = History::new();
    let mut context = SelectionMeta::new(&data);
    context.set_filter("zzz".to_string());
    assert_eq!(history.push(context), Err(()));
    assert_eq!(history.len(), 0);
    assert!(history.pop().is_none());

    let context = SelectionMeta::new(&data);
    assert_eq!(history.push(context), Ok(()));
    assert_eq!(history.len(), 1);
    assert_eq!(history.render(), "systemctl");
    let popped = history.pop().unwrap();
    assert_eq!(popped.selected(), Some(Key::MapKey("systemctl".to_string())));
    assert_eq!(history.len(), 0);
    assert_eq!(history.render(), "");
}

#[test]
fn keys_are_described_under_their_parent() {
    let array = Node::Array(vec![text("zero"), Node::Bool(true)]);
    assert_eq!(describe_node_key(&array, &Key::ArrayIndex(0)), "zero");
    assert_eq!(describe_node_key(&array, &Key::ArrayIndex(1)), "");
    assert_eq!(describe_node_key(&array, &Key::ArrayIndex(2)), "");
    assert_eq!(describe_node_key(&array, &Key::MapKey("name".to_string())), "name");
    assert_eq!(describe_node_key(&Node::Null, &Key::ArrayIndex(0)), "");
    let object = Node::Object(vec![("0".to_string(), text("x"))]);
    assert_eq!(describe_node_key(&object, &Key::ArrayIndex(0)), "");
}

#[test]
fn keys_resolve_to_children() {
    let data = document();
    assert_eq!(data.len(), 1);
    assert_eq!(data.node_type(), NodeType::Branch);
    assert_eq!(text("x").node_type(), NodeType::Leaf);
    assert_eq!(Node::Null.node_type(), NodeType::Leaf);
    assert_eq!(Node::Array(vec![]).node_type(), NodeType::Branch);
    assert!(data.get(&Key::MapKey("nope".to_string())).is_none());
    assert!(data.get(&Key::ArrayIndex(0)).is_none());
    let array = services();
    assert_eq!(array.get(&Key::ArrayIndex(2)), Some(&text("gmail")));
    assert!(array.get(&Key::ArrayIndex(3)).is_none());
    assert!(array.get(&Key::MapKey("signal".to_string())).is_none());
    assert_eq!(array.key(1), Some(Key::ArrayIndex(1)));
    assert_eq!(array.key(3), None);
    assert_eq!(data.key(0), Some(Key::MapKey("systemctl".to_string())));
    assert_eq!(array.candidate_text(0), Some("signal"));
    assert_eq!(Node::Array(vec![Node::Null]).candidate_text(0), None);
    let twice = Node::Object(vec![
        ("a".to_string(), text("first")),
        ("a".to_string(), text("second")),
    ]);
    assert_eq!(twice.get(&Key::MapKey("a".to_string())), Some(&text("first")));
}

#[test]
fn keys_convert_and_compare() {
    let name = "field".to_string();
    assert_eq!(Key::from(&name), Key::MapKey("field".to_string()));
    assert_eq!(Key::from(7), Key::ArrayIndex(7));
    assert_ne!(Key::from(7), Key::ArrayIndex(8));
    assert_ne!(Key::from(&name), Key::ArrayIndex(0));
    assert_eq!(Key::from(&name).clone(), Key::from(&name));
}
