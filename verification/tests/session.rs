use std::collections::VecDeque;
use tree_picker::edit::{chars_of, delete_last_word, string_of};
use tree_picker::filter::{candidate_scores, filter_candidates, keys_with_score};
use tree_picker::item::OptionItem;
use tree_picker::key::Key;
use tree_picker::layout::{column_after, cursor_column};
use tree_picker::node::Node;
use tree_picker::selection::SelectionMeta;
use tree_picker::session::{step, Intent, Outcome};
use tree_picker::state::JsonAppState;
use tree_picker::zipper::ReadOnlyZipper;

fn text(s: &str) -> Node {
    Node::String(s.to_string())
}

fn menu() -> Node {
    Node::Object(vec![
        ("open file".to_string(), Node::Array(vec![text("notes"), text("todo list")])),
        ("close".to_string(), Node::Null),
        ("quit".to_string(), Node::Bool(true)),
    ])
}

fn is_continue(outcome: Outcome) -> bool {
    matches!(outcome, Outcome::Continue)
}

fn deque(items: &[usize]) -> VecDeque<usize> {
    items.iter().copied().collect()
}

#[test]
fn zipper_selects_the_first_item() {
    let zipper = ReadOnlyZipper::at_first(deque(&[4, 5, 6])).unwrap();
    assert_eq!(zipper.left(), &deque(&[]));
    assert_eq!(zipper.selected(), &4);
    assert_eq!(zipper.right(), &deque(&[5, 6]));
    assert!(ReadOnlyZipper::at_first(deque(&[])).is_none());
    let single = ReadOnlyZipper::at_first(deque(&[9])).unwrap();
    assert_eq!(single.selected(), &9);
    assert!(single.left().is_empty() && single.right().is_empty());
}

#[test]
fn zipper_moves_one_step_and_never_wraps() {
    let mut zipper = ReadOnlyZipper::new(deque(&[1, 2]), 3, deque(&[4, 5]));
    zipper.select_next();
    assert_eq!(zipper.left(), &deque(&[1, 2, 3]));
    assert_eq!(zipper.selected(), &4);
    assert_eq!(zipper.right(), &deque(&[5]));
    zipper.select_next();
    zipper.select_next();
    assert_eq!(zipper.left(), &deque(&[1, 2, 3, 4]));
    assert_eq!(zipper.selected(), &5);
    assert_eq!(zipper.right(), &deque(&[]));
    zipper.select_prev();
    assert_eq!(zipper.left(), &deque(&[1, 2, 3]));
    assert_eq!(zipper.selected(), &4);
    assert_eq!(zipper.right(), &deque(&[5]));
    for _ in 0..10 {
        zipper.select_prev();
    }
    assert_eq!(zipper.left(), &deque(&[]));
    assert_eq!(zipper.selected(), &1);
    assert_eq!(zipper.right(), &deque(&[2, 3, 4, 5]));
}

#[test]
fn zipper_next_then_prev_restores_the_selection() {
    let mut zipper = ReadOnlyZipper::new(deque(&[1]), 2, deque(&[3]));
    zipper.select_next();
    zipper.select_prev();
    assert_eq!((zipper.left(), zipper.selected(), zipper.right()), (&deque(&[1]), &2, &deque(&[3])));
    zipper.select_prev();
    zipper.select_next();
    assert_eq!((zipper.left(), zipper.selected(), zipper.right()), (&deque(&[1]), &2, &deque(&[3])));
    // held at the last item, the step back leaves it
    let mut last = ReadOnlyZipper::new(deque(&[1, 2]), 3, deque(&[]));
    last.select_next();
    assert_eq!(last.selected(), &3);
    last.select_prev();
    assert_eq!(last.selected(), &2);
}

#[test]
fn scores_decide_which_keys_stay() {
    let array = Node::Array(vec![text("a"), Node::Null, text("b"), text("c")]);
    let keys = keys_with_score(&array, &vec![Some(7), Some(7), None, Some(-3)]);
    assert_eq!(keys, VecDeque::from(vec![Key::ArrayIndex(0), Key::ArrayIndex(3)]));
    let keys = keys_with_score(&array, &vec![None, None, Some(0)]);
    assert_eq!(keys, VecDeque::from(vec![Key::ArrayIndex(2)]));
    let keys = keys_with_score(&array, &vec![]);
    assert!(keys.is_empty());
    let keys = keys_with_score(&array, &vec![Some(1); 9]);
    assert_eq!(
        keys,
        VecDeque::from(vec![Key::ArrayIndex(0), Key::ArrayIndex(2), Key::ArrayIndex(3)])
    );
    let object = menu();
    let keys = keys_with_score(&object, &vec![None, Some(1), Some(2)]);
    assert_eq!(
        keys,
        VecDeque::from(vec![Key::MapKey("close".to_string()), Key::MapKey("quit".to_string())])
    );
    assert!(keys_with_score(&Node::Null, &vec![Some(1)]).is_empty());
}

#[test]
fn matcher_scores_each_child() {
    let object = menu();
    let scores = candidate_scores(&object, "o");
    assert_eq!(scores.len(), 3);
    assert!(scores[0].is_some());
    assert!(scores[1].is_some());
    assert!(scores[2].is_none());
    let scores = candidate_scores(&object, "");
    assert_eq!(scores, vec![Some(0), Some(0), Some(0)]);
    let array = Node::Array(vec![text("axbycz"), Node::Number("12".to_string()), text("abx")]);
    let scores = candidate_scores(&array, "abc");
    assert!(scores[0].is_some());
    assert_eq!(scores[1], None);
    assert_eq!(scores[2], None);
    assert_eq!(candidate_scores(&array, ""), vec![Some(0), None, Some(0)]);
    assert_eq!(
        filter_candidates(&array, "abc"),
        VecDeque::from(vec![Key::ArrayIndex(0)])
    );
    assert_eq!(
        filter_candidates(&array, "ab"),
        VecDeque::from(vec![Key::ArrayIndex(0), Key::ArrayIndex(2)])
    );
    assert!(filter_candidates(&text("abc"), "").is_empty());
}

#[test]
fn matching_ignores_case_until_the_filter_has_capitals() {
    let object = Node::Object(vec![
        ("Makefile".to_string(), Node::Null),
        ("make.sh".to_string(), Node::Null),
    ]);
    let context = |filter: &str| {
        let mut context = SelectionMeta::new(&object);
        context.set_filter(filter.to_string());
        context
    };
    assert_eq!(context("make").choices().unwrap().2.len(), 1);
    assert_eq!(context("Make").choices().unwrap().2.len(), 0);
    assert_eq!(context("Make").selected(), Some(Key::MapKey("Makefile".to_string())));
    assert_eq!(context("MAKE").selected(), None);
}

#[test]
fn build_choices_selects_the_first_candidate() {
    let object = menu();
    let choices = SelectionMeta::build_choices(&object, &"e".to_string()).unwrap();
    assert_eq!(choices.selected(), &Key::MapKey("open file".to_string()));
    assert!(choices.left().is_empty());
    assert_eq!(choices.right(), &VecDeque::from(vec![Key::MapKey("close".to_string())]));
    assert!(SelectionMeta::build_choices(&object, &"xyz".to_string()).is_none());
    assert!(SelectionMeta::build_choices(&Node::Bool(false), &String::new()).is_none());
    assert!(SelectionMeta::build_choices(&Node::Array(vec![Node::Null]), &String::new()).is_none());
}

#[test]
fn items_show_their_name_or_their_string() {
    let child = text("value");
    assert_eq!(OptionItem::new(Key::MapKey("name".to_string()), &child).render(), "name");
    assert_eq!(OptionItem::new(Key::ArrayIndex(3), &child).render(), "value");
    let number = Node::Number("3".to_string());
    assert_eq!(OptionItem::new(Key::ArrayIndex(0), &number).render(), "");
    assert_eq!(OptionItem::new(Key::MapKey(String::new()), &number).render(), "");
}

#[test]
fn last_word_is_deleted_with_the_blanks_behind_it() {
    assert_eq!(delete_last_word("foo bar"), "foo ");
    assert_eq!(delete_last_word("foo bar  "), "foo ");
    assert_eq!(delete_last_word("foo bar \t\n"), "foo ");
    assert_eq!(delete_last_word("foo  bar"), "foo  ");
    assert_eq!(delete_last_word("foo"), "");
    assert_eq!(delete_last_word("foo "), "");
    assert_eq!(delete_last_word("   "), "");
    assert_eq!(delete_last_word(""), "");
    assert_eq!(delete_last_word(" foo"), " ");
    assert_eq!(delete_last_word("foo\tbar"), "");
    assert_eq!(delete_last_word("a b\tc"), "a ");
    assert_eq!(delete_last_word("caf\u{e9} cr\u{e8}me\u{3000}"), "caf\u{e9} ");
}

#[test]
fn strings_and_their_characters() {
    assert_eq!(chars_of("a\u{e9}\u{4e2d}"), vec!['a', '\u{e9}', '\u{4e2d}']);
    assert_eq!(chars_of(""), Vec::<char>::new());
    let chars = vec!['x', '\u{e9}', 'z'];
    assert_eq!(string_of(&chars, 0), "");
    assert_eq!(string_of(&chars, 2), "x\u{e9}");
    assert_eq!(string_of(&chars, 3), "x\u{e9}z");
    assert_eq!(string_of(&chars, 4), "x\u{e9}z");
}

#[test]
fn cursor_stands_behind_the_text() {
    assert_eq!(column_after(1, 0), 2);
    assert_eq!(column_after(10, 5), 16);
    assert_eq!(column_after(0, 65534), 65535);
    assert_eq!(cursor_column(1, ""), Some(2));
    assert_eq!(cursor_column(1, "abc"), Some(5));
    assert_eq!(cursor_column(3, "\u{4e2d}\u{6587}"), Some(8));
    assert_eq!(cursor_column(65531, "abc"), Some(65535));
    assert_eq!(cursor_column(65532, "abc"), None);
    assert_eq!(cursor_column(65535, ""), None);
    let long = "x".repeat(70000);
    assert_eq!(cursor_column(0, &long), None);
}

#[test]
fn typing_edits_the_filter() {
    let data = menu();
    let mut app = JsonAppState::new(&data);
    for c in "o f".chars() {
        assert!(is_continue(step(&mut app, Intent::Insert(c))));
    }
    assert_eq!(app.get_filter(), "o f");
    assert_eq!(app.choices(), Some((vec![], "open file".to_string(), vec![])));
    assert!(is_continue(step(&mut app, Intent::Backspace)));
    assert_eq!(app.get_filter(), "o ");
    assert!(is_continue(step(&mut app, Intent::Insert('\u{e9}'))));
    assert_eq!(app.get_filter(), "o \u{e9}");
    assert_eq!(app.choices(), None);
    assert!(is_continue(step(&mut app, Intent::DeleteWord)));
    assert_eq!(app.get_filter(), "o ");
    assert!(is_continue(step(&mut app, Intent::DeleteWord)));
    assert_eq!(app.get_filter(), "");
    assert!(is_continue(step(&mut app, Intent::Insert('q'))));
    assert!(is_continue(step(&mut app, Intent::ClearFilter)));
    assert_eq!(app.get_filter(), "");
    assert_eq!(
        app.choices(),
        Some((vec![], "open file".to_string(), vec!["close".to_string(), "quit".to_string()]))
    );
}

#[test]
fn deleting_in_an_empty_filter_steps_back() {
    let data = menu();
    let mut app = JsonAppState::new(&data);
    assert!(is_continue(step(&mut app, Intent::Insert('o'))));
    assert!(is_continue(step(&mut app, Intent::Confirm)));
    assert_eq!(app.get_history().len(), 1);
    assert_eq!(app.get_filter(), "");
    assert!(is_continue(step(&mut app, Intent::Backspace)));
    assert_eq!(app.get_history().len(), 0);
    assert_eq!(app.get_filter(), "o");
    assert!(is_continue(step(&mut app, Intent::Confirm)));
    assert!(is_continue(step(&mut app, Intent::DeleteWord)));
    assert_eq!(app.get_history().len(), 0);
    assert_eq!(app.get_filter(), "o");
    assert!(is_continue(step(&mut app, Intent::Backspace)));
    assert!(is_continue(step(&mut app, Intent::Backspace)));
    assert!(is_continue(step(&mut app, Intent::DeleteWord)));
    assert_eq!(app.get_history().len(), 0);
    assert_eq!(app.get_filter(), "");
}

#[test]
fn confirming_a_leaf_ends_the_session_with_the_path() {
    let data = menu();
    let mut app = JsonAppState::new(&data);
    assert!(is_continue(step(&mut app, Intent::Confirm)));
    assert!(is_continue(step(&mut app, Intent::SelectNext)));
    assert!(is_continue(step(&mut app, Intent::SelectNext)));
    assert!(is_continue(step(&mut app, Intent::SelectPrev)));
    assert!(is_continue(step(&mut app, Intent::SelectNext)));
    match step(&mut app, Intent::Confirm) {
        Outcome::Chosen(path) => assert_eq!(path, "open file todo list"),
        other => panic!("{:?}", other),
    }
    assert_eq!(app.input_line(), "open file todo list ");
}

#[test]
fn confirming_without_a_candidate_stays() {
    let data = menu();
    let mut app = JsonAppState::new(&data);
    assert!(is_continue(step(&mut app, Intent::Insert('z'))));
    assert!(is_continue(step(&mut app, Intent::Confirm)));
    assert_eq!(app.get_history().len(), 0);
    let leaf = text("only");
    let mut app = JsonAppState::new(&leaf);
    match step(&mut app, Intent::Confirm) {
        Outcome::Chosen(path) => assert_eq!(path, ""),
        other => panic!("{:?}", other),
    }
}

#[test]
fn quitting_and_unknown_keys_change_nothing() {
    let data = menu();
    let mut app = JsonAppState::new(&data);
    assert!(is_continue(step(&mut app, Intent::Insert('c'))));
    assert!(is_continue(step(&mut app, Intent::Ignore)));
    assert_eq!(app.get_filter(), "c");
    assert!(matches!(step(&mut app, Intent::Quit), Outcome::Quit));
    assert_eq!(app.get_filter(), "c");
    assert_eq!(app.choices(), Some((vec![], "close".to_string(), vec![])));
}
