use dialogue_tree::dialogue::{Dialogue, Step, ENTRY_ID};
use dialogue_tree::node::{AnyNode, DNode, Node, QNode};
use dialogue_tree::text::{notice_text, option_text};

/// Walks `d` from the entry id, handing over `replies` one by one when asked,
/// and returns every line shown. Stops after `max_turns` turns.
fn run(d: &mut Dialogue, replies: &[&str], max_turns: usize) -> (Vec<String>, bool) {
    let mut shown = Vec::new();
    let mut at = ENTRY_ID;
    let mut reply: Option<String> = None;
    let mut next_reply = 0;
    for _ in 0..max_turns {
        match d.talk(at, reply.take()) {
            Step::End => return (shown, true),
            Step::Show { lines, next } => {
                shown.extend(lines);
                at = next;
            }
            Step::Ask { lines } => {
                shown.extend(lines);
                if next_reply == replies.len() {
                    return (shown, false);
                }
                reply = Some(replies[next_reply].to_string());
                next_reply += 1;
            }
        }
    }
    (shown, false)
}

fn line(text: &str, next: u32) -> AnyNode {
    let mut n = DNode::new(text.to_string());
    n.connect(next);
    AnyNode::Line(n)
}

#[test]
fn scenario_two_lines() {
    let mut d = Dialogue::new();
    d.insert_node(1, line("A", 2));
    d.insert_node(2, line("B", 0));
    assert_eq!(run(&mut d, &[], 100), (vec!["A".to_string(), "B".to_string()], true));
}

#[test]
fn scenario_dangling_successor() {
    let mut d = Dialogue::new();
    d.insert_node(1, line("A", 99));
    assert_eq!(run(&mut d, &[], 100), (vec!["A".to_string()], true));
}

#[test]
fn scenario_choice_with_invalid_reply() {
    let mut d = Dialogue::new();
    let mut q = QNode::new("Pick".to_string());
    q.insert_option("X".to_string(), 2);
    q.insert_option("Y".to_string(), 3);
    d.insert_node(1, AnyNode::Choice(q));
    d.insert_node(2, line("got X", 0));
    d.insert_node(3, line("got Y", 0));
    let (shown, ended) = run(&mut d, &["Z\n", "X\n"], 100);
    assert!(ended);
    assert_eq!(
        shown,
        vec![
            "Pick".to_string(),
            "[ X ]".to_string(),
            "[ Y ]".to_string(),
            "Invalid selection! You wrote: Z\n".to_string(),
            "got X".to_string(),
        ]
    );
}

#[test]
fn empty_graph_ends_at_once() {
    let mut d = Dialogue::new();
    assert_eq!(run(&mut d, &[], 100), (Vec::<String>::new(), true));
    d.insert_node(2, line("never", 0));
    assert!(matches!(d.talk(ENTRY_ID, None), Step::End));
}

#[test]
fn terminal_id_ends_even_when_stored() {
    let mut d = Dialogue::new();
    d.insert_node(0, line("zero", 0));
    assert!(matches!(d.talk(0, None), Step::End));
}

#[test]
fn line_chain_visits_each_once_in_order() {
    let mut d = Dialogue::new();
    d.insert_node(1, line("one", 5));
    d.insert_node(5, line("five", 3));
    d.insert_node(3, line("three", 7));
    let (shown, ended) = run(&mut d, &[], 100);
    assert!(ended);
    assert_eq!(shown, vec!["one".to_string(), "five".to_string(), "three".to_string()]);
}

#[test]
fn options_keep_first_insertion_order() {
    let mut q = QNode::new("Which?".to_string());
    q.insert_option("b".to_string(), 4);
    q.insert_option("a".to_string(), 5);
    q.insert_option("b".to_string(), 6);
    q.insert_option("c".to_string(), 7);
    q.insert_option("a".to_string(), 8);
    assert_eq!(
        q.print(),
        vec![
            "Which?".to_string(),
            "[ b ]".to_string(),
            "[ a ]".to_string(),
            "[ c ]".to_string(),
        ]
    );
}

#[test]
fn reinserted_label_takes_new_destination() {
    let mut q = QNode::new("Pick".to_string());
    q.insert_option("X".to_string(), 2);
    q.insert_option("X".to_string(), 9);
    assert_eq!(q.print().len(), 2);
    assert_eq!(q.destination(&"X".to_string()), Some(9));
    assert_eq!(q.destination(&"Y".to_string()), None);
}

#[test]
fn destination_of_each_option() {
    let mut q = QNode::new("Pick".to_string());
    q.insert_option("Vanilla".to_string(), 5);
    q.insert_option("Chocolate".to_string(), 6);
    assert_eq!(q.destination(&"Vanilla".to_string()), Some(5));
    assert_eq!(q.destination(&"Chocolate".to_string()), Some(6));
    assert_eq!(q.destination(&"chocolate".to_string()), None);
}

#[test]
fn inserting_node_replaces_old_one() {
    let mut d = Dialogue::new();
    d.insert_node(1, line("old", 2));
    d.insert_node(2, line("two", 0));
    d.insert_node(1, line("new", 0));
    assert_eq!(run(&mut d, &[], 100), (vec!["new".to_string()], true));
    assert_eq!(d.node(1).unwrap().successor(), 0);
}

#[test]
fn connect_from_absent_id_changes_nothing() {
    let mut d = Dialogue::new();
    d.insert_node(1, line("A", 0));
    d.insert_node(2, line("B", 0));
    d.connect_nodes(7, 2);
    assert!(d.node(7).is_none());
    assert_eq!(d.node(1).unwrap().successor(), 0);
    assert_eq!(run(&mut d, &[], 100), (vec!["A".to_string()], true));
}

#[test]
fn connect_sets_successor() {
    let mut d = Dialogue::new();
    d.insert_node(1, line("A", 0));
    d.insert_node(2, line("B", 0));
    d.connect_nodes(1, 2);
    assert_eq!(d.node(1).unwrap().successor(), 2);
    assert_eq!(run(&mut d, &[], 100), (vec!["A".to_string(), "B".to_string()], true));
}

#[test]
fn unknown_replies_are_asked_again() {
    let mut d = Dialogue::new();
    let mut q = QNode::new("Pick".to_string());
    q.insert_option("X".to_string(), 2);
    d.insert_node(1, AnyNode::Choice(q));
    match d.talk(1, Some("x".to_string())) {
        Step::Ask { lines } => assert_eq!(lines, vec!["Invalid selection! You wrote: x".to_string()]),
        _ => panic!("a reply naming no option must be asked again"),
    }
    match d.talk(1, Some("X Y".to_string())) {
        Step::Ask { lines } => assert_eq!(lines.len(), 1),
        _ => panic!("a reply naming no option must be asked again"),
    }
    assert_eq!(d.node(1).unwrap().successor(), 0);
    match d.talk(1, None) {
        Step::Ask { lines } => {
            assert_eq!(lines, vec!["Pick".to_string(), "[ X ]".to_string()])
        }
        _ => panic!("a choice must ask"),
    }
}

#[test]
fn reply_is_trimmed_before_matching() {
    let mut d = Dialogue::new();
    let mut q = QNode::new("Pick".to_string());
    q.insert_option("X".to_string(), 2);
    d.insert_node(1, AnyNode::Choice(q));
    match d.talk(1, Some("  X \r\n".to_string())) {
        Step::Show { lines, next } => {
            assert!(lines.is_empty());
            assert_eq!(next, 2);
        }
        _ => panic!("a trimmed label must be accepted"),
    }
    assert_eq!(d.node(1).unwrap().successor(), 2);
}

#[test]
fn choice_without_options_rejects_all() {
    let mut d = Dialogue::new();
    d.insert_node(1, AnyNode::Choice(QNode::new("Nothing".to_string())));
    d.connect_nodes(1, 4);
    let (shown, ended) = run(&mut d, &["", "a"], 100);
    assert!(!ended);
    assert_eq!(shown.len(), 3);
}

#[test]
fn cycle_keeps_going() {
    let mut d = Dialogue::new();
    d.insert_node(1, line("ping", 2));
    d.insert_node(2, line("pong", 1));
    let (shown, ended) = run(&mut d, &[], 10);
    assert!(!ended);
    assert_eq!(shown.len(), 10);
}

#[test]
fn text_lines() {
    assert_eq!(option_text(&"Yes".to_string()), "[ Yes ]".to_string());
    assert_eq!(notice_text(&"no".to_string()), "Invalid selection! You wrote: no".to_string());
}
