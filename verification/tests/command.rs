use obs_glitch::command::{copy_text, same_text, Command, CommandQueue};

fn enable(target: Option<&str>, enabled: bool) -> Command {
    Command::SetEnabled { target: target.map(|t| t.to_string()), enabled }
}

fn set(target: Option<&str>, expr: &str) -> Command {
    Command::SetExpression { target: target.map(|t| t.to_string()), expr: expr.to_string() }
}

fn source(name: &str) -> Option<String> {
    Some(name.to_string())
}

fn shown(commands: &[Command]) -> Vec<String> {
    commands
        .iter()
        .map(|c| match c {
            Command::SetExpression { expr, .. } => format!("set {}", expr),
            Command::SetEnabled { enabled, .. } => format!("enabled {}", enabled),
            Command::Pulse { expr, duration_ms, .. } => format!("pulse {} {}", expr, duration_ms),
        })
        .collect()
}

#[test]
fn a_command_names_its_target() {
    assert_eq!(enable(Some("Camera"), true).target(), Some("Camera"));
    assert_eq!(set(None, "c").target(), None);
    let pulse = Command::Pulse { target: source("Screen"), expr: "c".to_string(), duration_ms: 1 };
    assert_eq!(pulse.target(), Some("Screen"));
}

#[test]
fn optional_texts_are_compared_and_copied() {
    assert!(same_text(&source("a"), &source("a")));
    assert!(!same_text(&source("a"), &source("b")));
    assert!(!same_text(&source("a"), &None));
    assert!(same_text(&None, &None));
    assert_eq!(copy_text(&source("a")), source("a"));
    assert_eq!(copy_text(&None), None);
}

#[test]
fn filters_are_numbered_from_zero() {
    let mut queue = CommandQueue::new();
    assert_eq!(queue.register().unwrap(), 0);
    assert_eq!(queue.register().unwrap(), 1);
    queue.unregister(0);
    assert_eq!(queue.register().unwrap(), 2);
}

#[test]
fn an_empty_queue_has_nothing_to_take() {
    let mut queue = CommandQueue::new();
    let id = queue.register().unwrap();
    assert!(queue.take(id, &source("Camera")).is_empty());
}

#[test]
fn a_targeted_command_goes_to_its_source_alone() {
    let mut queue = CommandQueue::new();
    let a = queue.register().unwrap();
    let b = queue.register().unwrap();
    queue.push(set(Some("Camera"), "c"));
    assert!(queue.take(a, &source("Screen")).is_empty());
    assert!(queue.take(a, &None).is_empty());
    assert_eq!(shown(&queue.take(b, &source("Camera"))), vec!["set c"]);
    assert!(queue.take(b, &source("Camera")).is_empty());
}

#[test]
fn a_broadcast_reaches_every_filter_once() {
    let mut queue = CommandQueue::new();
    let a = queue.register().unwrap();
    let b = queue.register().unwrap();
    let c = queue.register().unwrap();
    queue.push(enable(None, false));
    assert_eq!(shown(&queue.take(a, &source("Camera"))), vec!["enabled false"]);
    assert!(queue.take(a, &source("Camera")).is_empty());
    assert_eq!(shown(&queue.take(b, &source("Screen"))), vec!["enabled false"]);
    assert_eq!(shown(&queue.take(c, &None)), vec!["enabled false"]);
    for id in [a, b, c] {
        assert!(queue.take(id, &source("Camera")).is_empty());
    }
    let late = queue.register().unwrap();
    assert!(queue.take(late, &None).is_empty());
}

#[test]
fn a_copied_command_is_whole() {
    let mut queue = CommandQueue::new();
    let a = queue.register().unwrap();
    let b = queue.register().unwrap();
    queue.push(Command::Pulse { target: None, expr: "c ^ 1".to_string(), duration_ms: 70 });
    queue.push(set(None, "h"));
    assert_eq!(shown(&queue.take(a, &None)), vec!["pulse c ^ 1 70", "set h"]);
    assert_eq!(shown(&queue.take(b, &None)), vec!["pulse c ^ 1 70", "set h"]);
}

#[test]
fn commands_keep_their_order() {
    let mut queue = CommandQueue::new();
    let a = queue.register().unwrap();
    let b = queue.register().unwrap();
    queue.push(set(None, "1"));
    queue.push(set(Some("Screen"), "2"));
    queue.push(set(Some("Camera"), "3"));
    queue.push(set(None, "4"));
    assert_eq!(shown(&queue.take(a, &source("Camera"))), vec!["set 1", "set 3", "set 4"]);
    queue.push(set(Some("Screen"), "5"));
    assert_eq!(shown(&queue.take(b, &source("Screen"))), vec!["set 1", "set 2", "set 4", "set 5"]);
}

#[test]
fn a_broadcast_waits_for_the_first_filter() {
    let mut queue = CommandQueue::new();
    queue.push(enable(None, false));
    let id = queue.register().unwrap();
    assert_eq!(shown(&queue.take(id, &None)), vec!["enabled false"]);
}

#[test]
fn a_filter_that_goes_takes_nothing_with_it() {
    let mut queue = CommandQueue::new();
    let a = queue.register().unwrap();
    let b = queue.register().unwrap();
    let c = queue.register().unwrap();
    queue.push(set(None, "1"));
    queue.push(set(Some("Camera"), "2"));
    assert_eq!(shown(&queue.take(a, &None)), vec!["set 1"]);
    queue.unregister(b);
    assert_eq!(shown(&queue.take(c, &source("Camera"))), vec!["set 1", "set 2"]);
}

#[test]
fn a_command_that_waits_for_a_gone_filter_is_dropped() {
    let mut queue = CommandQueue::new();
    let a = queue.register().unwrap();
    let b = queue.register().unwrap();
    queue.push(set(None, "1"));
    assert_eq!(shown(&queue.take(a, &None)), vec!["set 1"]);
    queue.unregister(b);
    let late = queue.register().unwrap();
    assert!(queue.take(late, &None).is_empty());
}

#[test]
fn a_newcomer_gets_only_what_nobody_took() {
    let mut queue = CommandQueue::new();
    let a = queue.register().unwrap();
    let b = queue.register().unwrap();
    queue.push(set(None, "1"));
    assert_eq!(shown(&queue.take(a, &None)), vec!["set 1"]);
    queue.push(set(None, "2"));
    queue.push(set(Some("Camera"), "3"));
    let late = queue.register().unwrap();
    assert_eq!(shown(&queue.take(late, &source("Camera"))), vec!["set 2", "set 3"]);
    assert_eq!(shown(&queue.take(b, &None)), vec!["set 1", "set 2"]);
    assert_eq!(shown(&queue.take(a, &None)), vec!["set 2"]);
}
