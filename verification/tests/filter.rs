use obs_glitch::command::{Command, CommandQueue};
use obs_glitch::filter::{GlitchFilter, Settings};
use obs_glitch::snapshot::SnapshotTable;
use std::cell::Cell;

const MILLI: u64 = 1_000_000;

/// One token for each byte; `!` does not compile.
fn parse(text: &str) -> Option<Vec<u8>> {
    if text.contains('!') {
        None
    } else {
        Some(text.trim().bytes().collect())
    }
}

fn never() -> u64 {
    panic!("the clock was not to be asked")
}

fn settings(expression: Option<&str>, enabled: bool, seed: i64) -> Option<Settings> {
    Some(Settings { expression: expression.map(|e| e.to_string()), enabled, seed })
}

fn filter(expression: &str) -> GlitchFilter<u8> {
    GlitchFilter::new(0, settings(Some(expression), true, 42), &parse)
}

fn numbered(id: u64, expression: &str) -> GlitchFilter<u8> {
    GlitchFilter::new(id, settings(Some(expression), true, 42), &parse)
}

fn name(source: &str) -> Option<String> {
    Some(source.to_string())
}

/// The expression that is shown for a source.
fn listed(snapshots: &SnapshotTable, source: &str) -> Option<String> {
    snapshots.pick(&name(source)).map(|e| e.snapshot.expression.clone())
}

fn texts(filter: &GlitchFilter<u8>) -> Vec<String> {
    filter.expressions().iter().map(|e| e.text.clone()).collect()
}

fn pulse(expr: &str, duration_ms: u64) -> Command {
    Command::Pulse { target: None, expr: expr.to_string(), duration_ms }
}

fn set(expr: &str) -> Command {
    Command::SetExpression { target: None, expr: expr.to_string() }
}

#[test]
fn a_filter_without_settings_has_defaults() {
    let filter: GlitchFilter<u8> = GlitchFilter::new(7, None, &parse);
    assert_eq!(filter.id(), 7);
    assert_eq!(filter.seed(), 42);
    assert!(filter.enabled());
    assert_eq!(filter.frame_count(), 0);
    assert_eq!(filter.process_interval(), 2);
    assert!(filter.expressions().is_empty());
    assert!(filter.buffer().is_empty());
}

#[test]
fn default_settings_have_an_expression() {
    let settings = Settings::default();
    assert_eq!(settings.expression.as_deref(), Some("(c & (c ^ 55)) + 25"));
    assert!(settings.enabled);
    assert_eq!(settings.seed, 42);
}

#[test]
fn settings_are_taken_over() {
    let mut filter = filter("c");
    assert_eq!(texts(&filter), vec!["c"]);
    assert_eq!(*filter.expressions()[0].tokens, vec![b'c']);
    filter.update_settings(settings(Some("h + v"), false, 9), &parse);
    assert_eq!(texts(&filter), vec!["h + v"]);
    assert!(!filter.enabled());
    assert_eq!(filter.seed(), 9);
}

#[test]
fn a_negative_seed_keeps_its_bits() {
    let mut filter = filter("c");
    filter.update_settings(settings(None, true, -1), &parse);
    assert_eq!(filter.seed(), u64::MAX);
    filter.update_settings(settings(None, true, i64::MIN), &parse);
    assert_eq!(filter.seed(), 1 << 63);
}

#[test]
fn an_absent_or_empty_expression_is_passed_over() {
    fn refuse(_text: &str) -> Option<Vec<u8>> {
        panic!("nothing to compile")
    }
    let mut filter = filter("c");
    filter.update_settings(settings(None, false, 1), &refuse);
    filter.update_settings(settings(Some(""), false, 2), &refuse);
    filter.update_settings(None, &refuse);
    assert_eq!(texts(&filter), vec!["c"]);
    assert_eq!(filter.seed(), 2);
    assert!(!filter.enabled());
}

#[test]
fn a_bad_expression_keeps_the_previous_one() {
    let mut filter = filter("c");
    filter.set_expression("!", &parse);
    assert_eq!(texts(&filter), vec!["c"]);
    filter.set_expression("  ", &parse);
    assert_eq!(texts(&filter), vec!["c"]);
    filter.update_settings(settings(Some("!!"), true, 42), &parse);
    assert_eq!(texts(&filter), vec!["c"]);
    filter.set_expression("h", &parse);
    assert_eq!(texts(&filter), vec!["h"]);
}

#[test]
fn compiled_tokens_are_installed_as_they_are() {
    let mut filter = filter("c");
    filter.install_expression("x", Some(vec![1, 2, 3]));
    assert_eq!(texts(&filter), vec!["x"]);
    assert_eq!(*filter.expressions()[0].tokens, vec![1, 2, 3]);
    filter.install_expression("y", Some(Vec::new()));
    filter.install_expression("z", None);
    assert_eq!(texts(&filter), vec!["x"]);
}

#[test]
fn a_pulse_reverts_when_its_time_has_come() {
    let mut filter = filter("c");
    filter.apply_command(pulse("h", 10), parse("h"), 5);
    assert_eq!(texts(&filter), vec!["h"]);
    assert!(!filter.check_revert(5 + 10 * MILLI - 1));
    assert_eq!(texts(&filter), vec!["h"]);
    assert!(filter.check_revert(5 + 10 * MILLI));
    assert_eq!(texts(&filter), vec!["c"]);
    assert!(!filter.check_revert(5 + 10 * MILLI));
    assert_eq!(*filter.expressions()[0].tokens, vec![b'c']);
    filter.check_revert(u64::MAX);
    assert_eq!(texts(&filter), vec!["c"]);
}

#[test]
fn the_longest_pulse_has_an_end_beyond_the_clock() {
    let mut filter = filter("c");
    filter.apply_command(pulse("h", u64::MAX), parse("h"), u64::MAX);
    filter.check_revert(u64::MAX);
    assert_eq!(texts(&filter), vec!["h"]);
}

#[test]
fn pulses_in_a_row_revert_to_the_first_expression() {
    let mut filter = filter("c");
    filter.apply_command(pulse("h", 10), parse("h"), 0);
    filter.apply_command(pulse("v", 10), parse("v"), 5 * MILLI);
    assert_eq!(texts(&filter), vec!["v"]);
    filter.check_revert(10 * MILLI);
    assert_eq!(texts(&filter), vec!["v"]);
    filter.check_revert(15 * MILLI);
    assert_eq!(texts(&filter), vec!["c"]);
}

#[test]
fn a_pulse_on_an_empty_filter_reverts_to_nothing() {
    let mut filter: GlitchFilter<u8> = GlitchFilter::new(0, None, &parse);
    filter.apply_command(pulse("h", 1), parse("h"), 0);
    assert_eq!(texts(&filter), vec!["h"]);
    filter.check_revert(MILLI);
    assert!(filter.expressions().is_empty());
}

#[test]
fn a_pulse_that_does_not_compile_changes_nothing() {
    let mut filter = filter("c");
    filter.apply_command(pulse("!", 10), parse("!"), 0);
    assert_eq!(texts(&filter), vec!["c"]);
    filter.check_revert(10 * MILLI);
    assert_eq!(texts(&filter), vec!["c"]);
}

#[test]
fn setting_the_expression_ends_a_pulse() {
    let mut filter = filter("c");
    filter.apply_command(pulse("h", 10), parse("h"), 0);
    filter.apply_command(set("v"), parse("v"), 0);
    filter.check_revert(u64::MAX);
    assert_eq!(texts(&filter), vec!["v"]);
}

#[test]
fn a_failed_setting_makes_a_pulse_permanent() {
    let mut filter = filter("c");
    filter.apply_command(pulse("h", 10), parse("h"), 0);
    filter.apply_command(set("!"), parse("!"), 0);
    filter.check_revert(u64::MAX);
    assert_eq!(texts(&filter), vec!["h"]);
}

#[test]
fn settings_during_a_pulse_are_undone_with_it() {
    let mut filter = filter("c");
    filter.apply_command(pulse("h", 10), parse("h"), 0);
    filter.update_settings(settings(Some("v"), true, 42), &parse);
    assert_eq!(texts(&filter), vec!["v"]);
    filter.check_revert(10 * MILLI);
    assert_eq!(texts(&filter), vec!["c"]);
}

#[test]
fn draining_carries_out_the_filters_commands_in_order() {
    let mut queue = CommandQueue::new();
    let id = queue.register().unwrap();
    let mut filter = GlitchFilter::new(id, settings(Some("c"), true, 1), &parse);
    queue.push(set("1"));
    queue.push(Command::SetExpression {
        target: Some("Screen".to_string()),
        expr: "other".to_string(),
    });
    queue.push(Command::SetEnabled { target: Some("Camera".to_string()), enabled: false });
    queue.push(set("2"));
    filter.drain_commands(&mut queue, &Some("Camera".to_string()), &parse, &never);
    assert_eq!(texts(&filter), vec!["2"]);
    assert!(!filter.enabled());
    filter.drain_commands(&mut queue, &Some("Screen".to_string()), &parse, &never);
    assert_eq!(texts(&filter), vec!["other"]);
}

#[test]
fn draining_asks_the_clock_for_each_pulse() {
    let mut queue = CommandQueue::new();
    let id = queue.register().unwrap();
    let mut filter = GlitchFilter::new(id, settings(Some("c"), true, 1), &parse);
    queue.push(pulse("h", 1));
    queue.push(pulse("v", 1));
    let time = Cell::new(0u64);
    let clock = || {
        time.set(time.get() + 10 * MILLI);
        time.get()
    };
    filter.drain_commands(&mut queue, &None, &parse, &clock);
    assert_eq!(time.get(), 20 * MILLI);
    assert_eq!(texts(&filter), vec!["v"]);
    filter.check_revert(21 * MILLI - 1);
    assert_eq!(texts(&filter), vec!["v"]);
    filter.check_revert(21 * MILLI);
    assert_eq!(texts(&filter), vec!["c"]);
}

#[test]
fn two_filters_both_get_a_broadcast() {
    let mut queue = CommandQueue::new();
    let mut a = GlitchFilter::new(queue.register().unwrap(), settings(Some("c"), true, 1), &parse);
    let mut b = GlitchFilter::new(queue.register().unwrap(), settings(Some("c"), true, 1), &parse);
    queue.push(set("h"));
    a.drain_commands(&mut queue, &Some("Camera".to_string()), &parse, &never);
    b.drain_commands(&mut queue, &Some("Screen".to_string()), &parse, &never);
    assert_eq!(texts(&a), vec!["h"]);
    assert_eq!(texts(&b), vec!["h"]);
}

#[test]
fn a_filter_shows_itself_under_its_source() {
    let mut snapshots = SnapshotTable::new();
    let mut filter = filter("c");
    filter.update_snapshot(&Some("Camera".to_string()), &mut snapshots);
    let entry = snapshots.pick(&Some("Camera".to_string())).unwrap();
    assert_eq!(entry.source, "Camera");
    assert_eq!(entry.snapshot.expression, "c");
    assert!(entry.snapshot.enabled);
    assert_eq!(entry.snapshot.seed, 42);
    assert_eq!(entry.snapshot.frame_count, 0);
}

#[test]
fn a_filter_without_expression_shows_an_empty_one() {
    let mut snapshots = SnapshotTable::new();
    let mut filter: GlitchFilter<u8> = GlitchFilter::new(0, None, &parse);
    filter.update_snapshot(&None, &mut snapshots);
    assert_eq!(snapshots.sources(), "unknown");
    assert_eq!(snapshots.pick(&None).unwrap().snapshot.expression, "");
}

#[test]
fn a_renamed_source_is_listed_once() {
    let mut snapshots = SnapshotTable::new();
    let mut filter = filter("c");
    filter.update_snapshot(&Some("Camera".to_string()), &mut snapshots);
    filter.update_snapshot(&Some("Webcam".to_string()), &mut snapshots);
    assert_eq!(snapshots.sources(), "Webcam");
    filter.update_snapshot(&Some("Webcam".to_string()), &mut snapshots);
    assert_eq!(snapshots.sources(), "Webcam");
}

#[test]
fn a_filter_that_goes_is_not_listed() {
    let mut snapshots = SnapshotTable::new();
    let mut camera = numbered(1, "c");
    let mut screen = numbered(2, "h");
    camera.update_snapshot(&Some("Camera".to_string()), &mut snapshots);
    screen.update_snapshot(&Some("Screen".to_string()), &mut snapshots);
    camera.remove_snapshot(&mut snapshots);
    assert_eq!(snapshots.sources(), "Screen");
    filter("v").remove_snapshot(&mut snapshots);
    assert_eq!(snapshots.sources(), "Screen");
}

#[test]
fn taken_commands_can_be_carried_out_without_the_queue() {
    let mut filter = filter("c");
    filter.carry_out(Vec::new(), &parse, &never);
    assert_eq!(texts(&filter), vec!["c"]);
    let off = Command::SetEnabled { target: None, enabled: false };
    filter.carry_out(vec![set("h"), off, set("v")], &parse, &never);
    assert_eq!(texts(&filter), vec!["v"]);
    assert!(!filter.enabled());
}

#[test]
fn a_renamed_source_leaves_its_name_to_another_filter() {
    let mut snapshots = SnapshotTable::new();
    let mut first = numbered(1, "c");
    let mut second = numbered(2, "h");
    first.update_snapshot(&name("Camera"), &mut snapshots);
    second.update_snapshot(&name("Camera"), &mut snapshots);
    assert_eq!(listed(&snapshots, "Camera"), Some("h".to_string()));
    first.update_snapshot(&name("Camera old"), &mut snapshots);
    assert_eq!(snapshots.sources(), "Camera,Camera old");
    assert_eq!(listed(&snapshots, "Camera"), Some("h".to_string()));
    assert_eq!(listed(&snapshots, "Camera old"), Some("c".to_string()));
}

#[test]
fn a_filter_that_goes_leaves_its_old_name_to_another_filter() {
    let mut snapshots = SnapshotTable::new();
    let mut first = numbered(1, "c");
    let mut second = numbered(2, "h");
    first.update_snapshot(&name("Camera"), &mut snapshots);
    second.update_snapshot(&name("Camera"), &mut snapshots);
    first.remove_snapshot(&mut snapshots);
    assert_eq!(listed(&snapshots, "Camera"), Some("h".to_string()));
    second.remove_snapshot(&mut snapshots);
    assert_eq!(snapshots.sources(), "");
}

#[test]
fn two_filters_swap_their_names() {
    let mut snapshots = SnapshotTable::new();
    let mut first = numbered(1, "c");
    let mut second = numbered(2, "h");
    first.update_snapshot(&name("A"), &mut snapshots);
    second.update_snapshot(&name("B"), &mut snapshots);
    first.update_snapshot(&name("B"), &mut snapshots);
    second.update_snapshot(&name("A"), &mut snapshots);
    assert_eq!(listed(&snapshots, "A"), Some("h".to_string()));
    assert_eq!(listed(&snapshots, "B"), Some("c".to_string()));
}

#[test]
fn beginning_a_frame_carries_out_commands_and_shows_them() {
    let mut snapshots = SnapshotTable::new();
    let mut filter = filter("c");
    let off = Command::SetEnabled { target: None, enabled: false };
    let clock = || 0u64;
    let reverted =
        filter.begin_frame(vec![set("h"), off], &name("Camera"), &mut snapshots, &parse, &clock);
    assert!(!reverted);
    assert_eq!(texts(&filter), vec!["h"]);
    assert!(!filter.enabled());
    let entry = snapshots.pick(&name("Camera")).unwrap();
    assert_eq!(entry.snapshot.expression, "h");
    assert!(!entry.snapshot.enabled);
    assert_eq!(entry.snapshot.frame_count, 0);
    assert_eq!(entry.shown_by, 0);
}

#[test]
fn beginning_a_frame_ends_a_pulse_before_it_is_shown() {
    let mut snapshots = SnapshotTable::new();
    let mut filter = filter("c");
    let time = Cell::new(0u64);
    let clock = || time.get();
    assert!(!filter.begin_frame(vec![pulse("h", 1)], &None, &mut snapshots, &parse, &clock));
    assert_eq!(listed(&snapshots, "unknown"), Some("h".to_string()));
    time.set(MILLI);
    assert!(filter.begin_frame(Vec::new(), &None, &mut snapshots, &parse, &clock));
    assert_eq!(listed(&snapshots, "unknown"), Some("c".to_string()));
    assert!(!filter.begin_frame(Vec::new(), &None, &mut snapshots, &parse, &clock));
}

#[test]
fn the_interval_is_what_was_set() {
    let mut filter = filter("c");
    filter.set_process_interval(5);
    assert_eq!(filter.process_interval(), 5);
}
