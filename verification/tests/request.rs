use obs_glitch::command::Command;
use obs_glitch::module::obs_module_ver;
use obs_glitch::request::{handle_get_state, handle_pulse, handle_set_enabled};
use obs_glitch::request::{handle_set_expression, read_target, RegistrationOutcome};
use obs_glitch::request::{RequestError, Vendor};
use obs_glitch::snapshot::{FilterSnapshot, SnapshotTable};

fn text(s: &str) -> Option<String> {
    Some(s.to_string())
}

fn table() -> SnapshotTable {
    let mut table = SnapshotTable::new();
    for (source, expression, seed, frame_count) in
        [("Camera", "c ^ 128", 42, 7), ("Screen", "Y + N % 50", u64::MAX, 1 << 63)]
    {
        table.insert(
            source.to_string(),
            seed,
            FilterSnapshot {
                expression: expression.to_string(),
                enabled: source == "Camera",
                seed,
                frame_count,
            },
        );
    }
    table
}

#[test]
fn an_empty_source_means_every_filter() {
    assert_eq!(read_target(None), None);
    assert_eq!(read_target(text("")), None);
    assert_eq!(read_target(text("Camera")), text("Camera"));
}

#[test]
fn an_expression_request_becomes_a_command() {
    let answer = handle_set_expression(text("c ^ 128"), text("Camera"));
    assert!(matches!(
        answer,
        Ok(Command::SetExpression { target, expr }) if target == text("Camera") && expr == "c ^ 128"
    ));
    let empty = handle_set_expression(text(""), None);
    assert!(matches!(
        empty,
        Ok(Command::SetExpression { target: None, expr }) if expr.is_empty()
    ));
}

#[test]
fn a_request_without_expression_is_refused() {
    let error = handle_set_expression(None, text("Camera")).err().unwrap();
    assert!(matches!(error, RequestError::MissingExpression));
    assert_eq!(error.message(), "missing 'expression'");
    let error = handle_pulse(None, 1, None).err().unwrap();
    assert!(matches!(error, RequestError::MissingExpression));
}

#[test]
fn an_enabling_request_becomes_a_command() {
    assert!(matches!(
        handle_set_enabled(false, text("")),
        Command::SetEnabled { target: None, enabled: false }
    ));
    assert!(matches!(
        handle_set_enabled(true, text("Camera")),
        Command::SetEnabled { target: Some(_), enabled: true }
    ));
}

#[test]
fn a_pulse_request_becomes_a_command() {
    for (given, expected) in [(3000, 3000), (0, 5000), (1, 1), (-1, u64::MAX)] {
        let answer = handle_pulse(text("c ^ 200"), given, None);
        assert!(matches!(
            answer,
            Ok(Command::Pulse { target: None, expr, duration_ms })
                if expr == "c ^ 200" && duration_ms == expected
        ));
    }
}

#[test]
fn the_state_of_a_source_is_reported() {
    let table = table();
    let reply = handle_get_state(Some(&table), text("Screen")).unwrap();
    assert_eq!(reply.sources, "Camera,Screen");
    let report = reply.filter.ok().unwrap();
    assert_eq!(report.source, "Screen");
    assert_eq!(report.expression, "Y + N % 50");
    assert!(!report.enabled);
    assert_eq!(report.seed, -1);
    assert_eq!(report.frame_count, i64::MIN);
}

#[test]
fn without_a_source_the_first_filter_is_reported() {
    let table = table();
    for source in [None, text("")] {
        let report = handle_get_state(Some(&table), source).unwrap().filter.ok().unwrap();
        assert_eq!(report.source, "Camera");
        assert_eq!(report.expression, "c ^ 128");
        assert!(report.enabled);
        assert_eq!(report.seed, 42);
        assert_eq!(report.frame_count, 7);
    }
}

#[test]
fn an_unknown_source_has_no_state() {
    let table = table();
    let reply = handle_get_state(Some(&table), text("Other")).unwrap();
    assert_eq!(reply.sources, "Camera,Screen");
    let error = reply.filter.err().unwrap();
    assert!(matches!(error, RequestError::NoActiveFilter));
    assert_eq!(error.message(), "no active filter");
}

#[test]
fn without_filters_there_is_no_state() {
    let reply = handle_get_state(Some(&SnapshotTable::new()), None).unwrap();
    assert_eq!(reply.sources, "");
    assert!(matches!(reply.filter, Err(RequestError::NoActiveFilter)));
}

#[test]
fn unreadable_snapshots_give_no_answer() {
    assert!(handle_get_state(None, text("Camera")).is_none());
}

#[test]
fn registration_is_tried_until_it_is_done() {
    let mut vendor = Vendor { registered: false };
    assert!(vendor.ensure_registered());
    assert!(matches!(
        vendor.register_vendor(false, &[false; 4]),
        RegistrationOutcome::Unavailable
    ));
    assert!(vendor.ensure_registered());
    assert!(matches!(
        vendor.register_vendor(true, &[true, true, false, true]),
        RegistrationOutcome::Partial
    ));
    assert!(!vendor.ensure_registered());
    assert!(matches!(
        vendor.register_vendor(true, &[true; 4]),
        RegistrationOutcome::Complete
    ));
    assert!(matches!(
        vendor.register_vendor(false, &[true; 4]),
        RegistrationOutcome::Unavailable
    ));
    assert!(!vendor.ensure_registered());
}

#[test]
fn the_module_is_made_for_version_29_1() {
    assert_eq!(obs_module_ver(), 0x1D01_0000);
}
