use obs_glitch::snapshot::{FilterSnapshot, SnapshotTable};

fn snapshot(expression: &str) -> FilterSnapshot {
    FilterSnapshot { expression: expression.to_string(), enabled: true, seed: 1, frame_count: 2 }
}

fn expression(table: &SnapshotTable, source: Option<&str>) -> Option<String> {
    table.pick(&source.map(|s| s.to_string())).map(|e| e.snapshot.expression.clone())
}

#[test]
fn an_empty_table_has_no_sources() {
    let table = SnapshotTable::new();
    assert_eq!(table.sources(), "");
    assert_eq!(expression(&table, None), None);
    assert_eq!(expression(&table, Some("Camera")), None);
}

#[test]
fn an_entry_is_found_by_its_source() {
    let mut table = SnapshotTable::new();
    table.insert("Camera".to_string(), 7, snapshot("c"));
    table.insert("Screen".to_string(), 7, snapshot("h"));
    assert_eq!(expression(&table, Some("Camera")), Some("c".to_string()));
    assert_eq!(expression(&table, Some("Screen")), Some("h".to_string()));
    assert_eq!(expression(&table, Some("Other")), None);
    assert_eq!(expression(&table, None), Some("c".to_string()));
}

#[test]
fn a_newer_snapshot_replaces_the_older() {
    let mut table = SnapshotTable::new();
    table.insert("Camera".to_string(), 7, snapshot("c"));
    table.insert("Screen".to_string(), 7, snapshot("h"));
    table.insert("Camera".to_string(), 7, snapshot("v"));
    assert_eq!(expression(&table, Some("Camera")), Some("v".to_string()));
    assert_eq!(table.sources(), "Camera,Screen");
}

#[test]
fn a_removed_source_is_gone() {
    let mut table = SnapshotTable::new();
    table.insert("Camera".to_string(), 7, snapshot("c"));
    table.insert("Screen".to_string(), 7, snapshot("h"));
    table.insert("Third".to_string(), 7, snapshot("v"));
    table.remove(&"Screen".to_string(), 7);
    assert_eq!(table.sources(), "Camera,Third");
    assert_eq!(expression(&table, Some("Screen")), None);
    assert_eq!(expression(&table, Some("Third")), Some("v".to_string()));
    table.remove(&"Nowhere".to_string(), 7);
    assert_eq!(table.sources(), "Camera,Third");
}

#[test]
fn an_entry_is_removed_by_its_own_filter_alone() {
    let mut table = SnapshotTable::new();
    table.insert("Camera".to_string(), 1, snapshot("c"));
    table.remove(&"Camera".to_string(), 2);
    assert_eq!(table.sources(), "Camera");
    table.insert("Camera".to_string(), 2, snapshot("h"));
    table.remove(&"Camera".to_string(), 1);
    assert_eq!(expression(&table, Some("Camera")), Some("h".to_string()));
    table.remove(&"Camera".to_string(), 2);
    assert_eq!(table.sources(), "");
}
