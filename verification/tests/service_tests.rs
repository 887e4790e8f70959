use igra_status::manager::IgraManager;
use igra_status::service::{
    aggregate_health, extract_status, fallback_records, parse_compose_ps, reconcile,
};

fn lines(v: &[&str]) -> Vec<String> {
    v.iter().map(|s| s.to_string()).collect()
}

#[test]
fn status_is_a_tri_state() {
    assert_eq!(extract_status(r#"{"Name":"viaduct","State":"running"}"#), "running");
    assert_eq!(extract_status(r#"{"Name":"viaduct","State":"exited"}"#), "exited");
    assert_eq!(extract_status(r#"{"Name":"viaduct"}"#), "unknown");
    // `running` wins over `exited` when both occur.
    assert_eq!(extract_status("exited then running"), "running");
}

#[test]
fn compose_ps_lines_become_records() {
    let blob = lines(&[
        r#"{"Name":"execution-layer","State":"running"}"#,
        r#"{"Name":"block-builder","State":"exited"}"#,
        r#"{"Name":"other-service","State":"running"}"#,
        r#"{"Name":"viaduct"}"#,
    ]);
    let records = parse_compose_ps(&blob);
    assert_eq!(records.len(), 3);
    assert_eq!(records[0].name, "execution-layer");
    assert!(records[0].running);
    assert_eq!(records[0].status, "running");
    assert_eq!(records[1].name, "block-builder");
    assert!(!records[1].running);
    assert_eq!(records[1].status, "exited");
    assert_eq!(records[2].name, "viaduct");
    assert!(!records[2].running);
    assert_eq!(records[2].status, "unknown");
}

#[test]
fn empty_blob_yields_no_records() {
    let records = parse_compose_ps(&Vec::new());
    assert!(records.is_empty());
    let records = parse_compose_ps(&lines(&["[]", "{}"]));
    assert!(records.is_empty());
}

#[test]
fn probe_failure_does_not_abort_aggregation() {
    let outcomes = vec![
        ("a".to_string(), Ok(true)),
        ("b".to_string(), Err("probe failed: no daemon".to_string())),
        ("c".to_string(), Ok(false)),
    ];
    let (report, failures) = aggregate_health(&outcomes);
    assert_eq!(report, vec![("a".to_string(), true), ("c".to_string(), false)]);
    assert_eq!(
        failures,
        vec![("b".to_string(), "probe failed: no daemon".to_string())]
    );
}

#[test]
fn aggregation_of_no_outcomes_is_empty() {
    let (report, failures) = aggregate_health(&Vec::new());
    assert!(report.is_empty());
    assert!(failures.is_empty());
}

#[test]
fn fallback_reconciliation_covers_every_name() {
    let primary = lines(&["not a status blob", "{}"]);
    let probes = vec![
        ("execution-layer".to_string(), true),
        ("block-builder".to_string(), false),
        ("viaduct".to_string(), true),
    ];
    let records = reconcile(&primary, &probes);
    assert_eq!(records.len(), 3);
    for (record, (name, running)) in records.iter().zip(probes.iter()) {
        assert_eq!(&record.name, name);
        assert_eq!(record.running, *running);
        assert!(record.status == "running" || record.status == "stopped");
        assert_ne!(record.status, "exited");
    }
    assert_eq!(records[1].status, "stopped");
}

#[test]
fn primary_records_suppress_the_fallback() {
    let primary = lines(&[r#"{"Name":"viaduct","State":"running"}"#]);
    let probes = vec![("execution-layer".to_string(), false)];
    let records = reconcile(&primary, &probes);
    assert_eq!(records.len(), 1);
    assert_eq!(records[0].name, "viaduct");
    assert!(records[0].running);
}

#[test]
fn fallback_records_keep_probe_order() {
    let probes = vec![("b".to_string(), true), ("a".to_string(), false)];
    let records = fallback_records(&probes);
    assert_eq!(records.len(), 2);
    assert_eq!(records[0].name, "b");
    assert_eq!(records[0].status, "running");
    assert_eq!(records[1].name, "a");
    assert_eq!(records[1].status, "stopped");
}

#[test]
fn manager_defaults() {
    let manager = IgraManager::new().unwrap();
    assert_eq!(manager.orchestra_path, "/home/kaspa/igra/igra-orchestra-public");
    assert_eq!(manager.node_name, "merlin");
    assert!(manager.health_api_key.is_none());
}

#[test]
fn check_services_requires_an_installation() {
    let manager = IgraManager::new().unwrap();
    let err = manager
        .check_services(false, &Vec::new(), &Vec::new())
        .unwrap_err();
    assert_eq!(err, "IGRA Orchestra not found");
}

#[test]
fn check_services_reconciles_when_installed() {
    let manager = IgraManager::new().unwrap();
    let primary = lines(&[r#"{"Name":"block-builder","State":"running"}"#]);
    let records = manager
        .check_services(true, &primary, &Vec::new())
        .unwrap();
    assert_eq!(records.len(), 1);
    assert_eq!(records[0].name, "block-builder");
    assert!(records[0].running);
}

#[test]
fn start_services_names_the_backend_profile() {
    let manager = IgraManager::new().unwrap();
    assert_eq!(manager.start_services(true).unwrap(), "backend");
    assert_eq!(
        manager.start_services(false).unwrap_err(),
        "IGRA Orchestra not found. Run setup first."
    );
}

#[test]
fn block_height_errors_when_absent() {
    let manager = IgraManager::new().unwrap();
    let tail = lines(&["Built block #321", "noise"]);
    assert_eq!(manager.get_block_height(&tail).unwrap(), 321);
    let empty = lines(&["no blocks here"]);
    assert_eq!(
        manager.get_block_height(&empty).unwrap_err(),
        "No block height found in logs"
    );
}
