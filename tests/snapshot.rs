use std::collections::HashMap;

use env_manager::snapshot::{export_at, export_environment_variables, export_file_name, ImportRun, Snapshot};
use env_manager::store::{get_environment_variables, EnvironmentVariable, Scope};

fn listing() -> Vec<EnvironmentVariable> {
    let user = vec![("A".to_string(), "1".to_string()), ("B".to_string(), "2".to_string())];
    let system = vec![("PATH".to_string(), "C:\\Windows".to_string()), ("C".to_string(), "3".to_string())];
    get_environment_variables(&user, &system, 10)
}

fn run_import(snapshot: Snapshot, refuse: &str, backend: &mut HashMap<(Scope, String), String>) -> Vec<EnvironmentVariable> {
    let mut run = ImportRun::new(snapshot);
    while let Some(entry) = run.pending() {
        let written = entry.name != refuse;
        if written {
            backend.insert((entry.var_type, entry.name.clone()), entry.value.clone());
        }
        run.record(written);
    }
    run.finish()
}

#[test]
fn export_carries_version_and_variables() {
    let s = export_environment_variables(listing(), "2024-01-01T00:00:00+00:00".to_string());
    assert_eq!(s.version, "1.0");
    assert_eq!(s.exported_at, "2024-01-01T00:00:00+00:00");
    assert_eq!(s.variables.len(), 4);
    assert_eq!(s.variables[2].id, "system_PATH");
}

#[test]
fn export_file_name_wraps_stamp() {
    assert_eq!(export_file_name("20240102-030405"), "env-export-20240102-030405.json");
}

#[test]
fn export_at_formats_the_time() {
    let (s, file) = export_at(listing(), 0).unwrap();
    assert_eq!(s.exported_at, "1970-01-01T00:00:00+00:00");
    assert_eq!(file, "env-export-19700101-000000.json");
    let (t, file2) = export_at(Vec::new(), 1704164645).unwrap();
    assert_eq!(t.exported_at, "2024-01-02T03:04:05+00:00");
    assert_eq!(file2, "env-export-20240102-030405.json");
    assert!(t.variables.is_empty());
    assert!(export_at(Vec::new(), i64::MAX).is_none());
    let (last, file3) = export_at(Vec::new(), 253402300799).unwrap();
    assert_eq!(last.exported_at, "9999-12-31T23:59:59+00:00");
    assert_eq!(file3, "env-export-99991231-235959.json");
}

#[test]
fn import_skips_the_entry_that_fails() {
    let mut backend = HashMap::new();
    let s = export_environment_variables(listing(), "t".to_string());
    let applied = run_import(s, "PATH", &mut backend);
    let names: Vec<&str> = applied.iter().map(|e| e.name.as_str()).collect();
    assert_eq!(names, vec!["A", "B", "C"]);
    assert_eq!(backend.len(), 3);
    assert_eq!(backend.get(&(Scope::User, "A".to_string())), Some(&"1".to_string()));
    assert_eq!(backend.get(&(Scope::System, "C".to_string())), Some(&"3".to_string()));
    assert!(backend.get(&(Scope::System, "PATH".to_string())).is_none());
}

#[test]
fn import_of_export_restores_values() {
    let original = listing();
    let mut backend = HashMap::new();
    let applied = run_import(export_environment_variables(original.clone(), "t".to_string()), "", &mut backend);
    assert_eq!(applied.len(), original.len());
    for v in &original {
        assert_eq!(backend.get(&(v.var_type, v.name.clone())), Some(&v.value));
    }
    for (a, o) in applied.iter().zip(original.iter()) {
        assert_eq!(a.name, o.name);
        assert_eq!(a.value, o.value);
        assert_eq!(a.var_type, o.var_type);
    }
}

#[test]
fn import_of_empty_snapshot_applies_nothing() {
    let mut backend = HashMap::new();
    let applied = run_import(export_environment_variables(Vec::new(), "t".to_string()), "", &mut backend);
    assert!(applied.is_empty());
}
