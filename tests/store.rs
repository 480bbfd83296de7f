use env_manager::store::{
    decode_id, encode_id, finish_delete, finish_read, finish_write, get_environment_variables,
    is_protected, needs_broadcast, plan_delete, plan_update, BackendError, BackendFailure, Change,
    EnvError, EnvironmentVariable, Scope, VarId,
};

fn pairs(items: &[(&str, &str)]) -> Vec<(String, String)> {
    items.iter().map(|(n, v)| (n.to_string(), v.to_string())).collect()
}

fn variable(scope: Scope, name: &str, value: &str) -> EnvironmentVariable {
    EnvironmentVariable {
        id: encode_id(scope, name),
        name: name.to_string(),
        value: value.to_string(),
        var_type: scope,
        remark: None,
        created_at: 0,
        updated_at: 0,
        is_valid: true,
    }
}

#[test]
fn id_joins_tag_and_name() {
    assert_eq!(encode_id(Scope::User, "JAVA_HOME"), "user_JAVA_HOME");
    assert_eq!(encode_id(Scope::System, "Path"), "system_Path");
}

#[test]
fn id_splits_on_first_underscore() {
    let v = decode_id("system_MY_VAR_X").unwrap();
    assert_eq!(v.scope, Scope::System);
    assert_eq!(v.name, "MY_VAR_X");
    let u = decode_id("user_").unwrap();
    assert_eq!(u.scope, Scope::User);
    assert_eq!(u.name, "");
}

#[test]
fn id_with_unknown_tag_is_invalid() {
    assert!(matches!(decode_id("local_X"), Err(EnvError::InvalidId)));
    assert!(matches!(decode_id("_X"), Err(EnvError::InvalidId)));
    assert!(matches!(plan_delete("System_PATH"), Err(EnvError::InvalidId)));
}

#[test]
fn id_without_underscore_is_invalid() {
    assert!(matches!(decode_id("PATH"), Err(EnvError::InvalidId)));
    assert!(matches!(plan_update("systemPATH"), Err(EnvError::InvalidId)));
    assert!(matches!(plan_delete(""), Err(EnvError::InvalidId)));
}

#[test]
fn delete_of_system_path_is_refused() {
    match plan_delete("system_PATH") {
        Err(EnvError::ProtectedVariable(name)) => assert_eq!(name, "PATH"),
        other => panic!("unexpected {:?}", other),
    }
}

#[test]
fn protected_names_ignore_case() {
    assert!(matches!(plan_delete("system_path"), Err(EnvError::ProtectedVariable(_))));
    assert!(matches!(plan_delete("system_ProgramFiles(x86)"), Err(EnvError::ProtectedVariable(_))));
    assert!(is_protected("SystemRoot"));
    assert!(is_protected("tmp"));
    assert!(!is_protected("PATH2"));
    assert!(!is_protected("JAVA_HOME"));
}

#[test]
fn user_path_and_other_system_names_may_be_deleted() {
    let v = plan_delete("user_PATH").unwrap();
    assert_eq!(v.scope, Scope::User);
    assert_eq!(v.name, "PATH");
    let w = plan_delete("system_JAVA_HOME").unwrap();
    assert_eq!(w.scope, Scope::System);
    assert_eq!(w.name, "JAVA_HOME");
}

#[test]
fn read_failures_map_to_errors() {
    let target = VarId { scope: Scope::System, name: "X".to_string() };
    assert_eq!(finish_read(&target, Ok("v".to_string())).unwrap(), "v");
    assert!(matches!(
        finish_read(&target, Err(BackendFailure::KeyUnavailable(BackendError::PermissionDenied))),
        Err(EnvError::BackendAccess(Scope::System))
    ));
    match finish_read(&target, Err(BackendFailure::CallFailed(BackendError::Other("bad type".to_string())))) {
        Err(EnvError::NotFound(n)) => assert_eq!(n, "X"),
        other => panic!("unexpected {:?}", other),
    }
}

#[test]
fn delete_failures_map_to_errors() {
    let target = VarId { scope: Scope::System, name: "X".to_string() };
    assert!(matches!(
        finish_delete(&target, Err(BackendFailure::KeyUnavailable(BackendError::PermissionDenied))),
        Err(EnvError::BackendAccess(Scope::System))
    ));
    assert!(matches!(
        finish_delete(&target, Err(BackendFailure::CallFailed(BackendError::PermissionDenied))),
        Err(EnvError::BackendAccess(Scope::System))
    ));
    match finish_delete(&target, Err(BackendFailure::CallFailed(BackendError::Other("disk".to_string())))) {
        Err(EnvError::Write(BackendError::Other(m))) => assert_eq!(m, "disk"),
        other => panic!("unexpected {:?}", other),
    }
}

#[test]
fn write_outcome_returns_variable_or_error() {
    let target = VarId { scope: Scope::User, name: "A".to_string() };
    let ok = finish_write(variable(Scope::User, "A", "1"), &target, Ok(())).unwrap();
    assert_eq!(ok.value, "1");
    let err = finish_write(
        variable(Scope::User, "A", "1"),
        &target,
        Err(BackendFailure::KeyUnavailable(BackendError::Other("x".to_string()))),
    );
    assert!(matches!(err, Err(EnvError::BackendAccess(Scope::User))));
    let denied = finish_write(
        variable(Scope::User, "A", "1"),
        &target,
        Err(BackendFailure::CallFailed(BackendError::PermissionDenied)),
    );
    assert!(matches!(denied, Err(EnvError::Write(BackendError::PermissionDenied))));
}

#[test]
fn delete_outcome_reports_missing_name() {
    let target = VarId { scope: Scope::User, name: "GONE".to_string() };
    assert!(finish_delete(&target, Ok(())).is_ok());
    match finish_delete(&target, Err(BackendFailure::CallFailed(BackendError::NotFound))) {
        Err(EnvError::NotFound(n)) => assert_eq!(n, "GONE"),
        other => panic!("unexpected {:?}", other),
    }
}

#[test]
fn only_update_and_delete_are_broadcast() {
    assert!(needs_broadcast(Change::Update, true));
    assert!(needs_broadcast(Change::Delete, true));
    assert!(!needs_broadcast(Change::Create, true));
    assert!(!needs_broadcast(Change::Update, false));
}

#[test]
fn listing_tags_and_stamps_each_entry() {
    let user = pairs(&[("TEMP", "C:\\Users\\me\\Temp"), ("MY_VAR", "1")]);
    let system = pairs(&[("Path", "C:\\Windows")]);
    let l = get_environment_variables(&user, &system, 1700000000);
    assert_eq!(l.len(), 3);
    assert_eq!(l[0].id, "user_TEMP");
    assert_eq!(l[1].id, "user_MY_VAR");
    assert_eq!(l[1].value, "1");
    assert_eq!(l[2].id, "system_Path");
    assert_eq!(l[2].var_type, Scope::System);
    assert_eq!(l[2].created_at, 1700000000);
    assert_eq!(l[2].updated_at, 1700000000);
    assert!(l[2].remark.is_none());
    assert!(l[2].is_valid);
}

#[test]
fn scope_tags() {
    assert_eq!(Scope::User.tag(), "user");
    assert_eq!(Scope::System.tag(), "system");
    assert_eq!(Scope::from_tag("system"), Some(Scope::System));
    assert_eq!(Scope::from_tag("user"), Some(Scope::User));
    assert_eq!(Scope::from_tag("SYSTEM"), None);
    assert_eq!(Scope::from_tag(""), None);
}

#[test]
fn empty_backend_lists_nothing() {
    assert!(get_environment_variables(&Vec::new(), &Vec::new(), 1).is_empty());
}

#[test]
fn protected_delete_is_refused_before_any_call() {
    // The refusal carries no target, so no backend call and no broadcast can follow.
    let refused = plan_delete("system_TEMP");
    assert!(matches!(refused, Err(EnvError::ProtectedVariable(_))));
    assert!(!needs_broadcast(Change::Delete, false));
}
