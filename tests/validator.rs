use env_manager::resolver::build_map;
use env_manager::validator::{judge, plan_validation, ValidationPlan};

fn refs() -> env_manager::resolver::RefMap {
    let user = vec![("JAVA_HOME".to_string(), "C:\\jdk".to_string())];
    let system = vec![("SystemRoot".to_string(), "C:\\Windows".to_string())];
    build_map(&user, &system)
}

fn directories(plan: &ValidationPlan) -> Vec<String> {
    match plan {
        ValidationPlan::Directories(p) => p.clone(),
        other => panic!("unexpected {:?}", other),
    }
}

#[test]
fn path_with_one_of_two_directories_is_valid() {
    let plan = plan_validation("PATH", "C:\\Valid;C:\\Missing", &refs());
    assert_eq!(directories(&plan), vec!["C:\\Valid".to_string(), "C:\\Missing".to_string()]);
    assert!(judge(&plan, &vec![true, false]));
}

#[test]
fn path_without_pieces_is_valid() {
    let plan = plan_validation("PATH", " ; ;;", &refs());
    assert!(directories(&plan).is_empty());
    assert!(judge(&plan, &vec![]));
    let empty = plan_validation("PATH", "", &refs());
    assert!(judge(&empty, &vec![]));
}

#[test]
fn path_with_one_of_three_directories_is_invalid() {
    let plan = plan_validation("PATH", "C:\\a;C:\\b;C:\\c", &refs());
    assert!(!judge(&plan, &vec![false, true, false]));
    assert!(judge(&plan, &vec![true, true, false]));
}

#[test]
fn path_pieces_are_trimmed_and_expanded() {
    let plan = plan_validation("PATH", "  %SYSTEMROOT%\\System32 ;\t%java_home%\\bin", &refs());
    assert_eq!(
        directories(&plan),
        vec!["C:\\Windows\\System32".to_string(), "C:\\jdk\\bin".to_string()]
    );
}

#[test]
fn path_rule_is_case_sensitive() {
    let plan = plan_validation("Path", "C:\\a;C:\\b", &refs());
    match plan {
        ValidationPlan::Existing(p) => assert_eq!(p, "C:\\a;C:\\b"),
        other => panic!("unexpected {:?}", other),
    }
}

#[test]
fn home_names_probe_the_expanded_value() {
    let plan = plan_validation("MAVEN_HOME", "%JAVA_HOME%", &refs());
    match &plan {
        ValidationPlan::Existing(p) => assert_eq!(p, "C:\\jdk"),
        other => panic!("unexpected {:?}", other),
    }
    assert!(judge(&plan, &vec![true]));
    assert!(!judge(&plan, &vec![false]));
    assert!(matches!(plan_validation("LOG_DIR", "logs", &refs()), ValidationPlan::Existing(_)));
    assert!(matches!(plan_validation("TOOL_PATH", "x", &refs()), ValidationPlan::Existing(_)));
    assert!(matches!(plan_validation("CONFIG", "/etc/app", &refs()), ValidationPlan::Existing(_)));
}

#[test]
fn other_variables_are_always_valid() {
    let plan = plan_validation("NUMBER_OF_PROCESSORS", "8", &refs());
    assert!(matches!(plan, ValidationPlan::Always));
    assert!(judge(&plan, &vec![]));
    assert!(matches!(plan_validation("JAVA_HOMEX", "8", &refs()), ValidationPlan::Always));
}

#[test]
fn unicode_white_space_is_trimmed() {
    let plan = plan_validation("PATH", "\u{3000}C:\\a\u{00A0};\u{2003}", &refs());
    assert_eq!(directories(&plan), vec!["C:\\a".to_string()]);
}
