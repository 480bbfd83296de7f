use env_manager::search::{is_match, search_environment_variables, DateRange, SearchQuery};
use env_manager::store::{encode_id, EnvironmentVariable, Scope};

fn variable(scope: Scope, name: &str, value: &str, remark: Option<&str>) -> EnvironmentVariable {
    EnvironmentVariable {
        id: encode_id(scope, name),
        name: name.to_string(),
        value: value.to_string(),
        var_type: scope,
        remark: remark.map(|r| r.to_string()),
        created_at: 0,
        updated_at: 0,
        is_valid: true,
    }
}

fn listing() -> Vec<EnvironmentVariable> {
    vec![
        variable(Scope::User, "JAVA_HOME", "C:\\jdk", Some("the JDK")),
        variable(Scope::System, "PATH", "C:\\Java\\bin;C:\\Windows", None),
        variable(Scope::User, "EDITOR", "vim", Some("java editor")),
        variable(Scope::System, "TEMP", "C:\\Temp", None),
    ]
}

fn query() -> SearchQuery {
    SearchQuery { name_keyword: None, value_keyword: None, remark_keyword: None, types: None, date_range: None }
}

fn names(v: &[EnvironmentVariable]) -> Vec<String> {
    v.iter().map(|e| e.name.clone()).collect()
}

#[test]
fn name_keyword_matches_name_or_value_ignoring_case() {
    let q = SearchQuery { name_keyword: Some("JAVA".to_string()), ..query() };
    let r = search_environment_variables(&listing(), &q);
    assert_eq!(names(&r), vec!["JAVA_HOME", "PATH"]);
}

#[test]
fn value_keyword_also_matches_names() {
    let q = SearchQuery { value_keyword: Some("temp".to_string()), ..query() };
    assert_eq!(names(&search_environment_variables(&listing(), &q)), vec!["TEMP"]);
}

#[test]
fn either_keyword_suffices() {
    let q = SearchQuery {
        name_keyword: Some("editor".to_string()),
        value_keyword: Some("windows".to_string()),
        ..query()
    };
    assert_eq!(names(&search_environment_variables(&listing(), &q)), vec!["PATH", "EDITOR"]);
}

#[test]
fn empty_query_selects_all() {
    assert_eq!(search_environment_variables(&listing(), &query()).len(), 4);
}

#[test]
fn remark_keyword_needs_a_remark() {
    let q = SearchQuery { remark_keyword: Some("JAVA".to_string()), ..query() };
    assert_eq!(names(&search_environment_variables(&listing(), &q)), vec!["EDITOR"]);
}

#[test]
fn types_filter_by_scope_tag() {
    let q = SearchQuery { types: Some(vec!["system".to_string()]), ..query() };
    assert_eq!(names(&search_environment_variables(&listing(), &q)), vec!["PATH", "TEMP"]);
    let none = SearchQuery { types: Some(vec!["machine".to_string()]), ..query() };
    assert!(search_environment_variables(&listing(), &none).is_empty());
}

#[test]
fn gates_combine() {
    let q = SearchQuery {
        name_keyword: Some("java".to_string()),
        types: Some(vec!["user".to_string()]),
        ..query()
    };
    assert_eq!(names(&search_environment_variables(&listing(), &q)), vec!["JAVA_HOME"]);
}

#[test]
fn date_range_is_not_applied() {
    let q = SearchQuery { date_range: Some(DateRange { start: 5, end: 6 }), ..query() };
    assert_eq!(search_environment_variables(&listing(), &q).len(), 4);
    assert!(is_match(&q, &listing()[0]));
}

#[test]
fn search_of_empty_listing_is_empty() {
    let q = SearchQuery { name_keyword: Some("x".to_string()), ..query() };
    assert!(search_environment_variables(&Vec::new(), &q).is_empty());
}

#[test]
fn empty_keyword_matches_everything() {
    let q = SearchQuery { name_keyword: Some(String::new()), ..query() };
    assert_eq!(search_environment_variables(&listing(), &q).len(), 4);
}
