use mysql_dump_schedule::selection::select_databases;

fn strings(items: &[&str]) -> Vec<String> {
    items.iter().map(|s| s.to_string()).collect()
}

#[test]
fn wildcard_skips_forgotten() {
    let databases = strings(&["app", "sys", "logs"]);
    let exports = strings(&["*"]);
    let forgets = strings(&["sys"]);
    let selected = select_databases(&databases, &exports, &forgets);
    assert_eq!(selected, strings(&["app", "logs"]));
}

#[test]
fn explicit_keeps_only_present() {
    let databases = strings(&["app", "sys"]);
    let exports = strings(&["app", "reports"]);
    let forgets = strings(&[]);
    let selected = select_databases(&databases, &exports, &forgets);
    assert_eq!(selected, strings(&["app"]));
}

#[test]
fn explicit_ignores_forget_set() {
    let databases = strings(&["app", "sys"]);
    let exports = strings(&["app"]);
    let forgets = strings(&["app"]);
    let selected = select_databases(&databases, &exports, &forgets);
    assert_eq!(selected, strings(&["app"]));
}

#[test]
fn empty_selection_is_allowed() {
    let databases = strings(&["only"]);
    let exports = strings(&["absent"]);
    let forgets = strings(&[]);
    let selected = select_databases(&databases, &exports, &forgets);
    assert!(selected.is_empty());
}

#[test]
fn wildcard_keeps_server_order() {
    let databases = strings(&["c", "a", "b"]);
    let exports = strings(&["x", "*"]);
    let forgets = strings(&["a"]);
    let selected = select_databases(&databases, &exports, &forgets);
    assert_eq!(selected, strings(&["c", "b"]));
}

#[test]
fn explicit_keeps_export_order() {
    let databases = strings(&["a", "b", "c"]);
    let exports = strings(&["c", "a"]);
    let forgets = strings(&[]);
    let selected = select_databases(&databases, &exports, &forgets);
    assert_eq!(selected, strings(&["c", "a"]));
}
