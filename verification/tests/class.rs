use yew_nav_link::build_class;

#[test]
fn build_class_active() {
    assert_eq!(build_class(true), "nav-link active");
}

#[test]
fn build_class_inactive() {
    assert_eq!(build_class(false), "nav-link");
}

#[test]
fn build_class_active_extends_base() {
    let base = build_class(false);
    let active = build_class(true);
    assert_eq!(active, format!("{} {}", base, "active"));
    let tokens: Vec<&str> = active.split(' ').collect();
    assert_eq!(tokens, vec!["nav-link", "active"]);
}
