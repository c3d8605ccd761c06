use yew_nav_link::Match;

#[test]
fn match_default_is_exact() {
    assert_eq!(Match::default(), Match::Exact);
}

#[test]
fn match_equality() {
    assert_eq!(Match::Exact, Match::Exact);
    assert_eq!(Match::Partial, Match::Partial);
    assert_ne!(Match::Exact, Match::Partial);
}

#[test]
fn match_debug() {
    assert_eq!(format!("{:?}", Match::Exact), "Exact");
    assert_eq!(format!("{:?}", Match::Partial), "Partial");
}

#[test]
fn match_clone() {
    let m = Match::Partial;
    let cloned = m;
    assert_eq!(m, cloned);
}

#[test]
fn match_from_partial_flag() {
    assert_eq!(Match::from_partial(true), Match::Partial);
    assert_eq!(Match::from_partial(false), Match::Exact);
}

#[test]
fn match_is_partial() {
    assert!(Match::Partial.is_partial());
    assert!(!Match::Exact.is_partial());
    assert!(!Match::default().is_partial());
}

#[test]
fn match_flag_round_trip() {
    assert!(Match::from_partial(true).is_partial());
    assert!(!Match::from_partial(false).is_partial());
    assert_eq!(Match::from_partial(Match::Exact.is_partial()), Match::Exact);
    assert_eq!(Match::from_partial(Match::Partial.is_partial()), Match::Partial);
}
