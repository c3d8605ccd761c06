use yew_nav_link::{build_class, is_active, is_path_prefix, path_matches, Match};

#[test]
fn exact_matches_identical_paths() {
    for path in ["", "/", "/docs", "/docs/", "/docs//api", "docs", "/café"] {
        assert!(path_matches(path, path, Match::Exact));
    }
}

#[test]
fn exact_compares_raw_strings() {
    assert!(!path_matches("/docs", "/docs/", Match::Exact));
    assert!(!path_matches("/docs/", "/docs", Match::Exact));
    assert!(!path_matches("/docs", "//docs", Match::Exact));
    assert!(!path_matches("/docs", "docs", Match::Exact));
    assert!(!path_matches("", "/", Match::Exact));
    assert!(!path_matches("/docs", "/docs/api", Match::Exact));
    assert!(!path_matches("/docs/api", "/docs", Match::Exact));
    assert!(!path_matches("/docs", "/Docs", Match::Exact));
}

#[test]
fn exact_differs_from_partial_on_separator_noise() {
    assert!(path_matches("/docs/", "/docs", Match::Partial));
    assert!(!path_matches("/docs/", "/docs", Match::Exact));
    assert!(path_matches("/", "", Match::Partial));
    assert!(!path_matches("/", "", Match::Exact));
}

#[test]
fn exact_tells_long_paths_apart_at_the_end() {
    assert!(path_matches("/a/b/c/d/e/f", "/a/b/c/d/e/f", Match::Exact));
    assert!(!path_matches("/a/b/c/d/e/f", "/a/b/c/d/e/g", Match::Exact));
    assert!(!path_matches("/a/b/c/d/e/f", "/a/b/c/d/e/", Match::Exact));
}

#[test]
fn partial_prefix_of_segments_matches() {
    assert!(path_matches("/docs", "/docs/api", Match::Partial));
    assert!(path_matches("/docs", "/docs", Match::Partial));
    assert!(path_matches("/docs/api", "/docs/api/ref/x", Match::Partial));
}

#[test]
fn partial_agrees_with_is_path_prefix() {
    let paths = ["", "/", "/docs", "/docs/", "/docs/api", "/doc", "/documents", "//docs//api/"];
    for target in paths {
        for current in paths {
            assert_eq!(
                path_matches(target, current, Match::Partial),
                is_path_prefix(target, current)
            );
        }
    }
}

#[test]
fn partial_empty_target_matches_everything() {
    for current in ["", "/", "/docs", "/docs/api", "docs", "///", "/any/path/here"] {
        assert!(path_matches("", current, Match::Partial));
    }
}

#[test]
fn partial_root_target_matches_everything() {
    for current in ["", "/", "/docs", "/docs/api", "docs", "///", "/any/path/here"] {
        assert!(path_matches("/", current, Match::Partial));
    }
}

#[test]
fn partial_segment_boundary_is_kept() {
    assert!(!path_matches("/doc", "/documents", Match::Partial));
    assert!(!path_matches("/api", "/api-v2", Match::Partial));
    assert!(!path_matches("/docs/a", "/docs/api", Match::Partial));
}

#[test]
fn partial_separator_noise_is_ignored() {
    assert!(path_matches("/docs//", "/docs/api", Match::Partial));
    assert!(path_matches("/docs", "/docs/api", Match::Partial));
    assert_eq!(
        path_matches("/docs//", "/docs/api", Match::Partial),
        path_matches("/docs", "/docs/api", Match::Partial)
    );
}

#[test]
fn partial_longer_target_does_not_match() {
    assert!(!path_matches("/a/b/c", "/a/b", Match::Partial));
}

#[test]
fn partial_scenarios() {
    assert!(path_matches("/docs", "/docs/api", Match::Partial));
    assert!(path_matches("/docs", "/docs", Match::Partial));
    assert!(!path_matches("/docs/api", "/docs", Match::Partial));
    assert!(!path_matches("/about", "/docs", Match::Partial));
    assert!(!path_matches("/api", "/api-v2", Match::Partial));
    assert!(path_matches("", "", Match::Partial));
    assert!(!path_matches("/docs", "", Match::Partial));
}

#[test]
fn default_mode_is_exact_matching() {
    assert!(path_matches("/docs", "/docs", Match::default()));
    assert!(!path_matches("/docs", "/docs/api", Match::default()));
}

#[test]
fn active_needs_a_current_path() {
    assert!(!is_active("/docs", None, Match::Exact));
    assert!(!is_active("/docs", None, Match::Partial));
    assert!(!is_active("", None, Match::Partial));
    assert!(!is_active("/", None, Match::Partial));
    assert!(!is_active("", None, Match::Exact));
}

#[test]
fn active_follows_the_mode() {
    assert!(is_active("/docs", Some("/docs"), Match::Exact));
    assert!(!is_active("/docs", Some("/docs/api"), Match::Exact));
    assert!(is_active("/docs", Some("/docs/api"), Match::Partial));
    assert!(!is_active("/docs/api", Some("/docs"), Match::Partial));
    assert!(is_active("/", Some("/docs"), Match::Partial));
    assert!(!is_active("/", Some("/docs"), Match::Exact));
}

#[test]
fn active_agrees_with_path_matches() {
    let paths = ["", "/", "/docs", "/docs/", "/docs/api", "/doc"];
    for target in paths {
        for current in paths {
            for mode in [Match::Exact, Match::Partial] {
                assert_eq!(
                    is_active(target, Some(current), mode),
                    path_matches(target, current, mode)
                );
            }
        }
    }
}

#[test]
fn active_link_gets_the_active_class() {
    let on_docs = Some("/docs/api");
    let docs = is_active("/docs", on_docs, Match::from_partial(true));
    let about = is_active("/about", on_docs, Match::from_partial(true));
    let docs_exact = is_active("/docs", on_docs, Match::from_partial(false));
    assert_eq!(build_class(docs), "nav-link active");
    assert_eq!(build_class(about), "nav-link");
    assert_eq!(build_class(docs_exact), "nav-link");
    assert_eq!(build_class(is_active("/docs", None, Match::Partial)), "nav-link");
}
