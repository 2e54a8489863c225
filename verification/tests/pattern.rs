use c_sharp_analyzer_provider_cli::c_sharp_graph::pattern::{PatternError, Search};

#[test]
fn star_matches_every_leaf() {
    let search = Search::create_search("*".to_string()).unwrap();
    assert_eq!(search.len(), 1);
    assert!(search.match_symbol("AppSettings"));
    assert!(search.match_symbol(""));
    assert!(search.match_symbol("a.b"));
}

#[test]
fn star_dot_star_has_two_parts() {
    let search = Search::create_search("*.*".to_string()).unwrap();
    assert_eq!(search.len(), 2);
    assert!(search.match_namespace("System.Configuration"));
    assert!(search.partial_namespace("A.B"));
}

#[test]
fn literal_parts_match_by_equality() {
    let search = Search::create_search("System.Configuration.ConfigurationManager".to_string())
        .unwrap();
    assert_eq!(search.len(), 3);
    assert!(search.match_symbol("ConfigurationManager"));
    assert!(!search.match_symbol("ConfigurationManagers"));
    assert!(!search.match_symbol("configurationmanager"));
    assert!(search.match_namespace("System.Configuration"));
    assert!(!search.match_namespace("System.Web"));
}

#[test]
fn unbalanced_bracket_is_a_bad_pattern() {
    let res = Search::create_search("System.[*".to_string());
    assert!(matches!(res, Err(PatternError::BadPattern)));
}
