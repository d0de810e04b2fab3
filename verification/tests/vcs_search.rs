use ramag_tools::vcs_search::{parse_relative_time, parse_search_query};

#[test]
fn parses_pure_keyword_into_grep() {
    let (g, a, s) = parse_search_query("bug fix");
    assert_eq!(g.as_deref(), Some("bug fix"));
    assert!(a.is_none());
    assert!(s.is_none());
}

#[test]
fn parses_author_prefix() {
    let (g, a, s) = parse_search_query("@alice");
    assert!(g.is_none());
    assert_eq!(a.as_deref(), Some("alice"));
    assert!(s.is_none());
}

#[test]
fn parses_relative_time() {
    let (g, a, s) = parse_search_query("7d");
    assert!(g.is_none());
    assert!(a.is_none());
    assert_eq!(s.as_deref(), Some("7 days ago"));
}

#[test]
fn mixes_three_kinds() {
    let (g, a, s) = parse_search_query("bug @alice 1w");
    assert_eq!(g.as_deref(), Some("bug"));
    assert_eq!(a.as_deref(), Some("alice"));
    assert_eq!(s.as_deref(), Some("1 weeks ago"));
}

#[test]
fn empty_query_is_all_none() {
    assert_eq!(parse_search_query(""), (None, None, None));
    assert_eq!(parse_search_query("   \t "), (None, None, None));
}

#[test]
fn later_author_and_age_win() {
    let (g, a, s) = parse_search_query("@bob fix 2m @carol 3y  crash");
    assert_eq!(g.as_deref(), Some("fix crash"));
    assert_eq!(a.as_deref(), Some("carol"));
    assert_eq!(s.as_deref(), Some("3 years ago"));
}

#[test]
fn lone_at_sign_is_a_message_word() {
    let (g, a, s) = parse_search_query("@ x");
    assert_eq!(g.as_deref(), Some("@ x"));
    assert!(a.is_none());
    assert!(s.is_none());
}

#[test]
fn relative_time_units() {
    assert_eq!(parse_relative_time("12h").as_deref(), Some("12 hours ago"));
    assert_eq!(parse_relative_time("2m").as_deref(), Some("2 months ago"));
    assert_eq!(parse_relative_time("+5d").as_deref(), Some("5 days ago"));
    assert_eq!(parse_relative_time("007w").as_deref(), Some("7 weeks ago"));
}

#[test]
fn relative_time_rejects() {
    assert_eq!(parse_relative_time("d"), None);
    assert_eq!(parse_relative_time(""), None);
    assert_eq!(parse_relative_time("7x"), None);
    assert_eq!(parse_relative_time("xd"), None);
    assert_eq!(parse_relative_time("-1d"), None);
    assert_eq!(parse_relative_time("4294967296d"), None);
    assert_eq!(
        parse_relative_time("4294967295d").as_deref(),
        Some("4294967295 days ago")
    );
}
