use minigrep::config::Config;
use minigrep::filter::{Filter, FilterStrategyBuilder};
use minigrep::{filter_for_config, search};

#[test]
fn contains_is_substring_containment() {
    let f = Filter::Contains;

    assert!(f.matches("duct", "productive"));
    assert!(f.matches("", "anything"));
    assert!(!f.matches("duct", "produce"));
    assert!(!f.matches("Rust", "rust"));
}

#[test]
fn min_len_accepts_at_least_n_characters() {
    let f = Filter::MinLen(3);

    assert!(!f.matches("q", "ab"));
    assert!(f.matches("q", "abc"));
    assert!(f.matches("q", "abcd"));
}

#[test]
fn max_len_bound_accepts_longer_lines_too() {
    // the maximum-length bound applies greater-or-equal, exactly like the
    // minimum-length bound: a line longer than the bound still passes
    let f = Filter::MaxLen(3);

    assert!(!f.matches("q", "ab"));
    assert!(f.matches("q", "abc"));
    assert!(f.matches("q", "abcd"));
}

#[test]
fn strict_length_bounds() {
    assert!(!Filter::LenGt(3).matches("q", "abc"));
    assert!(Filter::LenGt(3).matches("q", "abcd"));
    assert!(Filter::LenLt(3).matches("q", "ab"));
    assert!(!Filter::LenLt(3).matches("q", "abc"));
}

#[test]
fn builder_starts_accepting_everything() {
    let f = FilterStrategyBuilder::new(None).build();

    assert!(f.matches("q", ""));
    assert!(f.matches("q", "anything at all"));
}

#[test]
fn and_with_accept_all_is_identity() {
    let f = FilterStrategyBuilder::new(None).and(Filter::LenGt(3)).build();

    assert_eq!(f.matches("q", "abc"), Filter::LenGt(3).matches("q", "abc"));
    assert_eq!(f.matches("q", "abcd"), Filter::LenGt(3).matches("q", "abcd"));
}

#[test]
fn or_with_accept_all_accepts_everything() {
    let f = FilterStrategyBuilder::new(None).or(Filter::LenGt(1000)).build();

    assert!(f.matches("q", ""));
    assert!(f.matches("q", "short"));
}

#[test]
fn build_leaves_the_builder_usable() {
    let builder = FilterStrategyBuilder::new(Some(Filter::Contains));
    let first = builder.build();
    let builder = builder.and(Filter::LenLt(4));
    let second = builder.build();
    let third = builder.build();

    assert!(first.matches("ab", "abc"));
    assert!(!second.matches("ab", "abcd"));
    assert_eq!(second.matches("ab", "abc"), third.matches("ab", "abc"));
    assert_eq!(second.matches("ab", "abcd"), third.matches("ab", "abcd"));
}

#[test]
fn config_filter_applies_containment_and_bounds() {
    let args: Vec<String> = ["minigrep", "duct", "some_path", "--min", "6"]
        .iter()
        .map(|s| s.to_string())
        .collect();
    let config = Config::build(&args).unwrap();
    let contents = "\
Rust:
safe, fast, productive.
Pick three.";

    let matched = search(&config.query, contents, Some(filter_for_config(&config)));

    assert_eq!(vec!["safe, fast, productive."], matched);
}

#[test]
fn config_max_bound_also_demands_at_least_n_characters() {
    // with both bounds given, each demands at least its value; the larger
    // one wins, and no upper limit is applied
    let args: Vec<String> = ["minigrep", "e", "some_path", "--min", "2", "--max", "6"]
        .iter()
        .map(|s| s.to_string())
        .collect();
    let config = Config::build(&args).unwrap();

    let matched = search(
        &config.query,
        "e\nelm\nletters\nx",
        Some(filter_for_config(&config)),
    );

    assert_eq!(vec!["letters"], matched);
}
