use minigrep::filter::{Filter, FilterStrategyBuilder};
use minigrep::search;

#[test]
fn one_result() {
    let query = "duct";
    let contents = "\
Rust:
safe, fast, productive.
Pick three.";

    assert_eq!(
        vec!["safe, fast, productive."],
        search(query, contents, None)
    );
}

#[test]
fn build_and_filter() {
    let query = "duct";
    let contents = "\
Rust:
safe, fast, productive.
this line is over twenty characters long I think
Pick three.";

    let mut builder = FilterStrategyBuilder::new(None);

    builder = builder.and(Filter::LenGt(5));

    builder = builder.and(Filter::LenLt(25));

    let filter = builder.build();

    assert_eq!(
        vec!["safe, fast, productive.", "Pick three."],
        search(query, contents, Some(filter))
    );
}

#[test]
fn build_or_filter() {
    let query = "Rust";
    let contents = "\
Rust:
safe, fast, productive.
this line is over twenty characters long I think
Pick three.";
    let filter: Filter = FilterStrategyBuilder::new(None)
        .and(Filter::LenGt(5))
        .and(Filter::LenLt(25))
        .or(Filter::Contains)
        .build();

    assert_eq!(
        vec!["Rust:", "safe, fast, productive.", "Pick three."],
        search(query, contents, Some(filter))
    );
}

#[test]
fn default_search_keeps_original_order() {
    let matched = search("a", "abc\nxyz\ncba\nqqq\naaa", None);

    assert_eq!(vec!["abc", "cba", "aaa"], matched);
}

#[test]
fn empty_query_matches_every_line() {
    let matched = search("", "one\ntwo", None);

    assert_eq!(vec!["one", "two"], matched);
}

#[test]
fn line_feed_count_fixes_line_count() {
    // three line feeds yield four lines, the trailing empty one included
    let matched = search("", "a\nb\n\nc\n", Some(Filter::AcceptAll));

    assert_eq!(vec!["a", "b", "", "c", ""], matched);
}

#[test]
fn empty_content_is_one_empty_line() {
    let matched = search("", "", Some(Filter::AcceptAll));

    assert_eq!(vec![""], matched);
}

#[test]
fn carriage_returns_stay_on_their_lines() {
    let matched = search("a", "a\r\nab\r\nb", None);

    assert_eq!(vec!["a\r", "ab\r"], matched);
}

#[test]
fn query_split_by_line_feed_does_not_match() {
    let matched = search("ab", "a\nb", None);

    assert!(matched.is_empty());
}
