//! A line-oriented text search library: a composable filter engine over
//! `(query, line)` pairs, an argument parser that separates positional
//! tokens from options, and a search function that returns the lines of a
//! text accepted by a filter, in their original order.

pub mod config;
pub mod filter;
pub mod numeral;
pub mod text;

use vstd::prelude::*;
use crate::config::Config;
use crate::filter::{Filter, FilterStrategyBuilder, filter_matches};
use crate::text::{contains_substr, lines_of, split_lines};

verus! {

/// Whether a line passes the tests a configuration asks for: substring
/// containment of the query, then each length bound that was given. Both
/// bounds compare with greater-or-equal (see `Filter::MaxLen`).
pub open spec fn config_accepts(
    min: Option<u64>,
    max: Option<u64>,
    query: Seq<char>,
    line: Seq<char>,
) -> bool {
    &&& contains_substr(line, query)
    &&& (min matches Some(v) ==> line.len() >= v)
    &&& (max matches Some(v) ==> line.len() >= v)
}

/// Builds the filter a configuration asks for: substring containment as the
/// base, then — for each length bound that was given — that bound combined
/// with AND.
pub fn filter_for_config(config: &Config) -> (f: Filter)
    ensures
        forall|query: Seq<char>, line: Seq<char>| #[trigger] filter_matches(f, query, line)
            == config_accepts(config.min_line_len, config.max_line_len, query, line),
{
    let mut builder = FilterStrategyBuilder::new(Some(Filter::Contains));
    if let Some(v) = config.min_line_len {
        builder = builder.and(Filter::MinLen(v));
    }
    if let Some(v) = config.max_line_len {
        builder = builder.and(Filter::MaxLen(v));
    }
    let f = builder.build();
    proof {
        assert forall|query: Seq<char>, line: Seq<char>| #[trigger] filter_matches(f, query, line)
            == config_accepts(config.min_line_len, config.max_line_len, query, line) by {
            reveal_with_fuel(filter_matches, 4);
        }
    }
    f
}

/// The filter `search` applies: the given one, or plain substring
/// containment when none is given.
pub open spec fn effective_filter(filter_strategy: Option<Filter>) -> Filter {
    match filter_strategy {
        Some(f) => f,
        None => Filter::Contains,
    }
}

/// The lines of `content` accepted by `f` for `query`, in their original
/// order.
pub open spec fn matching_lines(f: Filter, query: Seq<char>, content: Seq<char>) -> Seq<Seq<char>> {
    lines_of(content).filter(|line: Seq<char>| filter_matches(f, query, line))
}

/// With no filter given, the matching lines are exactly the lines of the
/// content that contain the query, in their original order, and no others.
pub proof fn lemma_default_search_is_containment(query: Seq<char>, content: Seq<char>)
    ensures
        matching_lines(effective_filter(None), query, content) == lines_of(content).filter(
            |line: Seq<char>| contains_substr(line, query),
        ),
{
    let accepted = |line: Seq<char>| filter_matches(Filter::Contains, query, line);
    let contains = |line: Seq<char>| contains_substr(line, query);
    assert(accepted =~= contains);
}

/// Splits `contents` at every line-feed character and returns, in their
/// original order, the lines accepted by the filter — by plain substring
/// containment of `query` when no filter is given. The returned values
/// borrow from `contents`.
pub fn search<'a>(query: &str, contents: &'a str, filter_strategy: Option<Filter>) -> (matched: Vec<&'a str>)
    ensures
        matched.deep_view() == matching_lines(effective_filter(filter_strategy), query@, contents@),
{
    let ghost f = effective_filter(filter_strategy);
    let ghost pred = |line: Seq<char>| filter_matches(f, query@, line);
    let filter = match filter_strategy {
        Some(g) => g,
        None => Filter::Contains,
    };
    let lines = split_lines(contents);
    let ghost all_lines = lines.deep_view();
    let mut matched: Vec<&'a str> = Vec::new();
    let mut i: usize = 0;
    proof {
        assert(all_lines.take(0) =~= Seq::<Seq<char>>::empty());
        reveal(Seq::filter);
        assert(matched.deep_view() =~= all_lines.take(0).filter(pred));
    }
    while i < lines.len()
        invariant
            filter == f,
            pred == (|line: Seq<char>| filter_matches(f, query@, line)),
            all_lines == lines.deep_view(),
            i <= lines.len(),
            all_lines.len() == lines.len(),
            matched.deep_view() == all_lines.take(i as int).filter(pred),
        decreases lines.len() - i,
    {
        let line = lines[i];
        let ghost prev = matched.deep_view();
        if filter.matches(query, line) {
            matched.push(line);
            proof {
                assert(matched.deep_view() =~= prev.push(line@));
            }
        }
        proof {
            reveal(Seq::filter);
            assert(all_lines.take(i + 1).drop_last() =~= all_lines.take(i as int));
            assert(all_lines.take(i + 1).last() == line@);
        }
        i += 1;
    }
    proof {
        assert(all_lines.take(lines.len() as int) =~= all_lines);
        assert(matched.deep_view() == matching_lines(f, query@, contents@));
    }
    matched
}

} // verus!
