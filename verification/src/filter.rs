//! The composable filter engine: a filter is a tree of atomic tests over a
//! `(query, line)` pair, combined with logical AND and OR, and a builder
//! chains combinators onto a current filter.

use vstd::prelude::*;
use crate::text::{contains_substr, str_contains};

verus! {

/// A boolean test over a `(query, line)` pair, built from atomic tests
/// combined with logical AND and OR.
pub enum Filter {
    /// Accepts every line.
    AcceptAll,
    /// Accepts lines that contain the query as a contiguous run of characters.
    Contains,
    /// Accepts lines of at least `n` characters.
    MinLen(u64),
    /// The maximum-length bound. Caution: it compares with greater-or-equal,
    /// exactly like `MinLen`, and so accepts lines of at least `n`
    /// characters, not of at most `n`. A caller who wants a strict upper
    /// bound should use `LenLt`.
    MaxLen(u64),
    /// Accepts lines of more than `n` characters.
    LenGt(u64),
    /// Accepts lines of fewer than `n` characters.
    LenLt(u64),
    /// Accepts lines that both parts accept.
    And(Box<Filter>, Box<Filter>),
    /// Accepts lines that either part accepts.
    Or(Box<Filter>, Box<Filter>),
}

/// What a filter means: whether `f` accepts `line` for `query`.
pub open spec fn filter_matches(f: Filter, query: Seq<char>, line: Seq<char>) -> bool
    decreases f,
{
    match f {
        Filter::AcceptAll => true,
        Filter::Contains => contains_substr(line, query),
        Filter::MinLen(n) => line.len() >= n,
        Filter::MaxLen(n) => line.len() >= n,
        Filter::LenGt(n) => line.len() > n,
        Filter::LenLt(n) => line.len() < n,
        Filter::And(a, b) => filter_matches(*a, query, line) && filter_matches(*b, query, line),
        Filter::Or(a, b) => filter_matches(*a, query, line) || filter_matches(*b, query, line),
    }
}

impl Filter {
    /// Evaluates the filter on a query and a line.
    pub fn matches(&self, query: &str, line: &str) -> (r: bool)
        ensures
            r == filter_matches(*self, query@, line@),
        decreases *self,
    {
        match self {
            Filter::AcceptAll => true,
            Filter::Contains => str_contains(line, query),
            Filter::MinLen(n) => line.unicode_len() as u64 >= *n,
            Filter::MaxLen(n) => line.unicode_len() as u64 >= *n,
            Filter::LenGt(n) => line.unicode_len() as u64 > *n,
            Filter::LenLt(n) => (line.unicode_len() as u64) < *n,
            Filter::And(a, b) => a.matches(query, line) && b.matches(query, line),
            Filter::Or(a, b) => a.matches(query, line) || b.matches(query, line),
        }
    }
}

impl Clone for Filter {
    /// A clone is the same filter.
    fn clone(&self) -> (r: Self)
        ensures
            r == *self,
        decreases *self,
    {
        match self {
            Filter::AcceptAll => Filter::AcceptAll,
            Filter::Contains => Filter::Contains,
            Filter::MinLen(n) => Filter::MinLen(*n),
            Filter::MaxLen(n) => Filter::MaxLen(*n),
            Filter::LenGt(n) => Filter::LenGt(*n),
            Filter::LenLt(n) => Filter::LenLt(*n),
            Filter::And(a, b) => Filter::And(Box::new((**a).clone()), Box::new((**b).clone())),
            Filter::Or(a, b) => Filter::Or(Box::new((**a).clone()), Box::new((**b).clone())),
        }
    }
}

/// The filter a builder starts from: the given one, or one that accepts
/// every line when none is given.
pub open spec fn initial_filter(f: Option<Filter>) -> Filter {
    match f {
        Some(g) => g,
        None => Filter::AcceptAll,
    }
}

/// Composes a filter by chaining AND / OR combinators onto a current filter.
pub struct FilterStrategyBuilder {
    /// The filter composed so far.
    pub strategy: Filter,
}

impl FilterStrategyBuilder {
    /// Starts from `f`, or from a filter accepting every line when `f` is
    /// `None`.
    pub fn new(f: Option<Filter>) -> (builder: FilterStrategyBuilder)
        ensures
            builder.strategy == initial_filter(f),
    {
        match f {
            Some(g) => FilterStrategyBuilder { strategy: g },
            None => FilterStrategyBuilder { strategy: Filter::AcceptAll },
        }
    }

    /// Returns the composed filter; the builder keeps its state, so further
    /// combinators continue from it and `build` can be called again.
    pub fn build(&self) -> (f: Filter)
        ensures
            f == self.strategy,
    {
        self.strategy.clone()
    }

    /// Replaces the current filter with `current AND f` and hands the
    /// builder back for chaining.
    pub fn and(self, f: Filter) -> (builder: FilterStrategyBuilder)
        ensures
            builder.strategy == Filter::And(Box::new(self.strategy), Box::new(f)),
    {
        FilterStrategyBuilder { strategy: Filter::And(Box::new(self.strategy), Box::new(f)) }
    }

    /// Replaces the current filter with `current OR f` and hands the
    /// builder back for chaining.
    pub fn or(self, f: Filter) -> (builder: FilterStrategyBuilder)
        ensures
            builder.strategy == Filter::Or(Box::new(self.strategy), Box::new(f)),
    {
        FilterStrategyBuilder { strategy: Filter::Or(Box::new(self.strategy), Box::new(f)) }
    }
}

/// True of a filter that accepts every line for every query.
pub open spec fn accepts_all(f: Filter) -> bool {
    forall|query: Seq<char>, line: Seq<char>| filter_matches(f, query, line)
}

/// The filter accepting every line does accept every line.
pub proof fn lemma_accept_all_accepts()
    ensures
        accepts_all(Filter::AcceptAll),
{
}

/// AND of an always-accepting filter with `p` accepts exactly the lines
/// that `p` accepts.
pub proof fn lemma_and_accept_all_identity(t: Box<Filter>, p: Box<Filter>, query: Seq<char>, line: Seq<char>)
    requires
        accepts_all(*t),
    ensures
        filter_matches(Filter::And(t, p), query, line) == filter_matches(*p, query, line),
{
    assert(filter_matches(*t, query, line));
}

/// OR of an always-accepting filter with anything accepts every line.
pub proof fn lemma_or_accept_all(t: Box<Filter>, p: Box<Filter>, query: Seq<char>, line: Seq<char>)
    requires
        accepts_all(*t),
    ensures
        filter_matches(Filter::Or(t, p), query, line),
{
    assert(filter_matches(*t, query, line));
}

} // verus!
