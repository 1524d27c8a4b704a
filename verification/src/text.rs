//! Character-level text operations: substring containment and splitting
//! a text into lines at line-feed characters.

use vstd::prelude::*;

verus! {

/// True when `needle` occurs in `hay` starting at character position `at`.
pub open spec fn matches_at(hay: Seq<char>, needle: Seq<char>, at: int) -> bool {
    0 <= at && at + needle.len() <= hay.len() && hay.subrange(at, at + needle.len()) == needle
}

/// True when `needle` occurs somewhere in `hay` as a contiguous run of characters.
pub open spec fn contains_substr(hay: Seq<char>, needle: Seq<char>) -> bool {
    exists|at: int| matches_at(hay, needle, at)
}

/// Checks whether `needle` matches `hay` at character position `at`.
fn matches_at_exec(hay: &str, needle: &str, at: usize, hay_len: usize, needle_len: usize) -> (r: bool)
    requires
        hay_len == hay@.len(),
        needle_len == needle@.len(),
        at + needle_len <= hay_len,
    ensures
        r == matches_at(hay@, needle@, at as int),
{
    let mut j: usize = 0;
    while j < needle_len
        invariant
            hay_len == hay@.len(),
            needle_len == needle@.len(),
            at + needle_len <= hay_len,
            j <= needle_len,
            forall|k: int| 0 <= k < j ==> hay@[at + k] == needle@[k],
        decreases needle_len - j,
    {
        if hay.get_char(at + j) != needle.get_char(j) {
            proof {
                assert(hay@.subrange(at as int, at + needle@.len())[j as int] == hay@[at + j]);
            }
            return false;
        }
        j += 1;
    }
    proof {
        assert(hay@.subrange(at as int, at + needle@.len()) =~= needle@);
    }
    true
}

/// Reports whether `needle` occurs in `hay` as a contiguous run of characters.
pub fn str_contains(hay: &str, needle: &str) -> (r: bool)
    ensures
        r == contains_substr(hay@, needle@),
{
    let hay_len = hay.unicode_len();
    let needle_len = needle.unicode_len();
    if needle_len > hay_len {
        proof {
            assert(forall|at: int| !matches_at(hay@, needle@, at));
        }
        return false;
    }
    if needle_len == 0 {
        proof {
            assert(hay@.subrange(0, 0) =~= needle@);
            assert(matches_at(hay@, needle@, 0));
        }
        return true;
    }
    let mut at: usize = 0;
    while at <= hay_len - needle_len
        invariant
            hay_len == hay@.len(),
            needle_len == needle@.len(),
            0 < needle_len <= hay_len,
            at <= hay_len - needle_len + 1,
            forall|k: int| 0 <= k < at ==> !matches_at(hay@, needle@, k),
        decreases hay_len - at,
    {
        if matches_at_exec(hay, needle, at, hay_len, needle_len) {
            return true;
        }
        at += 1;
    }
    proof {
        assert(forall|k: int| matches_at(hay@, needle@, k) ==> 0 <= k < at);
    }
    false
}

/// The lines of `content`: the segments between line-feed characters, with
/// one (possibly empty) trailing segment after the last line feed. No other
/// character ends a line, so a carriage return stays on its line.
pub open spec fn lines_of(content: Seq<char>) -> Seq<Seq<char>>
    decreases content.len(),
{
    if content.len() == 0 {
        seq![Seq::<char>::empty()]
    } else if content[0] == '\n' {
        seq![Seq::<char>::empty()] + lines_of(content.skip(1))
    } else {
        let rest = lines_of(content.skip(1));
        seq![seq![content[0]] + rest[0]] + rest.skip(1)
    }
}

/// The number of line-feed characters in `content`.
pub open spec fn count_line_feeds(content: Seq<char>) -> int
    decreases content.len(),
{
    if content.len() == 0 {
        0
    } else {
        (if content[0] == '\n' { 1int } else { 0int }) + count_line_feeds(content.skip(1))
    }
}

/// Every text has at least one line.
pub proof fn lemma_lines_of_nonempty(content: Seq<char>)
    ensures
        lines_of(content).len() >= 1,
    decreases content.len(),
{
    if content.len() == 0 {
    } else if content[0] == '\n' {
        lemma_lines_of_nonempty(content.skip(1));
    } else {
        lemma_lines_of_nonempty(content.skip(1));
    }
}

/// A text with `n` line-feed characters has exactly `n + 1` lines.
pub proof fn lemma_lines_count(content: Seq<char>)
    ensures
        lines_of(content).len() == count_line_feeds(content) + 1,
    decreases content.len(),
{
    if content.len() == 0 {
    } else {
        lemma_lines_count(content.skip(1));
        lemma_lines_of_nonempty(content.skip(1));
    }
}

/// A text without a line feed is its own single line.
proof fn lemma_lines_of_no_feed(content: Seq<char>)
    requires
        forall|k: int| 0 <= k < content.len() ==> content[k] != '\n',
    ensures
        lines_of(content) =~~= seq![content],
    decreases content.len(),
{
    if content.len() == 0 {
        assert(lines_of(content) =~~= seq![content]);
    } else {
        lemma_lines_of_no_feed(content.skip(1));
        assert(seq![content[0]] + content.skip(1) =~= content);
        assert(lines_of(content) =~~= seq![content]);
    }
}

/// With the first line feed of the text at position `i`, the lines are the
/// segment before it followed by the lines of what comes after it.
proof fn lemma_lines_of_first_feed(content: Seq<char>, i: int)
    requires
        0 <= i < content.len(),
        content[i] == '\n',
        forall|k: int| 0 <= k < i ==> content[k] != '\n',
    ensures
        lines_of(content) =~~= seq![content.take(i)] + lines_of(content.skip(i + 1)),
    decreases i,
{
    if i == 0 {
        assert(content.take(0) =~= Seq::<char>::empty());
        assert(content.skip(1) =~= content.skip(i + 1));
    } else {
        let tail = content.skip(1);
        lemma_lines_of_first_feed(tail, i - 1);
        lemma_lines_of_nonempty(tail.skip(i));
        assert(seq![content[0]] + tail.take(i - 1) =~= content.take(i));
        assert(tail.skip(i) =~= content.skip(i + 1));
        assert(lines_of(content) =~~= seq![content.take(i)] + lines_of(content.skip(i + 1)));
    }
}

/// Splits `content` at every line-feed character, keeping the (possibly
/// empty) trailing segment after the last line feed.
pub fn split_lines<'a>(content: &'a str) -> (lines: Vec<&'a str>)
    ensures
        lines.deep_view() == lines_of(content@),
{
    let n = content.unicode_len();
    let mut lines: Vec<&'a str> = Vec::new();
    let mut start: usize = 0;
    let mut i: usize = 0;
    proof {
        assert(content@.skip(0) =~= content@);
        assert(lines.deep_view() =~~= Seq::<Seq<char>>::empty());
        assert(lines_of(content@) =~~= lines.deep_view() + lines_of(content@.skip(0)));
    }
    while i < n
        invariant
            n == content@.len(),
            start <= i <= n,
            forall|k: int| start <= k < i ==> content@[k] != '\n',
            lines_of(content@) =~~= lines.deep_view() + lines_of(content@.skip(start as int)),
        decreases n - i,
    {
        let c = content.get_char(i);
        if c == '\n' {
            let seg = content.substring_char(start, i);
            proof {
                let suffix = content@.skip(start as int);
                assert(suffix[i - start] == content@[i as int]);
                assert(forall|k: int| 0 <= k < i - start ==> suffix[k] == content@[start + k]);
                lemma_lines_of_first_feed(suffix, i - start);
                assert(suffix.take(i - start) =~= content@.subrange(start as int, i as int));
                assert(suffix.skip(i - start + 1) =~= content@.skip(i + 1));
            }
            lines.push(seg);
            proof {
                assert(lines_of(content@) =~~= lines.deep_view() + lines_of(
                    content@.skip(i + 1),
                ));
            }
            start = i + 1;
        }
        i += 1;
    }
    let seg = content.substring_char(start, n);
    proof {
        let suffix = content@.skip(start as int);
        assert(forall|k: int| 0 <= k < suffix.len() ==> suffix[k] == content@[start + k]);
        lemma_lines_of_no_feed(suffix);
        assert(suffix =~= content@.subrange(start as int, n as int));
    }
    lines.push(seg);
    proof {
        assert(lines.deep_view() =~~= lines_of(content@));
    }
    lines
}

} // verus!
