//! The line search: which lines of a text hold the query, and under which
//! numbers.

use crate::config::Config;
use crate::text::{contains, is_substring, lines, lines_of, lowercase, to_lowercase};
use vstd::prelude::*;
use vstd::string::*;

verus! {

/// Whether a line holds the query. Case-sensitive, the query is a substring of
/// the line; ignoring case, the lowercase query is a substring of the lowercase
/// line.
pub open spec fn line_matches(query: Seq<char>, line: Seq<char>, nocase: bool) -> bool {
    if nocase {
        is_substring(lowercase(query), lowercase(line))
    } else {
        is_substring(query, line)
    }
}

/// Each line with its number: the first line has number 1, the next 2, and so on.
pub open spec fn numbered(lines: Seq<Seq<char>>) -> Seq<(Seq<char>, u32)> {
    Seq::new(lines.len(), |i: int| (lines[i], (i + 1) as u32))
}

/// The test that a numbered line passes when its text holds the query.
pub open spec fn matching(query: Seq<char>, nocase: bool) -> spec_fn((Seq<char>, u32)) -> bool {
    |p: (Seq<char>, u32)| line_matches(query, p.0, nocase)
}

/// The numbered lines that hold the query, in their order.
pub open spec fn matches_in(lines: Seq<Seq<char>>, query: Seq<char>, nocase: bool) -> Seq<
    (Seq<char>, u32),
> {
    numbered(lines).filter(matching(query, nocase))
}

/// Filtering a sequence keeps its last element or not, after filtering the rest.
proof fn lemma_filter_last<A>(s: Seq<A>, pred: spec_fn(A) -> bool)
    ensures
        s.len() == 0 ==> s.filter(pred) == s,
        s.len() > 0 ==> s.filter(pred) == if pred(s.last()) {
            s.drop_last().filter(pred).push(s.last())
        } else {
            s.drop_last().filter(pred)
        },
{
    reveal(Seq::filter);
}

/// What holds of the matches among the first `n` lines: each is a line under its
/// own number, the numbers rise, and no matching line is missing.
proof fn lemma_matches_in_prefix(lines: Seq<Seq<char>>, query: Seq<char>, nocase: bool, n: int)
    requires
        0 <= n <= lines.len() <= u32::MAX,
    ensures
        ({
            let found = matches_in(lines.take(n), query, nocase);
            &&& forall|j: int|
                0 <= j < found.len() ==> 1 <= (#[trigger] found[j]).1 <= n && found[j].0
                    == lines[found[j].1 - 1] && line_matches(query, found[j].0, nocase)
            &&& forall|j: int, k: int|
                0 <= j < k < found.len() ==> (#[trigger] found[j]).1 < (#[trigger] found[k]).1
            &&& forall|i: int|
                0 <= i < n && line_matches(query, lines[i], nocase) ==> found.contains(
                    (#[trigger] lines[i], (i + 1) as u32),
                )
        }),
    decreases n,
{
    let pred = matching(query, nocase);
    let all = numbered(lines.take(n));
    lemma_filter_last(all, pred);
    let found = matches_in(lines.take(n), query, nocase);
    if n > 0 {
        lemma_matches_in_prefix(lines, query, nocase, n - 1);
        let before = matches_in(lines.take(n - 1), query, nocase);
        assert(all.drop_last() =~= numbered(lines.take(n - 1)));
        assert(all.last() == (lines[n - 1], n as u32));
        assert(found == if pred(all.last()) {
            before.push(all.last())
        } else {
            before
        });
        assert forall|i: int|
            0 <= i < n && line_matches(query, lines[i], nocase) implies found.contains(
            (#[trigger] lines[i], (i + 1) as u32),
        ) by {
            if i < n - 1 {
                let j = choose|j: int|
                    0 <= j < before.len() && before[j] == (lines[i], (i + 1) as u32);
                assert(found[j] == (lines[i], (i + 1) as u32));
            } else {
                assert(found[found.len() - 1] == (lines[i], (i + 1) as u32));
            }
        }
    } else {
        assert(all =~= Seq::empty());
    }
}

/// Line numbers start at 1 and rise by 1 with every line of the text, whether
/// the line matches or not: each reported pair is a matching line under the
/// number of its place in the text, the pairs come in the order of the text, and
/// every matching line is reported.
pub proof fn lemma_matches_are_numbered_lines(lines: Seq<Seq<char>>, query: Seq<char>, nocase: bool)
    requires
        lines.len() <= u32::MAX,
    ensures
        forall|i: int| 0 <= i < lines.len() ==> #[trigger] numbered(lines)[i] == (lines[i], (i + 1) as u32),
        ({
            let found = matches_in(lines, query, nocase);
            &&& forall|j: int|
                0 <= j < found.len() ==> 1 <= (#[trigger] found[j]).1 <= lines.len() && found[j].0
                    == lines[found[j].1 - 1] && line_matches(query, found[j].0, nocase)
            &&& forall|j: int, k: int|
                0 <= j < k < found.len() ==> (#[trigger] found[j]).1 < (#[trigger] found[k]).1
            &&& forall|i: int|
                0 <= i < lines.len() && line_matches(query, lines[i], nocase) ==> found.contains(
                    (#[trigger] lines[i], (i + 1) as u32),
                )
        }),
{
    lemma_matches_in_prefix(lines, query, nocase, lines.len() as int);
    assert(lines.take(lines.len() as int) =~= lines);
}

/// Whether `line` holds `needle`, which is in lowercase already where case is
/// ignored.
fn line_holds(line: &str, needle: &str, nocase: bool) -> (r: bool)
    ensures
        r == if nocase {
            is_substring(needle@, lowercase(line@))
        } else {
            is_substring(needle@, line@)
        },
{
    if nocase {
        let low = to_lowercase(line);
        contains(low.as_str(), needle)
    } else {
        contains(line, needle)
    }
}

/// The lines among `all` that hold `query`, each with its number in `all`.
/// Letter case is ignored where `nocase` says so.
pub fn search_lines<'a>(query: &str, all: &Vec<&'a str>, nocase: bool) -> (found: Vec<
    (&'a str, u32),
>)
    requires
        all.len() <= u32::MAX,
    ensures
        found.deep_view() == matches_in(all.deep_view(), query@, nocase),
{
    let folded = if nocase {
        to_lowercase(query)
    } else {
        String::new()
    };
    let needle = if nocase {
        folded.as_str()
    } else {
        query
    };
    let n = all.len();
    let ghost texts = all.deep_view();
    let ghost pred = matching(query@, nocase);
    let mut found: Vec<(&'a str, u32)> = Vec::new();
    let mut i: usize = 0;
    proof {
        assert(numbered(texts).take(0) =~= Seq::empty());
        lemma_filter_last(numbered(texts).take(0), pred);
    }
    while i < n
        invariant
            i <= n,
            n == all.len(),
            n <= u32::MAX,
            all.deep_view() == texts,
            nocase ==> needle@ == lowercase(query@),
            !nocase ==> needle@ == query@,
            pred == matching(query@, nocase),
            found.deep_view() == numbered(texts).take(i as int).filter(pred),
        decreases n - i,
    {
        let line = all[i];
        let number: u32 = (i + 1) as u32;
        let ghost before = found.deep_view();
        let ghost upto = numbered(texts).take(i + 1);
        proof {
            assert(texts[i as int] == line@);
            assert(upto.drop_last() =~= numbered(texts).take(i as int));
            assert(upto.last() == (line@, number));
            lemma_filter_last(upto, pred);
        }
        if line_holds(line, needle, nocase) {
            found.push((line, number));
            assert(found.deep_view() =~= before.push((line@, number)));
        }
        i += 1;
    }
    assert(numbered(texts).take(n as int) =~= numbered(texts));
    found
}

/// Searches `contents` line by line for `query` and returns the matching lines
/// with their numbers; `nlines` grows by the number of lines read. Letter case
/// is ignored where `cfg` says so. The counter must have room for the lines.
pub fn search<'a>(query: &str, contents: &'a str, cfg: &Config, nlines: &mut u32) -> (found: Vec<
    (&'a str, u32),
>)
    requires
        *old(nlines) + lines_of(contents@).len() <= u32::MAX,
    ensures
        found.deep_view() == matches_in(lines_of(contents@), query@, cfg@.nocase),
        *final(nlines) == *old(nlines) + lines_of(contents@).len(),
{
    let all = lines(contents);
    let found = search_lines(query, &all, cfg.nocase());
    *nlines = *nlines + all.len() as u32;
    found
}

/// Searches as `search` does where the counter has room for the lines of
/// `contents`; where it has not, nothing is counted and nothing returned.
pub fn try_search<'a>(query: &str, contents: &'a str, cfg: &Config, nlines: &mut u32) -> (r: Option<
    Vec<(&'a str, u32)>,
>)
    ensures
        r is Some <==> *old(nlines) + lines_of(contents@).len() <= u32::MAX,
        r matches Some(found) ==> found.deep_view() == matches_in(
            lines_of(contents@),
            query@,
            cfg@.nocase,
        ) && *final(nlines) == *old(nlines) + lines_of(contents@).len(),
        r is None ==> *final(nlines) == *old(nlines),
{
    let all = lines(contents);
    let room = u32::MAX - *nlines;
    if all.len() > room as usize {
        return None;
    }
    let found = search_lines(query, &all, cfg.nocase());
    *nlines = *nlines + all.len() as u32;
    Some(found)
}

} // verus!
