//! The report for one file: a header with the file's path, then the matching
//! lines under their numbers; or the note that the file was skipped.

use crate::config::Config;
use crate::search::{matches_in, search, try_search};
use crate::text::{is_substring, lines_of, replace_char, with_char_replaced};
use colored::Colorize;
use vstd::prelude::*;
use vstd::string::*;

verus! {

/// The most characters of a line that the report shows.
pub const LINE_LIMIT: usize = 80;

/// The colour code of a path in the report.
pub open spec fn path_color() -> Seq<char> {
    "36"@
}

/// The colour code of a line number and of the mark that ends a cut line.
pub open spec fn number_color() -> Seq<char> {
    "34"@
}

/// The colour code of the word that marks a skipped file.
pub open spec fn skipped_color() -> Seq<char> {
    "31"@
}

/// `text` between the terminal sequence that switches to the colour `code` and
/// the one that switches all colours off.
pub open spec fn in_color(code: Seq<char>, text: Seq<char>) -> Seq<char> {
    "\x1b["@ + code + "m"@ + text + "\x1b[0m"@
}

/// What colouring `text` with `code` may give. Whether colours are used is
/// decided by the terminal and the environment. Without them the text comes
/// back as it is. With them it comes back between the colour's sequences; only
/// a text that itself holds the sequence that switches colours off is changed
/// between them.
pub open spec fn painted(text: Seq<char>, code: Seq<char>, out: Seq<char>) -> bool {
    ||| out == text
    ||| exists|inner: Seq<char>|
        out == #[trigger] in_color(code, inner) && (inner == text || is_substring(
            "\x1b[0m"@,
            text,
        ))
}

/// `Colorize::cyan` on a string slice, then the `Display` of the coloured
/// string: the text as it is, or between the sequences of colour 36.
#[verifier::external_body]
fn cyan(text: &str) -> (r: String)
    ensures
        painted(text@, "36"@, r@),
{
    text.cyan().to_string()
}

/// `Colorize::blue` on a string slice, then the `Display` of the coloured
/// string: the text as it is, or between the sequences of colour 34.
#[verifier::external_body]
fn blue(text: &str) -> (r: String)
    ensures
        painted(text@, "34"@, r@),
{
    text.blue().to_string()
}

/// `Colorize::red` on a string slice, then the `Display` of the coloured
/// string: the text as it is, or between the sequences of colour 31.
#[verifier::external_body]
fn red(text: &str) -> (r: String)
    ensures
        painted(text@, "31"@, r@),
{
    text.red().to_string()
}

/// The character of a decimal digit.
pub open spec fn digit(d: int) -> char {
    if d == 0 {
        '0'
    } else if d == 1 {
        '1'
    } else if d == 2 {
        '2'
    } else if d == 3 {
        '3'
    } else if d == 4 {
        '4'
    } else if d == 5 {
        '5'
    } else if d == 6 {
        '6'
    } else if d == 7 {
        '7'
    } else if d == 8 {
        '8'
    } else {
        '9'
    }
}

/// A number in decimal digits, without leading zeros.
pub open spec fn decimal(n: nat) -> Seq<char>
    decreases n,
{
    if n < 10 {
        seq![digit(n as int)]
    } else {
        decimal(n / 10).push(digit((n % 10) as int))
    }
}

/// `s` with spaces before it, as many as it falls short of `width`.
pub open spec fn padded(s: Seq<char>, width: nat) -> Seq<char> {
    if s.len() >= width {
        s
    } else {
        Seq::new((width - s.len()) as nat, |i: int| ' ') + s
    }
}

/// A line number as the report shows it: in decimal, right-aligned in four
/// columns.
pub open spec fn line_label(number: u32) -> Seq<char> {
    padded(decimal(number as nat), 4)
}

/// A path as the report shows it: with forward slashes for backslashes.
pub open spec fn shown_path(path: Seq<char>) -> Seq<char> {
    with_char_replaced(path, '\\', "/"@)
}

/// The report line of a match, from the line number as it is to be shown, the
/// line, and the mark that ends a cut line. A line of 80 characters or fewer
/// is shown whole, without the mark. Of a longer line the first 80 characters
/// are shown, and the mark is put behind them.
pub open spec fn match_text(label: Seq<char>, line: Seq<char>, mark: Seq<char>) -> Seq<char> {
    if line.len() <= LINE_LIMIT {
        " "@ + label + ": "@ + line
    } else {
        " "@ + label + ": "@ + line.take(LINE_LIMIT as int) + " "@ + mark
    }
}

/// The report line of a file that could not be read as text, from its path and
/// the word that marks it.
pub open spec fn skipped_text(path: Seq<char>, mark: Seq<char>) -> Seq<char> {
    path + " "@ + mark
}

/// `out` is the header of a file's matches: its path, coloured.
pub open spec fn is_header(out: Seq<char>, path: Seq<char>) -> bool {
    painted(shown_path(path), path_color(), out)
}

/// `out` is the report line of the match `line` under `number`, with the number
/// and the mark of a cut coloured.
pub open spec fn is_match_line(out: Seq<char>, number: u32, line: Seq<char>) -> bool {
    exists|label: Seq<char>, mark: Seq<char>|
        painted(line_label(number), number_color(), label) && painted("..."@, number_color(), mark)
            && out == #[trigger] match_text(label, line, mark)
}

/// `out` is the report line of a skipped file: its coloured path, then the
/// coloured word "skipped".
pub open spec fn is_skipped_line(out: Seq<char>, path: Seq<char>) -> bool {
    exists|name: Seq<char>, mark: Seq<char>|
        painted(shown_path(path), path_color(), name) && painted("skipped"@, skipped_color(), mark)
            && out == #[trigger] skipped_text(name, mark)
}

/// `out` is the report for a file at `path`, from the matches that were found
/// in it, or `None` for a file without readable text. Such a file is reported
/// as skipped, in one line. Otherwise the report is empty where no line matches
/// or where matching lines are left out; else it is the header and then one
/// line for each match, in their order.
pub open spec fn is_report_of(
    out: Seq<Seq<char>>,
    path: Seq<char>,
    matches: Option<Seq<(Seq<char>, u32)>>,
    invmatch: bool,
) -> bool {
    match matches {
        None => out.len() == 1 && is_skipped_line(out[0], path),
        Some(found) => {
            if invmatch || found.len() == 0 {
                out.len() == 0
            } else {
                &&& out.len() == found.len() + 1
                &&& is_header(out[0], path)
                &&& forall|k: int|
                    0 <= k < found.len() ==> is_match_line(
                        #[trigger] out[k + 1],
                        found[k].1,
                        found[k].0,
                    )
            }
        },
    }
}

/// The matches in a file's text, and `None` for a file without readable text.
pub open spec fn matches_of(contents: Option<Seq<char>>, query: Seq<char>, nocase: bool) -> Option<
    Seq<(Seq<char>, u32)>,
> {
    match contents {
        None => None,
        Some(text) => Some(matches_in(lines_of(text), query, nocase)),
    }
}

/// `out` is the report for a file at `path` with these contents, searched for
/// `query`.
pub open spec fn is_report(
    out: Seq<Seq<char>>,
    path: Seq<char>,
    contents: Option<Seq<char>>,
    query: Seq<char>,
    nocase: bool,
    invmatch: bool,
) -> bool {
    is_report_of(out, path, matches_of(contents, query, nocase), invmatch)
}

/// The line that closes the report: how many lines were read, in how many
/// files, from how many directories. It begins with a line feed.
pub open spec fn totals_text(nlines: u32, nfiles: u32, ndirs: u32) -> Seq<char> {
    "\n---- searched "@ + decimal(nlines as nat) + " lines in "@ + decimal(nfiles as nat)
        + " files from "@ + decimal(ndirs as nat) + " dirs. -----"@
}

/// The report for a file where nothing is coloured.
pub open spec fn plain_report(
    path: Seq<char>,
    contents: Option<Seq<char>>,
    query: Seq<char>,
    nocase: bool,
    invmatch: bool,
) -> Seq<Seq<char>> {
    match contents {
        None => seq![skipped_text(shown_path(path), "skipped"@)],
        Some(text) => {
            let found = matches_in(lines_of(text), query, nocase);
            if invmatch || found.len() == 0 {
                Seq::empty()
            } else {
                seq![shown_path(path)] + found.map_values(
                    |m: (Seq<char>, u32)| match_text(line_label(m.1), m.0, "..."@),
                )
            }
        },
    }
}

/// Whether a text is free of the character that starts a terminal sequence.
pub open spec fn without_escape(text: Seq<char>) -> bool {
    !text.contains('\x1b')
}

/// How many lines a text has, and none where there is no text.
pub open spec fn lines_read(contents: Option<Seq<char>>) -> nat {
    match contents {
        None => 0,
        Some(text) => lines_of(text).len(),
    }
}

proof fn lemma_decimal_len(n: nat)
    ensures
        decimal(n).len() >= 1,
        n < 10 ==> decimal(n).len() == 1,
        n >= 10 ==> decimal(n).len() == decimal(n / 10).len() + 1,
    decreases n,
{
    if n >= 10 {
        lemma_decimal_len(n / 10);
    }
}

/// Where colouring gave a text without the escape character, it gave back the
/// text.
proof fn lemma_painted_plain(text: Seq<char>, code: Seq<char>, out: Seq<char>)
    requires
        painted(text, code, out),
        without_escape(out),
    ensures
        out == text,
{
    reveal_strlit("\x1b[");
    if out != text {
        let inner = choose|inner: Seq<char>|
            out == #[trigger] in_color(code, inner) && (inner == text || is_substring(
                "\x1b[0m"@,
                text,
            ));
        assert(out[0] == '\x1b');
    }
}

/// A match line without the escape character is the line of the plain report.
proof fn lemma_plain_match_line(out: Seq<char>, number: u32, line: Seq<char>)
    requires
        is_match_line(out, number, line),
        without_escape(out),
    ensures
        out == match_text(line_label(number), line, "..."@),
{
    let (label, mark) = choose|label: Seq<char>, mark: Seq<char>|
        painted(line_label(number), number_color(), label) && painted(
            "..."@,
            number_color(),
            mark,
        ) && out == #[trigger] match_text(label, line, mark);
    reveal_strlit(" ");
    reveal_strlit(": ");
    reveal_strlit("...");
    assert forall|j: int| 0 <= j < label.len() implies label[j] != '\x1b' by {
        assert(out[1 + j] == label[j]);
        assert(out.contains(out[1 + j]));
    }
    lemma_painted_plain(line_label(number), number_color(), label);
    if line.len() > LINE_LIMIT {
        let start = 1 + label.len() + 2 + LINE_LIMIT + 1;
        assert forall|j: int| 0 <= j < mark.len() implies mark[j] != '\x1b' by {
            assert(out[start + j] == mark[j]);
            assert(out.contains(out[start + j]));
        }
        lemma_painted_plain("..."@, number_color(), mark);
    }
}

/// Where no line of a report holds the escape character, the report is the
/// plain report: it is then fixed by the path, the text, the query and the two
/// options.
pub proof fn lemma_report_without_colour(
    out: Seq<Seq<char>>,
    path: Seq<char>,
    contents: Option<Seq<char>>,
    query: Seq<char>,
    nocase: bool,
    invmatch: bool,
)
    requires
        is_report(out, path, contents, query, nocase, invmatch),
        forall|k: int| 0 <= k < out.len() ==> without_escape(#[trigger] out[k]),
    ensures
        out == plain_report(path, contents, query, nocase, invmatch),
{
    let plain = plain_report(path, contents, query, nocase, invmatch);
    match contents {
        None => {
            let (name, mark) = choose|name: Seq<char>, mark: Seq<char>|
                painted(shown_path(path), path_color(), name) && painted(
                    "skipped"@,
                    skipped_color(),
                    mark,
                ) && out[0] == #[trigger] skipped_text(name, mark);
            reveal_strlit(" ");
            reveal_strlit("skipped");
            assert(without_escape(out[0]));
            assert forall|j: int| 0 <= j < name.len() implies name[j] != '\x1b' by {
                assert(out[0][j] == name[j]);
                assert(out[0].contains(out[0][j]));
            }
            assert forall|j: int| 0 <= j < mark.len() implies mark[j] != '\x1b' by {
                assert(out[0][name.len() + 1 + j] == mark[j]);
                assert(out[0].contains(out[0][name.len() + 1 + j]));
            }
            lemma_painted_plain(shown_path(path), path_color(), name);
            lemma_painted_plain("skipped"@, skipped_color(), mark);
            assert(out =~= plain);
        },
        Some(text) => {
            let found = matches_in(lines_of(text), query, nocase);
            if !(invmatch || found.len() == 0) {
                assert(without_escape(out[0]));
                lemma_painted_plain(shown_path(path), path_color(), out[0]);
                assert forall|k: int| 0 <= k < found.len() implies out[k + 1] == match_text(
                    line_label(found[k].1),
                    found[k].0,
                    "..."@,
                ) by {
                    assert(without_escape(out[k + 1]));
                    lemma_plain_match_line(out[k + 1], found[k].1, found[k].0);
                }
            }
            assert(out =~= plain);
        },
    }
}

/// Two reports on the same file under the same options are the same, line for
/// line, where neither is coloured.
pub proof fn lemma_plain_reports_agree(
    first: Seq<Seq<char>>,
    second: Seq<Seq<char>>,
    path: Seq<char>,
    contents: Option<Seq<char>>,
    query: Seq<char>,
    nocase: bool,
    invmatch: bool,
)
    requires
        is_report(first, path, contents, query, nocase, invmatch),
        is_report(second, path, contents, query, nocase, invmatch),
        forall|k: int| 0 <= k < first.len() ==> without_escape(#[trigger] first[k]),
        forall|k: int| 0 <= k < second.len() ==> without_escape(#[trigger] second[k]),
    ensures
        first == second,
{
    lemma_report_without_colour(first, path, contents, query, nocase, invmatch);
    lemma_report_without_colour(second, path, contents, query, nocase, invmatch);
}

fn digit_str(d: u32) -> (r: &'static str)
    requires
        d < 10,
    ensures
        r@ == seq![digit(d as int)],
{
    proof {
        reveal_strlit("0");
        reveal_strlit("1");
        reveal_strlit("2");
        reveal_strlit("3");
        reveal_strlit("4");
        reveal_strlit("5");
        reveal_strlit("6");
        reveal_strlit("7");
        reveal_strlit("8");
        reveal_strlit("9");
    }
    let r = if d == 0 {
        "0"
    } else if d == 1 {
        "1"
    } else if d == 2 {
        "2"
    } else if d == 3 {
        "3"
    } else if d == 4 {
        "4"
    } else if d == 5 {
        "5"
    } else if d == 6 {
        "6"
    } else if d == 7 {
        "7"
    } else if d == 8 {
        "8"
    } else {
        "9"
    };
    assert(r@ =~= seq![digit(d as int)]);
    r
}

/// A number in decimal digits.
pub fn decimal_string(n: u32) -> (r: String)
    ensures
        r@ == decimal(n as nat),
    decreases n,
{
    if n < 10 {
        String::from_str(digit_str(n))
    } else {
        let mut r = decimal_string(n / 10);
        r.append(digit_str(n % 10));
        assert(r@ =~= decimal(n as nat));
        r
    }
}

/// A line number as the report shows it.
pub fn label_string(number: u32) -> (r: String)
    ensures
        r@ == line_label(number),
{
    proof {
        reveal_strlit("   ");
        reveal_strlit("  ");
        reveal_strlit(" ");
        reveal_strlit("");
        lemma_decimal_len(number as nat);
        lemma_decimal_len(number as nat / 10);
        lemma_decimal_len(number as nat / 100);
        lemma_decimal_len(number as nat / 1000);
    }
    let gap = if number < 10 {
        "   "
    } else if number < 100 {
        "  "
    } else if number < 1000 {
        " "
    } else {
        ""
    };
    let mut r = String::from_str(gap);
    let digits = decimal_string(number);
    r.append(digits.as_str());
    assert(r@ =~= line_label(number));
    r
}

/// Puts the report line of a match together.
pub fn match_line(label: &str, line: &str, mark: &str) -> (r: String)
    ensures
        r@ == match_text(label@, line@, mark@),
{
    let mut r = String::from_str(" ");
    r.append(label);
    r.append(": ");
    if line.unicode_len() <= LINE_LIMIT {
        r.append(line);
    } else {
        r.append(line.substring_char(0, LINE_LIMIT));
        r.append(" ");
        r.append(mark);
    }
    assert(r@ =~= match_text(label@, line@, mark@));
    r
}

/// Puts the report line of a skipped file together.
pub fn skipped_line(path: &str, mark: &str) -> (r: String)
    ensures
        r@ == skipped_text(path@, mark@),
{
    let mut r = String::from_str(path);
    r.append(" ");
    r.append(mark);
    assert(r@ =~= skipped_text(path@, mark@));
    r
}

/// The line that closes the report, from the three counters of the walk.
pub fn totals(nlines: u32, nfiles: u32, ndirs: u32) -> (r: String)
    ensures
        r@ == totals_text(nlines, nfiles, ndirs),
{
    let mut r = String::from_str("\n---- searched ");
    r.append(decimal_string(nlines).as_str());
    r.append(" lines in ");
    r.append(decimal_string(nfiles).as_str());
    r.append(" files from ");
    r.append(decimal_string(ndirs).as_str());
    r.append(" dirs. -----");
    assert(r@ =~= totals_text(nlines, nfiles, ndirs));
    r
}

/// The lines to print for a file at `path`, from the matches that were found in
/// it, or `None` for a file without readable text.
pub fn report<'a>(path: &str, matches: Option<&Vec<(&'a str, u32)>>, invmatch: bool) -> (out: Vec<
    String,
>)
    ensures
        is_report_of(out.deep_view(), path@, matches.deep_view(), invmatch),
{
    let mut out: Vec<String> = Vec::new();
    let shown = replace_char(path, 92, "/");
    match matches {
        Some(found) => {
            let n = found.len();
            if !invmatch && n > 0 {
                out.push(cyan(shown.as_str()));
                let mut k: usize = 0;
                while k < n
                    invariant
                        k <= n,
                        n == found.len(),
                        out.len() == k + 1,
                        is_header(out[0]@, path@),
                        forall|j: int|
                            0 <= j < k ==> is_match_line(
                                #[trigger] out[j + 1]@,
                                found[j].1,
                                found[j].0@,
                            ),
                    decreases n - k,
                {
                    let (line, number) = found[k];
                    let label = blue(label_string(number).as_str());
                    let rendered = if line.unicode_len() <= LINE_LIMIT {
                        match_line(label.as_str(), line, "...")
                    } else {
                        let mark = blue("...");
                        match_line(label.as_str(), line, mark.as_str())
                    };
                    out.push(rendered);
                    k += 1;
                }
            }
        },
        None => {
            let name = cyan(shown.as_str());
            let mark = red("skipped");
            out.push(skipped_line(name.as_str(), mark.as_str()));
        },
    }
    out
}

/// Reports on one file: counts it, searches its text if it has any, and returns
/// the lines to print. The counters must have room for the file and its lines.
pub fn search_file(
    path: &str,
    contents: Option<&str>,
    cfg: &Config,
    nfiles: &mut u32,
    nlines: &mut u32,
) -> (out: Vec<String>)
    requires
        *old(nfiles) < u32::MAX,
        *old(nlines) + lines_read(contents.deep_view()) <= u32::MAX,
    ensures
        *final(nfiles) == *old(nfiles) + 1,
        *final(nlines) == *old(nlines) + lines_read(contents.deep_view()),
        is_report(
            out.deep_view(),
            path@,
            contents.deep_view(),
            cfg@.query,
            cfg@.nocase,
            cfg@.invmatch,
        ),
{
    *nfiles = *nfiles + 1;
    match contents {
        Some(text) => {
            let found = search(cfg.query(), text, cfg, nlines);
            report(path, Some(&found), cfg.invmatch())
        },
        None => report(path, None, cfg.invmatch()),
    }
}

/// Reports as `search_file` does where the counters have room for the file and
/// its lines; where they have not, nothing is counted and nothing returned.
pub fn try_search_file(
    path: &str,
    contents: Option<&str>,
    cfg: &Config,
    nfiles: &mut u32,
    nlines: &mut u32,
) -> (r: Option<Vec<String>>)
    ensures
        r is Some <==> *old(nfiles) < u32::MAX && *old(nlines) + lines_read(contents.deep_view())
            <= u32::MAX,
        r matches Some(out) ==> *final(nfiles) == *old(nfiles) + 1 && *final(nlines) == *old(nlines)
            + lines_read(contents.deep_view()) && is_report(
            out.deep_view(),
            path@,
            contents.deep_view(),
            cfg@.query,
            cfg@.nocase,
            cfg@.invmatch,
        ),
        r is None ==> *final(nfiles) == *old(nfiles) && *final(nlines) == *old(nlines),
{
    if *nfiles == u32::MAX {
        return None;
    }
    match contents {
        Some(text) => {
            match try_search(cfg.query(), text, cfg, nlines) {
                Some(found) => {
                    *nfiles = *nfiles + 1;
                    Some(report(path, Some(&found), cfg.invmatch()))
                },
                None => None,
            }
        },
        None => {
            *nfiles = *nfiles + 1;
            Some(report(path, None, cfg.invmatch()))
        },
    }
}

} // verus!
