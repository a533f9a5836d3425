//! The search configuration and how it is read from the command line.

use crate::text::{lowercase, str_eq, to_lowercase};
use vstd::prelude::*;
use vstd::string::*;

verus! {

/// What `Config::new` returns when the command line names no query.
pub const USAGE: &'static str =
    "\n\nUsage: findit [opts] [startdir] string \n   opts: -x ext, -i[gnorecase], -L[files-no-match], -d[ebug]\n\n";

/// The settings of one search.
pub struct Config {
    query: String,
    nocase: bool,
    ext: String,
    rootdir: String,
    invmatch: bool,
    debug: bool,
}

/// A configuration as plain values.
pub struct Options {
    /// The string that is searched for.
    pub query: Seq<char>,
    /// Whether letter case is ignored.
    pub nocase: bool,
    /// The only extension that is searched; empty for no filter.
    pub ext: Seq<char>,
    /// The directory at which the walk starts.
    pub rootdir: Seq<char>,
    /// Whether the matching lines are left out of the report.
    pub invmatch: bool,
    /// Whether the walk is traced.
    pub debug: bool,
}

/// The options before any argument is read.
pub open spec fn defaults() -> Options {
    Options {
        query: Seq::empty(),
        nocase: false,
        ext: Seq::empty(),
        rootdir: "."@,
        invmatch: false,
        debug: false,
    }
}

/// The options after a positional argument: it becomes the query, and a query
/// that was there before becomes the start directory.
pub open spec fn with_positional(acc: Options, token: Seq<char>) -> Options {
    if acc.query.len() > 0 {
        Options { rootdir: acc.query, query: token, ..acc }
    } else {
        Options { query: token, ..acc }
    }
}

/// The options after the arguments from index `at` on are read into `acc`.
/// `-x` takes the argument after it as the extension, whatever it is, and is
/// without effect as the last argument.
pub open spec fn parse_from(args: Seq<Seq<char>>, at: int, acc: Options) -> Options
    decreases args.len() - at,
{
    if at < 0 || at >= args.len() {
        acc
    } else if args[at] == "-x"@ {
        if at + 1 < args.len() {
            parse_from(args, at + 2, Options { ext: args[at + 1], ..acc })
        } else {
            acc
        }
    } else if args[at] == "-i"@ {
        parse_from(args, at + 1, Options { nocase: true, ..acc })
    } else if args[at] == "-L"@ {
        parse_from(args, at + 1, Options { invmatch: true, ..acc })
    } else if args[at] == "-d"@ {
        parse_from(args, at + 1, Options { debug: true, ..acc })
    } else {
        parse_from(args, at + 1, with_positional(acc, args[at]))
    }
}

/// The options that a command line stands for. The first argument is the
/// program's name and is passed over; with `-i` the query is stored in lowercase.
pub open spec fn parsed(args: Seq<Seq<char>>) -> Options {
    let read = parse_from(args, 1, defaults());
    if read.nocase {
        Options { query: lowercase(read.query), ..read }
    } else {
        read
    }
}

/// The line that announces a search: the query, then the options that narrow or
/// widen it.
pub open spec fn summary_of(o: Options) -> Seq<char> {
    "---- search for '"@ + o.query + "'"@ + (if o.nocase {
        ", nocase"@
    } else {
        Seq::empty()
    }) + (if o.ext.len() > 0 {
        ", ext: "@ + o.ext
    } else {
        Seq::empty()
    }) + " ----------------------------"@
}

impl View for Config {
    type V = Options;

    closed spec fn view(&self) -> Options {
        Options {
            query: self.query@,
            nocase: self.nocase,
            ext: self.ext@,
            rootdir: self.rootdir@,
            invmatch: self.invmatch,
            debug: self.debug,
        }
    }
}

impl Config {
    #[verifier::type_invariant]
    spec fn has_query(self) -> bool {
        self.query@.len() > 0
    }

    /// Reads the command line, program name first. Fails with the usage text
    /// exactly when the arguments leave the query empty.
    pub fn new(args: Vec<String>) -> (r: Result<Config, &'static str>)
        ensures
            r is Ok <==> parsed(args.deep_view()).query.len() > 0,
            r matches Ok(cfg) ==> cfg@ == parsed(args.deep_view()),
            r matches Err(msg) ==> msg@ == USAGE@ && msg@.len() > 0,
    {
        proof {
            reveal_strlit(
                "\n\nUsage: findit [opts] [startdir] string \n   opts: -x ext, -i[gnorecase], -L[files-no-match], -d[ebug]\n\n",
            );
        }
        let mut query = String::new();
        let mut rootdir = String::from_str(".");
        let mut nocase = false;
        let mut invmatch = false;
        let mut ext = String::new();
        let mut debug = false;
        let ghost all = args.deep_view();
        let n = args.len();
        let mut i: usize = 1;
        while i < n
            invariant
                i >= 1,
                n == args.len(),
                all == args.deep_view(),
                parse_from(all, 1, defaults()) == parse_from(
                    all,
                    i as int,
                    (Options {
                        query: query@,
                        nocase,
                        ext: ext@,
                        rootdir: rootdir@,
                        invmatch,
                        debug,
                    }),
                ),
            decreases n - i,
        {
            let arg = &args[i];
            assert(all[i as int] == arg@);
            if str_eq(arg.as_str(), "-x") {
                if i + 1 < n {
                    assert(all[i + 1] == args[i + 1]@);
                    ext = args[i + 1].clone();
                    i += 2;
                } else {
                    i += 1;
                }
            } else if str_eq(arg.as_str(), "-i") {
                nocase = true;
                i += 1;
            } else if str_eq(arg.as_str(), "-L") {
                invmatch = true;
                i += 1;
            } else if str_eq(arg.as_str(), "-d") {
                debug = true;
                i += 1;
            } else {
                if !query.as_str().is_empty() {
                    rootdir = query;
                }
                query = arg.clone();
                i += 1;
            }
        }
        if nocase {
            query = to_lowercase(query.as_str());
        }
        if query.as_str().is_empty() {
            Err(USAGE)
        } else {
            Ok(Config { query, nocase, ext, rootdir, invmatch, debug })
        }
    }

    /// The string that is searched for; it is never empty.
    pub fn query(&self) -> (q: &str)
        ensures
            q@ == self@.query,
            q@.len() > 0,
    {
        proof {
            use_type_invariant(self);
        }
        self.query.as_str()
    }

    /// The directory at which the walk starts.
    pub fn rootdir(&self) -> (dir: &str)
        ensures
            dir@ == self@.rootdir,
    {
        self.rootdir.as_str()
    }

    /// The only extension that is searched; empty for no filter.
    pub fn ext(&self) -> (ext: &str)
        ensures
            ext@ == self@.ext,
    {
        self.ext.as_str()
    }

    /// Whether letter case is ignored.
    pub fn nocase(&self) -> (b: bool)
        ensures
            b == self@.nocase,
    {
        self.nocase
    }

    /// Whether the matching lines are left out of the report.
    pub fn invmatch(&self) -> (b: bool)
        ensures
            b == self@.invmatch,
    {
        self.invmatch
    }

    /// Whether the walk is traced.
    pub fn debug(&self) -> (b: bool)
        ensures
            b == self@.debug,
    {
        self.debug
    }

    /// The line that announces this search.
    pub fn summarize(&self) -> (summary: String)
        ensures
            summary@ == summary_of(self@),
    {
        let mut summary = String::from_str("---- search for '");
        summary.append(self.query.as_str());
        summary.append("'");
        if self.nocase {
            summary.append(", nocase");
        }
        if !self.ext.as_str().is_empty() {
            summary.append(", ext: ");
            summary.append(self.ext.as_str());
        }
        summary.append(" ----------------------------");
        assert(summary@ =~= summary_of(self@));
        summary
    }
}

} // verus!
