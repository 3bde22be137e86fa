//! Command-line parsing for the workflow's script filter.
//!
//! The workflow accepts `-q`/`--query` (with a separate value, `--query=VALUE`,
//! or a value attached to a short-flag cluster), `-v`/`--verbose` and
//! `-u`/`--update`. Short flags may be clustered (`-vu`, `-vuqContainer`).
use vstd::prelude::*;

use crate::text::{
    char_vec, chars_equal, chars_start_with, collapse_whitespace, has_prefix, join_words,
    str_to_lowercase, to_lowercase, words,
};

verus! {

/// What a successful parse has set.
pub struct CliState {
    pub query: Seq<char>,
    pub verbose: bool,
    pub update: bool,
}

/// Why a command line was refused.
pub enum ArgFailure {
    /// An argument that is neither a known option nor a valid short-flag cluster.
    UnknownArgument(Seq<char>),
    /// The named query option had no acceptable value after it.
    RequiresValue(Seq<char>),
}

impl ArgFailure {
    /// The message that the failure is reported with.
    pub open spec fn message(self) -> Seq<char> {
        match self {
            ArgFailure::UnknownArgument(argument) => "unknown argument: "@ + argument,
            ArgFailure::RequiresValue(option) => option + " requires a value"@,
        }
    }
}

/// The state before any argument is read.
pub open spec fn initial_state() -> CliState {
    CliState { query: seq![], verbose: false, update: false }
}

/// The exact option spellings the parser knows.
pub open spec fn is_option_word(a: Seq<char>) -> bool {
    ||| a == "-q"@
    ||| a == "--query"@
    ||| a == "-v"@
    ||| a == "--verbose"@
    ||| a == "-u"@
    ||| a == "--update"@
}

/// `v` and `u` flags, up to an optional `q` that ends the check.
pub open spec fn flags_then_query(body: Seq<char>) -> bool
    decreases body.len(),
{
    if body.len() == 0 {
        true
    } else if body[0] == 'v' || body[0] == 'u' {
        flags_then_query(body.drop_first())
    } else {
        body[0] == 'q'
    }
}

/// A single `-` followed by at least two characters that are `v`/`u` flags,
/// optionally ending the flags with `q`; what follows the first `q` is not checked.
pub open spec fn is_short_option_cluster(a: Seq<char>) -> bool {
    &&& a.len() > 2
    &&& a[0] == '-'
    &&& a[1] != '-'
    &&& flags_then_query(a.drop_first())
}

/// The characters of a cluster body before its first `q` (all of them when there is none).
pub open spec fn flags_before_query(body: Seq<char>) -> Seq<char>
    decreases body.len(),
{
    if body.len() == 0 || body[0] == 'q' {
        seq![]
    } else {
        seq![body[0]] + flags_before_query(body.drop_first())
    }
}

/// What follows the first `q` of a cluster body, if it has one.
pub open spec fn attached_after_query(body: Seq<char>) -> Option<Seq<char>>
    decreases body.len(),
{
    if body.len() == 0 {
        None
    } else if body[0] == 'q' {
        Some(body.drop_first())
    } else {
        attached_after_query(body.drop_first())
    }
}

/// A separated value that the query options refuse to consume.
pub open spec fn rejected_as_value(v: Seq<char>) -> bool {
    is_option_word(v) || has_prefix(v, "--query="@) || is_short_option_cluster(v)
}

/// The value for `option` taken from position `j` of `args`.
pub open spec fn query_value(option: Seq<char>, args: Seq<Seq<char>>, j: int) -> Result<Seq<char>, ArgFailure> {
    if 0 <= j < args.len() && !rejected_as_value(args[j]) {
        Ok(args[j])
    } else {
        Err(ArgFailure::RequiresValue(option))
    }
}

/// Parsing `args` from position `i` on, with `st` set by what came before.
pub open spec fn parse_from(args: Seq<Seq<char>>, i: int, st: CliState) -> Result<CliState, ArgFailure>
    decreases args.len() - i,
{
    if i < 0 || i >= args.len() {
        Ok(st)
    } else {
        let a = args[i];
        if a == "-q"@ || a == "--query"@ {
            if i + 1 < args.len() && !rejected_as_value(args[i + 1]) {
                parse_from(args, i + 2, CliState { query: args[i + 1], verbose: st.verbose, update: st.update })
            } else {
                Err(ArgFailure::RequiresValue(a))
            }
        } else if a == "-v"@ || a == "--verbose"@ {
            parse_from(args, i + 1, CliState { query: st.query, verbose: true, update: st.update })
        } else if a == "-u"@ || a == "--update"@ {
            parse_from(args, i + 1, CliState { query: st.query, verbose: st.verbose, update: true })
        } else if has_prefix(a, "--query="@) {
            parse_from(args, i + 1, CliState { query: a.skip("--query="@.len() as int), verbose: st.verbose, update: st.update })
        } else if is_short_option_cluster(a) {
            let body = a.drop_first();
            let flags = flags_before_query(body);
            let verbose = st.verbose || flags.contains('v');
            let update = st.update || flags.contains('u');
            match attached_after_query(body) {
                None => parse_from(args, i + 1, CliState { query: st.query, verbose, update }),
                Some(rest) => if rest.len() > 0 {
                    parse_from(args, i + 1, CliState { query: rest, verbose, update })
                } else if i + 1 < args.len() && !rejected_as_value(args[i + 1]) {
                    parse_from(args, i + 2, CliState { query: args[i + 1], verbose, update })
                } else {
                    Err(ArgFailure::RequiresValue("-q"@))
                },
            }
        } else {
            Err(ArgFailure::UnknownArgument(a))
        }
    }
}

/// The outcome of parsing the whole argument list.
pub open spec fn parse_arguments(args: Seq<Seq<char>>) -> Result<CliState, ArgFailure> {
    parse_from(args, 0, initial_state())
}

/// The query as the search sees it: its whitespace-separated words joined by
/// single spaces, then lowercased.
pub open spec fn normalized(query: Seq<char>) -> Seq<char> {
    str_to_lowercase(join_words(words(query)))
}

/// The character views of a list of arguments.
pub open spec fn argument_views(args: Seq<String>) -> Seq<Seq<char>> {
    args.map_values(|s: String| s@)
}

/// Parsed workflow options.
#[derive(Clone, Debug, PartialEq, Eq)]
pub struct Cli {
    pub query: String,
    pub verbose: bool,
    pub update: bool,
}

impl View for Cli {
    type V = CliState;

    open spec fn view(&self) -> CliState {
        CliState { query: self.query@, verbose: self.verbose, update: self.update }
    }
}

impl Default for Cli {
    fn default() -> (cli: Cli)
        ensures
            cli@ == initial_state(),
    {
        Cli { query: String::new(), verbose: false, update: false }
    }
}

/// A refused command line.
#[derive(Clone, Debug, PartialEq, Eq)]
pub enum CliError {
    /// An argument that is neither a known option nor a valid short-flag cluster.
    UnknownArgument(String),
    /// The named query option had no acceptable value after it.
    RequiresValue(String),
}

impl View for CliError {
    type V = ArgFailure;

    open spec fn view(&self) -> ArgFailure {
        match self {
            CliError::UnknownArgument(a) => ArgFailure::UnknownArgument(a@),
            CliError::RequiresValue(o) => ArgFailure::RequiresValue(o@),
        }
    }
}

impl CliError {
    /// The message this error is reported with.
    pub fn message(&self) -> (m: String)
        ensures
            m@ == self@.message(),
    {
        match self {
            CliError::UnknownArgument(a) => {
                let mut m = String::from_str("unknown argument: ");
                m.append(a.as_str());
                m
            },
            CliError::RequiresValue(o) => {
                let mut m = String::from_str(o.as_str());
                m.append(" requires a value");
                m
            },
        }
    }
}

/// The view of a parse outcome.
pub open spec fn parse_outcome(r: Result<Cli, CliError>) -> Result<CliState, ArgFailure> {
    match r {
        Ok(cli) => Ok(cli@),
        Err(e) => Err(e@),
    }
}

/// The view of a query-value outcome.
pub open spec fn value_outcome(r: Result<String, CliError>) -> Result<Seq<char>, ArgFailure> {
    match r {
        Ok(v) => Ok(v@),
        Err(e) => Err(e@),
    }
}

/// Over a run of `v`/`u` flags at the start of a cluster body, the cluster
/// predicates and projections carry on with what follows the run.
pub(crate) proof fn lemma_flag_run(body: Seq<char>, m: int)
    requires
        0 <= m <= body.len(),
        forall|j: int| 0 <= j < m ==> (body[j] == 'v' || body[j] == 'u'),
    ensures
        flags_then_query(body) == flags_then_query(body.skip(m)),
        flags_before_query(body) == body.take(m) + flags_before_query(body.skip(m)),
        attached_after_query(body) == attached_after_query(body.skip(m)),
    decreases m,
{
    if m > 0 {
        let rest = body.drop_first();
        assert forall|j: int| 0 <= j < m - 1 implies (rest[j] == 'v' || rest[j] == 'u') by {
            assert(rest[j] == body[j + 1]);
        }
        lemma_flag_run(rest, m - 1);
        assert(rest.skip(m - 1) == body.skip(m));
        assert(body.take(m) == seq![body[0]] + rest.take(m - 1));
    } else {
        assert(body.skip(0) == body);
        assert(body.take(0) + flags_before_query(body) == flags_before_query(body));
    }
}

/// Returns whether an argument is a valid cluster of the workflow's short flags.
///
/// The query option may terminate a cluster or carry an attached value. Once q
/// is seen, the remainder is the query and is intentionally not validated as flags.
pub fn is_valid_short_option_cluster(argument: &str) -> (r: bool)
    ensures
        r == is_short_option_cluster(argument@),
{
    let chars = char_vec(argument);
    if chars.len() <= 2 || chars[0] != '-' || chars[1] == '-' {
        return false;
    }
    let ghost body = chars@.drop_first();
    let mut k: usize = 1;
    while k < chars.len()
        invariant
            chars@ == argument@,
            body == chars@.drop_first(),
            chars@.len() > 2,
            chars@[0] == '-',
            chars@[1] != '-',
            1 <= k <= chars@.len(),
            forall|j: int| 1 <= j < k ==> (chars@[j] == 'v' || chars@[j] == 'u'),
        decreases chars@.len() - k,
    {
        let c = chars[k];
        if c == 'v' || c == 'u' {
        } else {
            proof {
                lemma_flag_run(body, k - 1);
                assert(body.skip(k - 1)[0] == c);
            }
            return c == 'q';
        }
        k = k + 1;
    }
    proof {
        lemma_flag_run(body, k - 1);
        assert(body.skip(k - 1).len() == 0);
    }
    true
}

/// Takes the value of a query option from `arguments[position]`.
///
/// Fails when no argument is left, or when the next argument is itself an
/// option, a `--query=` form or a valid short-flag cluster.
pub fn take_query_value(option: &str, arguments: &[String], position: usize) -> (r: Result<String, CliError>)
    ensures
        value_outcome(r) == query_value(option@, argument_views(arguments@), position as int),
{
    if position >= arguments.len() {
        return Err(CliError::RequiresValue(String::from_str(option)));
    }
    let value = &arguments[position];
    let chars = char_vec(value.as_str());
    let refused = chars_equal(&chars, "-q") || chars_equal(&chars, "--query")
        || chars_equal(&chars, "-v") || chars_equal(&chars, "--verbose")
        || chars_equal(&chars, "-u") || chars_equal(&chars, "--update")
        || chars_start_with(&chars, "--query=")
        || is_valid_short_option_cluster(value.as_str());
    if refused {
        Err(CliError::RequiresValue(String::from_str(option)))
    } else {
        Ok(value.clone())
    }
}

/// Reads the flags of a valid cluster: whether `v` and `u` occur before the
/// first `q`, and the position of that `q` if there is one.
fn scan_cluster(chars: &Vec<char>) -> (res: (bool, bool, Option<usize>))
    requires
        is_short_option_cluster(chars@),
    ensures
        res.0 == flags_before_query(chars@.drop_first()).contains('v'),
        res.1 == flags_before_query(chars@.drop_first()).contains('u'),
        match res.2 {
            None => attached_after_query(chars@.drop_first()) is None,
            Some(p) => 1 <= p < chars@.len() && attached_after_query(chars@.drop_first()) == Some(
                chars@.skip(p + 1),
            ),
        },
{
    let ghost body = chars@.drop_first();
    let mut seen_v = false;
    let mut seen_u = false;
    let mut k: usize = 1;
    while k < chars.len()
        invariant
            is_short_option_cluster(chars@),
            body == chars@.drop_first(),
            1 <= k <= chars@.len(),
            forall|j: int| 1 <= j < k ==> (chars@[j] == 'v' || chars@[j] == 'u'),
            seen_v == chars@.subrange(1, k as int).contains('v'),
            seen_u == chars@.subrange(1, k as int).contains('u'),
        decreases chars@.len() - k,
    {
        let c = chars[k];
        let ghost before = chars@.subrange(1, k as int);
        assert(chars@.subrange(1, k + 1) == before.push(c));
        if c == 'v' {
            seen_v = true;
            assert(before.push(c)[before.len() as int] == 'v');
            proof {
                if before.contains('u') {
                    let w = choose|w: int| 0 <= w < before.len() && before[w] == 'u';
                    assert(before.push(c)[w] == 'u');
                }
            }
            assert(seen_u ==> before.push(c).contains('u'));
            assert(before.push(c).contains('u') ==> seen_u);
        } else if c == 'u' {
            seen_u = true;
            assert(before.push(c)[before.len() as int] == 'u');
            proof {
                if before.contains('v') {
                    let w = choose|w: int| 0 <= w < before.len() && before[w] == 'v';
                    assert(before.push(c)[w] == 'v');
                }
            }
            assert(seen_v ==> before.push(c).contains('v'));
            assert(before.push(c).contains('v') ==> seen_v);
        } else {
            proof {
                lemma_flag_run(body, k - 1);
                assert(body.skip(k - 1)[0] == c);
                assert(body.skip(k - 1).drop_first() == chars@.skip(k + 1));
                assert(body.take(k - 1) == before);
                assert(flags_before_query(body.skip(k - 1)) == Seq::<char>::empty());
                assert(flags_before_query(body) == before);
            }
            return (seen_v, seen_u, Some(k));
        }
        k = k + 1;
    }
    proof {
        lemma_flag_run(body, k - 1);
        assert(body.skip(k - 1).len() == 0);
        assert(body.take(k - 1) == chars@.subrange(1, k as int));
        assert(flags_before_query(body.skip(k - 1)) == Seq::<char>::empty());
    }
    (seen_v, seen_u, None)
}

impl Cli {
    /// Parses the workflow's arguments (without the program name).
    ///
    /// Arguments are read left to right; a later query replaces an earlier one.
    pub fn parse(arguments: Vec<String>) -> (r: Result<Cli, CliError>)
        ensures
            parse_outcome(r) == parse_arguments(argument_views(arguments@)),
    {
        let ghost args = argument_views(arguments@);
        let mut cli = Cli::default();
        let n = arguments.len();
        let mut i: usize = 0;
        while i < n
            invariant
                n == arguments@.len(),
                args == argument_views(arguments@),
                args.len() == n,
                i <= n,
                parse_from(args, i as int, cli@) == parse_arguments(args),
            decreases n - i,
        {
            let argument = &arguments[i];
            assert(args[i as int] == argument@);
            let chars = char_vec(argument.as_str());
            if chars_equal(&chars, "-q") || chars_equal(&chars, "--query") {
                let taken = take_query_value(argument.as_str(), arguments.as_slice(), i + 1);
                match taken {
                    Ok(value) => {
                        cli.query = value;
                        i = i + 2;
                    },
                    Err(e) => {
                        return Err(e);
                    },
                }
            } else if chars_equal(&chars, "-v") || chars_equal(&chars, "--verbose") {
                cli.verbose = true;
                i = i + 1;
            } else if chars_equal(&chars, "-u") || chars_equal(&chars, "--update") {
                cli.update = true;
                i = i + 1;
            } else if chars_start_with(&chars, "--query=") {
                let start = "--query=".unicode_len();
                cli.query = argument.as_str().substring_char(start, chars.len()).to_owned();
                assert(argument@.subrange(start as int, chars@.len() as int) == argument@.skip(
                    "--query="@.len() as int,
                ));
                i = i + 1;
            } else if is_valid_short_option_cluster(argument.as_str()) {
                let (seen_v, seen_u, query_at) = scan_cluster(&chars);
                cli.verbose = cli.verbose || seen_v;
                cli.update = cli.update || seen_u;
                match query_at {
                    None => {
                        i = i + 1;
                    },
                    Some(p) => {
                        if p < chars.len() - 1 {
                            cli.query = argument.as_str().substring_char(p + 1, chars.len()).to_owned();
                            assert(argument@.subrange(p + 1, chars@.len() as int) == chars@.skip(p + 1));
                            i = i + 1;
                        } else {
                            assert(chars@.skip(p + 1).len() == 0);
                            let taken = take_query_value("-q", arguments.as_slice(), i + 1);
                            match taken {
                                Ok(value) => {
                                    cli.query = value;
                                    i = i + 2;
                                },
                                Err(e) => {
                                    return Err(e);
                                },
                            }
                        }
                    },
                }
            } else {
                return Err(CliError::UnknownArgument(argument.clone()));
            }
        }
        Ok(cli)
    }

    /// The query with whitespace runs collapsed to single spaces, no leading
    /// or trailing whitespace, and lowercased.
    pub fn normalized_query(&self) -> (r: String)
        ensures
            r@ == normalized(self.query@),
    {
        let collapsed = collapse_whitespace(self.query.as_str());
        to_lowercase(collapsed.as_str())
    }
}

} // verus!
