//! Laws of the command-line grammar, proved over `parse_arguments`.
use vstd::prelude::*;

use crate::cli::{
    initial_state, lemma_flag_run, parse_arguments, parse_from, rejected_as_value, ArgFailure,
    CliState,
    attached_after_query, flags_before_query, flags_then_query, is_option_word,
    is_short_option_cluster,
};
use crate::cli::normalized;
use crate::text::{has_prefix, law_collapsed_form_is_unique, single_spaced, str_to_lowercase, words};

verus! {

/// Whether every character of `flags` is a `v` or `u` flag.
pub open spec fn only_flags(flags: Seq<char>) -> bool {
    forall|j: int| 0 <= j < flags.len() ==> (flags[j] == 'v' || flags[j] == 'u')
}

/// The option spellings, character by character.
proof fn lemma_option_spellings()
    ensures
        "-q"@ == seq!['-', 'q'],
        "--query"@ == seq!['-', '-', 'q', 'u', 'e', 'r', 'y'],
        "-v"@ == seq!['-', 'v'],
        "--verbose"@ == seq!['-', '-', 'v', 'e', 'r', 'b', 'o', 's', 'e'],
        "-u"@ == seq!['-', 'u'],
        "--update"@ == seq!['-', '-', 'u', 'p', 'd', 'a', 't', 'e'],
        "--query="@ == seq!['-', '-', 'q', 'u', 'e', 'r', 'y', '='],
{
    reveal_strlit("-q");
    reveal_strlit("--query");
    reveal_strlit("-v");
    reveal_strlit("--verbose");
    reveal_strlit("-u");
    reveal_strlit("--update");
    reveal_strlit("--query=");
}

/// An argument of three or more characters that starts with a single `-` is
/// neither an option word nor a `--query=` form.
proof fn lemma_single_dash_shape(a: Seq<char>)
    requires
        a.len() > 2,
        a[0] == '-',
        a[1] != '-',
    ensures
        !is_option_word(a),
        !has_prefix(a, "--query="@),
        a != "-q"@,
        a != "--query"@,
        a != "-v"@,
        a != "--verbose"@,
        a != "-u"@,
        a != "--update"@,
{
    lemma_option_spellings();
    assert(a.len() != "-q"@.len());
    assert(a[1] != "--query"@[1]);
    assert(a[1] != "--verbose"@[1]);
    assert(a[1] != "--update"@[1]);
    if has_prefix(a, "--query="@) {
        assert(a.take(8)[1] == '-');
    }
}

/// A flag run, `q`, then `tail`: the cluster's projections.
proof fn lemma_cluster_with_query(flags: Seq<char>, tail: Seq<char>)
    requires
        only_flags(flags),
    ensures
        flags_then_query(flags + seq!['q'] + tail),
        flags_before_query(flags + seq!['q'] + tail) == flags,
        attached_after_query(flags + seq!['q'] + tail) == Some(tail),
{
    let body = flags + seq!['q'] + tail;
    lemma_flag_run(body, flags.len() as int);
    assert(body.take(flags.len() as int) == flags);
    let after = body.skip(flags.len() as int);
    assert(after[0] == 'q');
    assert(after.drop_first() == tail);
    assert(flags + Seq::<char>::empty() == flags);
}

/// A flag run alone: the cluster's projections.
proof fn lemma_cluster_of_flags(flags: Seq<char>)
    requires
        only_flags(flags),
    ensures
        flags_then_query(flags),
        flags_before_query(flags) == flags,
        attached_after_query(flags) is None,
{
    lemma_flag_run(flags, flags.len() as int);
    assert(flags.take(flags.len() as int) == flags);
    assert(flags.skip(flags.len() as int).len() == 0);
    assert(flags + Seq::<char>::empty() == flags);
}

/// A short-flag cluster may carry the query attached after `q`: `-` then any
/// `v`/`u` flags, `q`, and a non-empty rest sets the query to the rest as it
/// stands (it is not read as flags) and sets each flag that occurs.
pub proof fn law_attached_query(flags: Seq<char>, rest: Seq<char>)
    requires
        only_flags(flags),
        rest.len() > 0,
    ensures
        parse_arguments(seq![seq!['-'] + flags + seq!['q'] + rest]) == Ok::<CliState, ArgFailure>(
            CliState { query: rest, verbose: flags.contains('v'), update: flags.contains('u') },
        ),
{
    let a = seq!['-'] + flags + seq!['q'] + rest;
    let args = seq![a];
    let body = a.drop_first();
    assert(body == flags + seq!['q'] + rest);
    assert(a[1] == (if flags.len() > 0 { flags[0] } else { 'q' }));
    lemma_single_dash_shape(a);
    lemma_cluster_with_query(flags, rest);
    assert(is_short_option_cluster(a));
    assert(args[0] == a);
    let st = CliState { query: rest, verbose: flags.contains('v'), update: flags.contains('u') };
    assert(parse_from(args, 1, st) == Ok::<CliState, ArgFailure>(st));
}

/// The query may also end a cluster, or stand alone as `-q`: then the next
/// argument is the query, provided it is not itself option-like.
pub proof fn law_query_takes_next_argument(flags: Seq<char>, value: Seq<char>)
    requires
        only_flags(flags),
        !rejected_as_value(value),
    ensures
        parse_arguments(seq![seq!['-'] + flags + seq!['q'], value]) == Ok::<CliState, ArgFailure>(
            CliState { query: value, verbose: flags.contains('v'), update: flags.contains('u') },
        ),
{
    lemma_option_spellings();
    let a = seq!['-'] + flags + seq!['q'];
    let args = seq![a, value];
    assert(args[0] == a && args[1] == value);
    let st = CliState { query: value, verbose: flags.contains('v'), update: flags.contains('u') };
    assert(parse_from(args, 2, st) == Ok::<CliState, ArgFailure>(st));
    if flags.len() == 0 {
        assert(a == "-q"@);
        assert(!flags.contains('v') && !flags.contains('u'));
    } else {
        let body = a.drop_first();
        assert(body == flags + seq!['q'] + Seq::<char>::empty());
        assert(a[1] == flags[0]);
        lemma_single_dash_shape(a);
        lemma_cluster_with_query(flags, Seq::<char>::empty());
        assert(is_short_option_cluster(a));
    }
}

/// The query options never consume an option-like value: after `-q` or
/// `--query`, an option word, a `--query=` form or a valid short-flag cluster
/// is refused and the option is reported as lacking a value.
pub proof fn law_query_refuses_option_like_value(option: Seq<char>, value: Seq<char>, more: Seq<Seq<char>>)
    requires
        option == "-q"@ || option == "--query"@,
        rejected_as_value(value),
    ensures
        parse_arguments(seq![option, value] + more) == Err::<CliState, ArgFailure>(
            ArgFailure::RequiresValue(option),
        ),
{
    let args = seq![option, value] + more;
    assert(args[0] == option && args[1] == value);
}

/// A cluster of `v`/`u` flags alone sets exactly the flags that occur in it,
/// whatever their order or repetition, and leaves the query empty.
pub proof fn law_flag_cluster_sets_flags_in_any_order(flags: Seq<char>)
    requires
        only_flags(flags),
        flags.len() > 0,
    ensures
        parse_arguments(seq![seq!['-'] + flags]) == Ok::<CliState, ArgFailure>(
            CliState { query: seq![], verbose: flags.contains('v'), update: flags.contains('u') },
        ),
{
    lemma_option_spellings();
    let a = seq!['-'] + flags;
    let args = seq![a];
    assert(args[0] == a);
    let st = CliState { query: seq![], verbose: flags.contains('v'), update: flags.contains('u') };
    assert(parse_from(args, 1, st) == Ok::<CliState, ArgFailure>(st));
    if flags.len() == 1 {
        if flags[0] == 'v' {
            assert(a == "-v"@);
            assert(flags.contains('v'));
            assert(!flags.contains('u'));
        } else {
            assert(a == "-u"@);
            assert(flags.contains('u'));
            assert(!flags.contains('v'));
        }
    } else {
        assert(a.drop_first() == flags);
        assert(a[1] == flags[0]);
        lemma_single_dash_shape(a);
        lemma_cluster_of_flags(flags);
        assert(is_short_option_cluster(a));
    }
}

/// `--query=` takes the rest of its argument as the query, verbatim, even when
/// the rest looks like an option.
pub proof fn law_long_query_keeps_rest(rest: Seq<char>)
    ensures
        parse_arguments(seq!["--query="@ + rest]) == Ok::<CliState, ArgFailure>(
            CliState { query: rest, verbose: false, update: false },
        ),
{
    lemma_option_spellings();
    let a = "--query="@ + rest;
    let args = seq![a];
    assert(args[0] == a);
    assert(a.take(8) == "--query="@);
    assert(a.skip(8) == rest);
    assert(a.len() >= 8);
    assert(a != "-q"@ && a != "-v"@ && a != "-u"@);
    assert(a[7] != "--query"@[6] || a.len() != 7);
    assert(a[2] != "--verbose"@[2]);
    assert(a[2] != "--update"@[2]);
    let st = CliState { query: rest, verbose: false, update: false };
    assert(parse_from(args, 1, st) == Ok::<CliState, ArgFailure>(st));
}

/// An argument that does not start with `-` is refused, whatever follows it.
pub proof fn law_positional_argument_refused(a: Seq<char>, more: Seq<Seq<char>>)
    requires
        a.len() == 0 || a[0] != '-',
    ensures
        parse_arguments(seq![a] + more) == Err::<CliState, ArgFailure>(
            ArgFailure::UnknownArgument(a),
        ),
{
    lemma_option_spellings();
    let args = seq![a] + more;
    assert(args[0] == a);
    assert(a != "-q"@ && a != "--query"@ && a != "-v"@ && a != "--verbose"@);
    assert(a != "-u"@ && a != "--update"@);
    assert(!has_prefix(a, "--query="@)) by {
        if a.len() >= 8 {
            assert(a.take(8)[0] != '-');
        }
    }
}

/// A short-flag argument whose first non-flag character is neither `q` nor
/// `-` is refused, whatever follows it.
pub proof fn law_unknown_short_flag_refused(
    flags: Seq<char>,
    bad: char,
    rest: Seq<char>,
    more: Seq<Seq<char>>,
)
    requires
        only_flags(flags),
        bad != 'v' && bad != 'u' && bad != 'q' && bad != '-',
    ensures
        parse_arguments(seq![seq!['-'] + flags + seq![bad] + rest] + more) == Err::<
            CliState,
            ArgFailure,
        >(ArgFailure::UnknownArgument(seq!['-'] + flags + seq![bad] + rest)),
{
    lemma_option_spellings();
    let a = seq!['-'] + flags + seq![bad] + rest;
    let args = seq![a] + more;
    assert(args[0] == a);
    let body = a.drop_first();
    assert(body == flags + seq![bad] + rest);
    assert(a[1] == (if flags.len() > 0 { flags[0] } else { bad }));
    assert(a != "-q"@ && a != "-v"@ && a != "-u"@);
    if a.len() > 2 {
        lemma_single_dash_shape(a);
        lemma_flag_run(body, flags.len() as int);
        assert(body.skip(flags.len() as int)[0] == bad);
        assert(!flags_then_query(body));
    } else {
        assert(a != "--query"@ && a != "--verbose"@ && a != "--update"@);
        assert(!has_prefix(a, "--query="@));
    }
}

/// Whether reading `a` as an option sets the query: `-q`, `--query`, a
/// `--query=` form, or a valid short-flag cluster that contains `q`.
pub open spec fn sets_query(a: Seq<char>) -> bool {
    ||| a == "-q"@
    ||| a == "--query"@
    ||| has_prefix(a, "--query="@)
    ||| (is_short_option_cluster(a) && attached_after_query(a.drop_first()) is Some)
}

/// Whether some argument of `args` from position `j` on sets the query.
pub open spec fn sets_query_from(args: Seq<Seq<char>>, j: int) -> bool {
    exists|k: int| j <= k < args.len() && sets_query(#[trigger] args[k])
}

/// The state after `st`, given what a parse from the initial state produced
/// (`r`) and whether that parse set the query.
pub open spec fn continue_state(st: CliState, r: CliState, query_set: bool) -> CliState {
    CliState {
        query: if query_set { r.query } else { st.query },
        verbose: st.verbose || r.verbose,
        update: st.update || r.update,
    }
}

proof fn lemma_sets_query_from_step(args: Seq<Seq<char>>, j: int)
    requires
        0 <= j < args.len(),
    ensures
        sets_query_from(args, j) == (sets_query(args[j]) || sets_query_from(args, j + 1)),
{
    if sets_query_from(args, j) && !sets_query(args[j]) {
        let k = choose|k: int| j <= k < args.len() && sets_query(#[trigger] args[k]);
        assert(k != j);
    }
}

/// Parsing from any state does what parsing from the initial state does:
/// the same errors, the same flags added, and the query replaced only where an
/// argument sets it.
proof fn lemma_parse_from_any_state(args: Seq<Seq<char>>, j: int, st: CliState)
    requires
        0 <= j,
    ensures
        match parse_from(args, j, initial_state()) {
            Ok(r) => parse_from(args, j, st) == Ok::<CliState, ArgFailure>(
                continue_state(st, r, sets_query_from(args, j)),
            ),
            Err(e) => parse_from(args, j, st) == Err::<CliState, ArgFailure>(e),
        },
    decreases args.len() - j,
{
    let init = initial_state();
    if j >= args.len() {
        assert(!sets_query_from(args, j));
        assert(continue_state(st, init, false) == st);
    } else {
        lemma_option_spellings();
        lemma_sets_query_from_step(args, j);
        let a = args[j];
        if a == "-q"@ || a == "--query"@ {
            if j + 1 < args.len() && !rejected_as_value(args[j + 1]) {
                let v = args[j + 1];
                lemma_parse_from_any_state(args, j + 2, CliState { query: v, verbose: st.verbose, update: st.update });
                lemma_parse_from_any_state(args, j + 2, CliState { query: v, verbose: false, update: false });
            }
        } else if a == "-v"@ || a == "--verbose"@ {
            lemma_parse_from_any_state(args, j + 1, CliState { query: st.query, verbose: true, update: st.update });
            lemma_parse_from_any_state(args, j + 1, CliState { query: seq![], verbose: true, update: false });
            assert(!has_prefix(a, "--query="@)) by {
                if a.len() >= 8 {
                    assert(a.take(8)[2] != 'q');
                }
            }
        } else if a == "-u"@ || a == "--update"@ {
            lemma_parse_from_any_state(args, j + 1, CliState { query: st.query, verbose: st.verbose, update: true });
            lemma_parse_from_any_state(args, j + 1, CliState { query: seq![], verbose: false, update: true });
            assert(!has_prefix(a, "--query="@)) by {
                if a.len() >= 8 {
                    assert(a.take(8)[2] != 'q');
                }
            }
        } else if has_prefix(a, "--query="@) {
            let rest = a.skip("--query="@.len() as int);
            lemma_parse_from_any_state(args, j + 1, CliState { query: rest, verbose: st.verbose, update: st.update });
            lemma_parse_from_any_state(args, j + 1, CliState { query: rest, verbose: false, update: false });
        } else if is_short_option_cluster(a) {
            let body = a.drop_first();
            let flags = flags_before_query(body);
            let v = st.verbose || flags.contains('v');
            let u = st.update || flags.contains('u');
            let v0 = flags.contains('v');
            let u0 = flags.contains('u');
            match attached_after_query(body) {
                None => {
                    lemma_parse_from_any_state(args, j + 1, CliState { query: st.query, verbose: v, update: u });
                    lemma_parse_from_any_state(args, j + 1, CliState { query: seq![], verbose: v0, update: u0 });
                },
                Some(rest) => {
                    if rest.len() > 0 {
                        lemma_parse_from_any_state(args, j + 1, CliState { query: rest, verbose: v, update: u });
                        lemma_parse_from_any_state(args, j + 1, CliState { query: rest, verbose: v0, update: u0 });
                    } else if j + 1 < args.len() && !rejected_as_value(args[j + 1]) {
                        let q = args[j + 1];
                        lemma_parse_from_any_state(args, j + 2, CliState { query: q, verbose: v, update: u });
                        lemma_parse_from_any_state(args, j + 2, CliState { query: q, verbose: v0, update: u0 });
                    }
                },
            }
        }
    }
}

/// A successful parse of `xs` inside `xs + ys` ends where `xs` ends, in the
/// state it reaches alone.
proof fn lemma_parse_prefix(xs: Seq<Seq<char>>, ys: Seq<Seq<char>>, i: int, st: CliState)
    requires
        0 <= i <= xs.len(),
        parse_from(xs, i, st) is Ok,
    ensures
        parse_from(xs + ys, i, st) == parse_from(xs + ys, xs.len() as int, parse_from(xs, i, st)->Ok_0),
    decreases xs.len() - i,
{
    let all = xs + ys;
    if i < xs.len() {
        assert(all[i] == xs[i]);
        if i + 1 < xs.len() {
            assert(all[i + 1] == xs[i + 1]);
        }
        let a = xs[i];
        if a == "-q"@ || a == "--query"@ {
            lemma_parse_prefix(xs, ys, i + 2, CliState { query: xs[i + 1], verbose: st.verbose, update: st.update });
        } else if a == "-v"@ || a == "--verbose"@ {
            lemma_parse_prefix(xs, ys, i + 1, CliState { query: st.query, verbose: true, update: st.update });
        } else if a == "-u"@ || a == "--update"@ {
            lemma_parse_prefix(xs, ys, i + 1, CliState { query: st.query, verbose: st.verbose, update: true });
        } else if has_prefix(a, "--query="@) {
            lemma_parse_prefix(xs, ys, i + 1, CliState { query: a.skip("--query="@.len() as int), verbose: st.verbose, update: st.update });
        } else if is_short_option_cluster(a) {
            let body = a.drop_first();
            let flags = flags_before_query(body);
            let v = st.verbose || flags.contains('v');
            let u = st.update || flags.contains('u');
            match attached_after_query(body) {
                None => {
                    lemma_parse_prefix(xs, ys, i + 1, CliState { query: st.query, verbose: v, update: u });
                },
                Some(rest) => {
                    if rest.len() > 0 {
                        lemma_parse_prefix(xs, ys, i + 1, CliState { query: rest, verbose: v, update: u });
                    } else {
                        lemma_parse_prefix(xs, ys, i + 2, CliState { query: xs[i + 1], verbose: v, update: u });
                    }
                },
            }
        }
    }
}

/// Parsing `xs + ys` past the end of `xs` is parsing `ys`.
proof fn lemma_parse_suffix(xs: Seq<Seq<char>>, ys: Seq<Seq<char>>, j: int, st: CliState)
    requires
        0 <= j,
    ensures
        parse_from(xs + ys, xs.len() + j, st) == parse_from(ys, j, st),
    decreases ys.len() - j,
{
    let all = xs + ys;
    let i = xs.len() + j;
    if j < ys.len() {
        assert(all[i] == ys[j]);
        if j + 1 < ys.len() {
            assert(all[i + 1] == ys[j + 1]);
        }
        let a = ys[j];
        if a == "-q"@ || a == "--query"@ {
            if j + 1 < ys.len() {
                lemma_parse_suffix(xs, ys, j + 2, CliState { query: ys[j + 1], verbose: st.verbose, update: st.update });
            }
        } else if a == "-v"@ || a == "--verbose"@ {
            lemma_parse_suffix(xs, ys, j + 1, CliState { query: st.query, verbose: true, update: st.update });
        } else if a == "-u"@ || a == "--update"@ {
            lemma_parse_suffix(xs, ys, j + 1, CliState { query: st.query, verbose: st.verbose, update: true });
        } else if has_prefix(a, "--query="@) {
            lemma_parse_suffix(xs, ys, j + 1, CliState { query: a.skip("--query="@.len() as int), verbose: st.verbose, update: st.update });
        } else if is_short_option_cluster(a) {
            let body = a.drop_first();
            let flags = flags_before_query(body);
            let v = st.verbose || flags.contains('v');
            let u = st.update || flags.contains('u');
            match attached_after_query(body) {
                None => {
                    lemma_parse_suffix(xs, ys, j + 1, CliState { query: st.query, verbose: v, update: u });
                },
                Some(rest) => {
                    if rest.len() > 0 {
                        lemma_parse_suffix(xs, ys, j + 1, CliState { query: rest, verbose: v, update: u });
                    } else if j + 1 < ys.len() {
                        lemma_parse_suffix(xs, ys, j + 2, CliState { query: ys[j + 1], verbose: v, update: u });
                    }
                },
            }
        }
    }
}

/// No arguments parse to the initial state.
pub proof fn law_no_arguments()
    ensures
        parse_arguments(Seq::<Seq<char>>::empty()) == Ok::<CliState, ArgFailure>(initial_state()),
{
}

/// Two argument lists that parse on their own parse when concatenated: the
/// flags of both are set, and the query is the second list's when some
/// argument of it sets the query, else the first list's.
pub proof fn law_parse_concatenation(xs: Seq<Seq<char>>, ys: Seq<Seq<char>>)
    requires
        parse_arguments(xs) is Ok,
        parse_arguments(ys) is Ok,
    ensures
        parse_arguments(xs + ys) == Ok::<CliState, ArgFailure>(
            CliState {
                query: if sets_query_from(ys, 0) {
                    parse_arguments(ys)->Ok_0.query
                } else {
                    parse_arguments(xs)->Ok_0.query
                },
                verbose: parse_arguments(xs)->Ok_0.verbose || parse_arguments(ys)->Ok_0.verbose,
                update: parse_arguments(xs)->Ok_0.update || parse_arguments(ys)->Ok_0.update,
            },
        ),
{
    let s1 = parse_arguments(xs)->Ok_0;
    lemma_parse_prefix(xs, ys, 0, initial_state());
    lemma_parse_suffix(xs, ys, 0, s1);
    assert(xs.len() + 0 == xs.len());
    lemma_parse_from_any_state(ys, 0, s1);
}

/// `-q VALUE` and `--query VALUE` after any list that parses set the query to
/// the value exactly as given, of any length, and keep the flags set before.
pub proof fn law_query_option_keeps_value_verbatim(
    xs: Seq<Seq<char>>,
    option: Seq<char>,
    value: Seq<char>,
)
    requires
        option == "-q"@ || option == "--query"@,
        !rejected_as_value(value),
        parse_arguments(xs) is Ok,
    ensures
        parse_arguments(xs + seq![option, value]) == Ok::<CliState, ArgFailure>(
            CliState {
                query: value,
                verbose: parse_arguments(xs)->Ok_0.verbose,
                update: parse_arguments(xs)->Ok_0.update,
            },
        ),
{
    let ys = seq![option, value];
    assert(ys[0] == option && ys[1] == value);
    let st = CliState { query: value, verbose: false, update: false };
    assert(parse_from(ys, 2, st) == Ok::<CliState, ArgFailure>(st));
    assert(parse_arguments(ys) == Ok::<CliState, ArgFailure>(st));
    assert(sets_query(ys[0]));
    assert(sets_query_from(ys, 0));
    law_parse_concatenation(xs, ys);
}

/// The normalized query is the lowercasing of the single-spaced text that has
/// the query's words, however long the query is: nothing of it is cut off.
pub proof fn law_normalized_query_lowercases_collapsed_text(q: Seq<char>, c: Seq<char>)
    requires
        words(c) == words(q),
        single_spaced(c),
    ensures
        normalized(q) == str_to_lowercase(c),
{
    law_collapsed_form_is_unique(q, c);
}

/// Whether no `q` stands in `a` between position 1 and position `m`.
pub open spec fn no_q_before(a: Seq<char>, m: int) -> bool {
    forall|j: int| 1 <= j < m ==> a[j] != 'q'
}

/// A single `-`, at least two more characters, and nothing but `v` or `u`
/// before the first `q` (if any).
pub open spec fn well_formed_cluster(a: Seq<char>) -> bool {
    &&& a.len() > 2
    &&& a[0] == '-'
    &&& a[1] != '-'
    &&& forall|m: int|
        1 <= m < a.len() && no_q_before(a, m) ==> (#[trigger] a[m] == 'v' || a[m] == 'u' || a[m] == 'q')
}

/// The long spelling of the flag `f`.
pub open spec fn long_flag(f: char) -> Seq<char> {
    if f == 'v' {
        "--verbose"@
    } else {
        "--update"@
    }
}

/// Whether reading `a` as an option turns on the flag `f`: its short or long
/// spelling, or a well-formed cluster holding `f` before its first `q`.
pub open spec fn turns_on(a: Seq<char>, f: char) -> bool {
    ||| a == seq!['-', f]
    ||| a == long_flag(f)
    ||| (well_formed_cluster(a) && exists|m: int| 1 <= m < a.len() && #[trigger] a[m] == f && no_q_before(a, m))
}

/// Whether some argument from position `j` on turns on the flag `f`.
pub open spec fn turned_on_from(args: Seq<Seq<char>>, j: int, f: char) -> bool {
    exists|k: int| j <= k < args.len() && turns_on(#[trigger] args[k], f)
}

/// The flag `f` of a state.
pub open spec fn flag_value(st: CliState, f: char) -> bool {
    if f == 'v' {
        st.verbose
    } else {
        st.update
    }
}

proof fn lemma_flags_then_query_chars(body: Seq<char>)
    ensures
        flags_then_query(body) <==> forall|m: int|
            0 <= m < body.len() && (forall|j: int| 0 <= j < m ==> body[j] != 'q') ==> (
            #[trigger] body[m] == 'v' || body[m] == 'u' || body[m] == 'q'),
    decreases body.len(),
{
    if body.len() > 0 {
        let rest = body.drop_first();
        lemma_flags_then_query_chars(rest);
        if body[0] == 'v' || body[0] == 'u' {
            if flags_then_query(rest) {
                assert forall|m: int|
                    0 <= m < body.len() && (forall|j: int| 0 <= j < m ==> body[j] != 'q') implies (
                    #[trigger] body[m] == 'v' || body[m] == 'u' || body[m] == 'q') by {
                    if m > 0 {
                        assert(rest[m - 1] == body[m]);
                        assert forall|j: int| 0 <= j < m - 1 implies rest[j] != 'q' by {
                            assert(rest[j] == body[j + 1]);
                        }
                    }
                }
            } else {
                let m = choose|m: int|
                    0 <= m < rest.len() && (forall|j: int| 0 <= j < m ==> rest[j] != 'q') && !(
                    #[trigger] rest[m] == 'v' || rest[m] == 'u' || rest[m] == 'q');
                assert(body[m + 1] == rest[m]);
                assert forall|j: int| 0 <= j < m + 1 implies body[j] != 'q' by {
                    if j > 0 {
                        assert(body[j] == rest[j - 1]);
                    }
                }
            }
        } else {
            if body[0] != 'q' {
                assert(!(body[0] == 'v' || body[0] == 'u' || body[0] == 'q'));
            }
        }
    }
}

proof fn lemma_flag_before_query_chars(body: Seq<char>, f: char)
    requires
        f != 'q',
    ensures
        flags_before_query(body).contains(f) <==> exists|m: int|
            0 <= m < body.len() && #[trigger] body[m] == f && (forall|j: int| 0 <= j < m ==> body[j] != 'q'),
    decreases body.len(),
{
    if body.len() > 0 && body[0] != 'q' {
        let rest = body.drop_first();
        lemma_flag_before_query_chars(rest, f);
        let fb = flags_before_query(body);
        let fr = flags_before_query(rest);
        assert(fb == seq![body[0]] + fr);
        if fb.contains(f) {
            let i = choose|i: int| 0 <= i < fb.len() && fb[i] == f;
            if i == 0 {
                assert(body[0] == f);
            } else {
                assert(fr[i - 1] == f);
                assert(fr.contains(f));
                let m = choose|m: int|
                    0 <= m < rest.len() && #[trigger] rest[m] == f && (forall|j: int| 0 <= j < m ==> rest[j] != 'q');
                assert(body[m + 1] == f);
                assert forall|j: int| 0 <= j < m + 1 implies body[j] != 'q' by {
                    if j > 0 {
                        assert(body[j] == rest[j - 1]);
                    }
                }
            }
        }
        if exists|m: int| 0 <= m < body.len() && #[trigger] body[m] == f && (forall|j: int| 0 <= j < m ==> body[j] != 'q') {
            let m = choose|m: int| 0 <= m < body.len() && #[trigger] body[m] == f && (forall|j: int| 0 <= j < m ==> body[j] != 'q');
            if m == 0 {
                assert(fb[0] == f);
            } else {
                assert(rest[m - 1] == f);
                assert forall|j: int| 0 <= j < m - 1 implies rest[j] != 'q' by {
                    assert(rest[j] == body[j + 1]);
                }
                assert(fr.contains(f));
                let i = choose|i: int| 0 <= i < fr.len() && fr[i] == f;
                assert(fb[i + 1] == f);
            }
        }
    } else if body.len() > 0 {
        assert(flags_before_query(body) == Seq::<char>::empty());
        if exists|m: int| 0 <= m < body.len() && #[trigger] body[m] == f && (forall|j: int| 0 <= j < m ==> body[j] != 'q') {
            let m = choose|m: int| 0 <= m < body.len() && #[trigger] body[m] == f && (forall|j: int| 0 <= j < m ==> body[j] != 'q');
            assert(m != 0);
            assert(body[0] != 'q');
        }
    }
}

/// The cluster forms agree: `well_formed_cluster` is `is_short_option_cluster`,
/// and such a cluster turns on `f` exactly when `f` stands before its `q`.
proof fn lemma_cluster_forms(a: Seq<char>, f: char)
    requires
        f == 'v' || f == 'u',
    ensures
        well_formed_cluster(a) == is_short_option_cluster(a),
        is_short_option_cluster(a) ==> (turns_on(a, f) == flags_before_query(a.drop_first()).contains(f)),
{
    lemma_option_spellings();
    if a.len() > 2 && a[0] == '-' && a[1] != '-' {
        let body = a.drop_first();
        lemma_flags_then_query_chars(body);
        lemma_flag_before_query_chars(body, f);
        assert(well_formed_cluster(a) == flags_then_query(body)) by {
            if well_formed_cluster(a) {
                assert forall|m: int|
                    0 <= m < body.len() && (forall|j: int| 0 <= j < m ==> body[j] != 'q') implies (
                    #[trigger] body[m] == 'v' || body[m] == 'u' || body[m] == 'q') by {
                    assert(body[m] == a[m + 1]);
                    assert(no_q_before(a, m + 1)) by {
                        assert forall|j: int| 1 <= j < m + 1 implies a[j] != 'q' by {
                            assert(a[j] == body[j - 1]);
                        }
                    }
                }
            }
            if flags_then_query(body) {
                assert forall|m: int|
                    1 <= m < a.len() && no_q_before(a, m) implies (#[trigger] a[m] == 'v' || a[m] == 'u' || a[m] == 'q') by {
                    assert(a[m] == body[m - 1]);
                    assert forall|j: int| 0 <= j < m - 1 implies body[j] != 'q' by {
                        assert(body[j] == a[j + 1]);
                    }
                }
            }
        }
        assert(a != seq!['-', f]);
        assert(a != long_flag(f)) by {
            assert(long_flag(f)[1] == '-');
        }
        let has_f = exists|m: int| 1 <= m < a.len() && #[trigger] a[m] == f && no_q_before(a, m);
        let body_f = exists|m: int|
            0 <= m < body.len() && #[trigger] body[m] == f && (forall|j: int| 0 <= j < m ==> body[j] != 'q');
        assert(has_f == body_f) by {
            if has_f {
                let m = choose|m: int| 1 <= m < a.len() && #[trigger] a[m] == f && no_q_before(a, m);
                assert(body[m - 1] == f);
                assert forall|j: int| 0 <= j < m - 1 implies body[j] != 'q' by {
                    assert(body[j] == a[j + 1]);
                }
            }
            if body_f {
                let m = choose|m: int|
                    0 <= m < body.len() && #[trigger] body[m] == f && (forall|j: int| 0 <= j < m ==> body[j] != 'q');
                assert(a[m + 1] == f);
                assert(no_q_before(a, m + 1)) by {
                    assert forall|j: int| 1 <= j < m + 1 implies a[j] != 'q' by {
                        assert(a[j] == body[j - 1]);
                    }
                }
            }
        }
    }
}

/// A value that the query options accept turns on no flag.
proof fn lemma_value_turns_on_nothing(v: Seq<char>, f: char)
    requires
        f == 'v' || f == 'u',
        !rejected_as_value(v),
    ensures
        !turns_on(v, f),
{
    lemma_option_spellings();
    lemma_cluster_forms(v, f);
    if f == 'v' {
        assert(seq!['-', f] == "-v"@);
    } else {
        assert(seq!['-', f] == "-u"@);
    }
}

proof fn lemma_turned_on_step(args: Seq<Seq<char>>, j: int, f: char)
    requires
        0 <= j < args.len(),
    ensures
        turned_on_from(args, j, f) == (turns_on(args[j], f) || turned_on_from(args, j + 1, f)),
{
    if turned_on_from(args, j, f) && !turns_on(args[j], f) {
        let k = choose|k: int| j <= k < args.len() && turns_on(#[trigger] args[k], f);
        assert(k != j);
    }
}

/// Along a successful parse, a flag ends up on exactly when it was on before or
/// some later argument turns it on.
proof fn lemma_flag_from(args: Seq<Seq<char>>, j: int, st: CliState, f: char)
    requires
        0 <= j,
        f == 'v' || f == 'u',
        parse_from(args, j, st) is Ok,
    ensures
        flag_value(parse_from(args, j, st)->Ok_0, f) == (flag_value(st, f) || turned_on_from(args, j, f)),
    decreases args.len() - j,
{
    if j >= args.len() {
        assert(!turned_on_from(args, j, f));
    } else {
        lemma_option_spellings();
        lemma_turned_on_step(args, j, f);
        let a = args[j];
        lemma_cluster_forms(a, f);
        let short_f = seq!['-', f];
        assert(short_f.len() == 2 && short_f[1] == f);
        if a == "-q"@ || a == "--query"@ {
            assert(!turns_on(a, f)) by {
                assert(a[1] != f);
                assert(long_flag(f)[2] != 'q');
            }
            let v = args[j + 1];
            lemma_value_turns_on_nothing(v, f);
            lemma_turned_on_step(args, j + 1, f);
            lemma_flag_from(args, j + 2, CliState { query: v, verbose: st.verbose, update: st.update }, f);
        } else if a == "-v"@ || a == "--verbose"@ {
            assert(turns_on(a, f) == (f == 'v')) by {
                if f == 'u' {
                    assert(a[1] != 'u' || a.len() != 2);
                    assert(a != "--update"@) by {
                        assert(a.len() == 2 || a[2] != 'u');
                    }
                }
            }
            lemma_flag_from(args, j + 1, CliState { query: st.query, verbose: true, update: st.update }, f);
        } else if a == "-u"@ || a == "--update"@ {
            assert(turns_on(a, f) == (f == 'u')) by {
                if f == 'v' {
                    assert(a[1] != 'v' || a.len() != 2);
                    assert(a != "--verbose"@) by {
                        assert(a.len() == 2 || a[2] != 'v');
                    }
                }
            }
            lemma_flag_from(args, j + 1, CliState { query: st.query, verbose: st.verbose, update: true }, f);
        } else if has_prefix(a, "--query="@) {
            assert(a.take(8) == "--query="@);
            assert(a[1] == '-' && a[2] == 'q');
            assert(!turns_on(a, f)) by {
                assert(long_flag(f)[2] != 'q');
            }
            lemma_flag_from(args, j + 1, CliState { query: a.skip("--query="@.len() as int), verbose: st.verbose, update: st.update }, f);
        } else if is_short_option_cluster(a) {
            let body = a.drop_first();
            let flags = flags_before_query(body);
            let v = st.verbose || flags.contains('v');
            let u = st.update || flags.contains('u');
            match attached_after_query(body) {
                None => {
                    lemma_flag_from(args, j + 1, CliState { query: st.query, verbose: v, update: u }, f);
                },
                Some(rest) => {
                    if rest.len() > 0 {
                        lemma_flag_from(args, j + 1, CliState { query: rest, verbose: v, update: u }, f);
                    } else {
                        let q = args[j + 1];
                        lemma_value_turns_on_nothing(q, f);
                        lemma_turned_on_step(args, j + 1, f);
                        lemma_flag_from(args, j + 2, CliState { query: q, verbose: v, update: u }, f);
                    }
                },
            }
        }
    }
}

/// A parsed command line is verbose exactly when some argument is `-v`,
/// `--verbose` or a cluster with `v` before its `q`; it updates exactly when
/// some argument is `-u`, `--update` or a cluster with `u` before its `q`.
pub proof fn law_flags_come_from_their_options(args: Seq<Seq<char>>)
    requires
        parse_arguments(args) is Ok,
    ensures
        parse_arguments(args)->Ok_0.verbose == turned_on_from(args, 0, 'v'),
        parse_arguments(args)->Ok_0.update == turned_on_from(args, 0, 'u'),
{
    lemma_flag_from(args, 0, initial_state(), 'v');
    lemma_flag_from(args, 0, initial_state(), 'u');
}

/// Whether `long` and `short` are the two spellings of one flag.
pub open spec fn flag_spellings(long: Seq<char>, short: Seq<char>) -> bool {
    (long == "--verbose"@ && short == "-v"@) || (long == "--update"@ && short == "-u"@)
}

/// Two argument lists that differ only where one spells a flag long and the
/// other short parse alike from any position and state.
proof fn lemma_spellings_parse_alike(
    args1: Seq<Seq<char>>,
    args2: Seq<Seq<char>>,
    i: int,
    j: int,
    st: CliState,
)
    requires
        0 <= j,
        0 <= i < args1.len(),
        args1.len() == args2.len(),
        forall|k: int| 0 <= k < args1.len() && k != i ==> args1[k] == args2[k],
        flag_spellings(args1[i], args2[i]),
    ensures
        parse_from(args1, j, st) == parse_from(args2, j, st),
    decreases args1.len() - j,
{
    lemma_option_spellings();
    if j < args1.len() {
        let a1 = args1[j];
        let a2 = args2[j];
        if j + 1 < args1.len() && j + 1 != i {
            assert(args1[j + 1] == args2[j + 1]);
        }
        if j + 1 == i {
            assert(rejected_as_value(args1[j + 1]) && rejected_as_value(args2[j + 1]));
        }
        if j == i {
            assert(a1 != "-q"@ && a1 != "--query"@ && a2 != "-q"@ && a2 != "--query"@) by {
                assert(a1.len() != 2);
                assert(a1[2] != 'q');
                assert(a2[1] != 'q');
                assert(a2.len() != 7);
            }
            if a1 == "--verbose"@ {
                assert(a2 == "-v"@);
                lemma_spellings_parse_alike(args1, args2, i, j + 1, CliState { query: st.query, verbose: true, update: st.update });
            } else {
                assert(a1 == "--update"@ && a2 == "-u"@);
                assert(a1 != "-v"@ && a1 != "--verbose"@ && a2 != "-v"@ && a2 != "--verbose"@) by {
                    assert(a1[2] != 'v');
                    assert(a2[1] != 'v');
                }
                lemma_spellings_parse_alike(args1, args2, i, j + 1, CliState { query: st.query, verbose: st.verbose, update: true });
            }
        } else {
            assert(a1 == a2);
            let a = a1;
            if a == "-q"@ || a == "--query"@ {
                if j + 1 < args1.len() && j + 1 != i {
                    lemma_spellings_parse_alike(args1, args2, i, j + 2, CliState { query: args1[j + 1], verbose: st.verbose, update: st.update });
                }
            } else if a == "-v"@ || a == "--verbose"@ {
                lemma_spellings_parse_alike(args1, args2, i, j + 1, CliState { query: st.query, verbose: true, update: st.update });
            } else if a == "-u"@ || a == "--update"@ {
                lemma_spellings_parse_alike(args1, args2, i, j + 1, CliState { query: st.query, verbose: st.verbose, update: true });
            } else if has_prefix(a, "--query="@) {
                lemma_spellings_parse_alike(args1, args2, i, j + 1, CliState { query: a.skip("--query="@.len() as int), verbose: st.verbose, update: st.update });
            } else if is_short_option_cluster(a) {
                let body = a.drop_first();
                let flags = flags_before_query(body);
                let v = st.verbose || flags.contains('v');
                let u = st.update || flags.contains('u');
                match attached_after_query(body) {
                    None => {
                        lemma_spellings_parse_alike(args1, args2, i, j + 1, CliState { query: st.query, verbose: v, update: u });
                    },
                    Some(rest) => {
                        if rest.len() > 0 {
                            lemma_spellings_parse_alike(args1, args2, i, j + 1, CliState { query: rest, verbose: v, update: u });
                        } else if j + 1 < args1.len() && j + 1 != i {
                            lemma_spellings_parse_alike(args1, args2, i, j + 2, CliState { query: args1[j + 1], verbose: v, update: u });
                        }
                    },
                }
            }
        }
    }
}

/// `--verbose` does exactly what `-v` does, and `--update` exactly what `-u`
/// does: putting one spelling in place of the other anywhere in a command line
/// changes neither the parse nor its error.
pub proof fn law_long_flags_act_as_short_flags(args: Seq<Seq<char>>, i: int)
    requires
        0 <= i < args.len(),
    ensures
        parse_arguments(args.update(i, "--verbose"@)) == parse_arguments(args.update(i, "-v"@)),
        parse_arguments(args.update(i, "--update"@)) == parse_arguments(args.update(i, "-u"@)),
{
    lemma_spellings_parse_alike(args.update(i, "--verbose"@), args.update(i, "-v"@), i, 0, initial_state());
    lemma_spellings_parse_alike(args.update(i, "--update"@), args.update(i, "-u"@), i, 0, initial_state());
}

} // verus!
