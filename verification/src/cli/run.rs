//! The decisions of a run around the pipeline: what to print without reading
//! any history, the filters built from the options, where the history comes
//! from, and how that source is named.
use vstd::prelude::*;
use crate::cli::args::{Args, ArgsModel, texts_view};
use crate::completions::{completion_script, completions};
use crate::date::{resolve_date_spec, resolve_until, resolved_date, until_bound};
use crate::man::{man_page, man_page_text};
use crate::search::{CommandPattern, regex_compiles};
use crate::io::file_loader::{default_history_path_for, opt_view};
use crate::shell::{Shell, history_path_of};
use crate::text::{has_prefix, push_str_chars, string_of};

verus! {

/// What the run prints without reading any history: the man page under
/// `--man`, else the completion script under `--completions`.
pub open spec fn fixed_text(a: ArgsModel) -> Option<Seq<char>> {
    if a.man {
        Some(man_page_text())
    } else {
        match a.completions {
            Some(s) => Some(completion_script(s)),
            None => None,
        }
    }
}

/// The man page or completion script that the options ask for, if any.
pub fn fixed_output(args: &Args) -> (r: Option<String>)
    ensures
        match r {
            Some(t) => fixed_text(args@) == Some(t@),
            None => fixed_text(args@) is None,
        },
{
    if args.man {
        Some(man_page())
    } else {
        match args.completions {
            Some(s) => Some(completions(s)),
            None => None,
        }
    }
}

/// The filters that the options ask for, ready for the pipeline.
pub struct Filters {
    /// The `--grep` pattern, matched ignoring case.
    pub grep: Option<CommandPattern>,
    /// The start of the date range, in Unix seconds.
    pub since: Option<i64>,
    /// The end of the date range, in Unix seconds.
    pub until: Option<i64>,
}

/// The regular expression that `--grep` compiles: the pattern, matched
/// ignoring case.
pub open spec fn grep_regex(p: Seq<char>) -> Seq<char> {
    "(?i)"@ + p
}

/// The message for a date that `--since` or `--until` cannot read.
pub open spec fn bad_date_message(flag: Seq<char>, d: Seq<char>) -> Seq<char> {
    "invalid "@ + flag + " date '"@ + d + "' (use YYYY-MM-DD or Nd/Nw/Nm)"@
}

/// How building the filters ends.
pub enum FilterPlan {
    /// The `--grep` pattern does not compile.
    BadPattern,
    /// A date cannot be read; the message.
    BadDate(Seq<char>),
    /// The pattern's regex and the date range.
    Ready(Option<Seq<char>>, Option<i64>, Option<i64>),
}

/// A date bound read against `now`, or the message for it: for `--since`
/// the moment the value names (a date's start), for `--until` the last second
/// it keeps (a date's end).
pub open spec fn date_bound(flag: Seq<char>, d: Option<Seq<char>>, now: i64, until: bool) -> Result<
    Option<i64>,
    Seq<char>,
> {
    match d {
        None => Ok(None),
        Some(t) => match (if until {
            until_bound(t, now as int)
        } else {
            resolved_date(t, now as int)
        }) {
            Some(v) => Ok(Some(v as i64)),
            None => Err(bad_date_message(flag, t)),
        },
    }
}

/// The filters for the options, checked in the order `--grep`, `--since`,
/// `--until`.
pub open spec fn filter_plan(a: ArgsModel, now: i64) -> FilterPlan {
    if a.grep is Some && !regex_compiles(grep_regex(a.grep->0)) {
        FilterPlan::BadPattern
    } else {
        match date_bound("--since"@, a.since, now, false) {
            Err(m) => FilterPlan::BadDate(m),
            Ok(s) => match date_bound("--until"@, a.until, now, true) {
                Err(m) => FilterPlan::BadDate(m),
                Ok(u) => FilterPlan::Ready(
                    match a.grep {
                        Some(p) => Some(grep_regex(p)),
                        None => None,
                    },
                    s,
                    u,
                ),
            },
        }
    }
}

fn read_bound(flag: &str, d: &Option<String>, now: i64, until: bool) -> (r: Result<Option<i64>, String>)
    ensures
        match r {
            Ok(v) => date_bound(flag@, crate::aggregators::command_counter::opt_text(*d), now, until)
                == Ok::<Option<i64>, Seq<char>>(v),
            Err(m) => date_bound(flag@, crate::aggregators::command_counter::opt_text(*d), now, until)
                == Err::<Option<i64>, Seq<char>>(m@),
        },
{
    match d {
        None => Ok(None),
        Some(t) => match (if until {
            resolve_until(t.as_str(), now)
        } else {
            resolve_date_spec(t.as_str(), now)
        }) {
            Some(v) => Ok(Some(v)),
            None => {
                let mut out: Vec<char> = Vec::new();
                push_str_chars(&mut out, "invalid ");
                push_str_chars(&mut out, flag);
                push_str_chars(&mut out, " date '");
                push_str_chars(&mut out, t.as_str());
                push_str_chars(&mut out, "' (use YYYY-MM-DD or Nd/Nw/Nm)");
                assert(out@ == Seq::<char>::empty() + "invalid "@ + flag@ + " date '"@ + t@
                    + "' (use YYYY-MM-DD or Nd/Nw/Nm)"@);
                Err(string_of(out.as_slice()))
            },
        },
    }
}

/// Builds the filters that the options ask for, with `now` (Unix seconds)
/// for relative dates. A pattern that does not compile gives a message that
/// starts `invalid --grep pattern: ` and goes on with the regex engine's
/// words.
pub fn prepare_filters(args: &Args, now: i64) -> (r: Result<Filters, String>)
    ensures
        match filter_plan(args@, now) {
            FilterPlan::BadPattern => r is Err && has_prefix(r->Err_0@, "invalid --grep pattern: "@),
            FilterPlan::BadDate(m) => r is Err && r->Err_0@ == m,
            FilterPlan::Ready(g, s, u) => r is Ok && r->Ok_0.since == s && r->Ok_0.until == u
                && match r->Ok_0.grep {
                Some(p) => g == Some(p@),
                None => g is None,
            },
        },
{
    let grep = match &args.grep {
        Some(p) => {
            let mut text: Vec<char> = Vec::new();
            push_str_chars(&mut text, "(?i)");
            push_str_chars(&mut text, p.as_str());
            let source = string_of(text.as_slice());
            match CommandPattern::new(source.as_str()) {
                Ok(c) => Some(c),
                Err(e) => {
                    let mut out: Vec<char> = Vec::new();
                    push_str_chars(&mut out, "invalid --grep pattern: ");
                    let ghost head = out@;
                    push_str_chars(&mut out, e.message.as_str());
                    assert(out@.take(head.len() as int) =~= head);
                    return Err(string_of(out.as_slice()));
                },
            }
        },
        None => None,
    };
    let since = match read_bound("--since", &args.since, now, false) {
        Ok(v) => v,
        Err(m) => {
            return Err(m);
        },
    };
    let until = match read_bound("--until", &args.until, now, true) {
        Ok(v) => v,
        Err(m) => {
            return Err(m);
        },
    };
    Ok(Filters { grep, since, until })
}

// ---------------------------------------------------------------------------
// Where the history comes from
// ---------------------------------------------------------------------------
/// Where one history text is read from.
pub enum InputSource {
    /// Standard input.
    Stdin,
    /// A file.
    File(String),
}

/// What an input source is, as text: `None` for standard input.
pub open spec fn source_view(s: InputSource) -> Option<Seq<char>> {
    match s {
        InputSource::Stdin => None,
        InputSource::File(p) => Some(p@),
    }
}

/// The message when no history file can be found.
pub const NO_HOME: &'static str =
    "HOME environment variable not set — cannot resolve default history path";

/// The history file for a shell (bash unless the options name one), given
/// the values of `HOME` and `XDG_DATA_HOME`.
pub open spec fn default_source_path(a: ArgsModel, home: Option<Seq<char>>, xdg: Option<Seq<char>>) -> Option<
    Seq<char>,
> {
    history_path_of(
        match a.shell {
            Some(s) => s,
            None => Shell::Bash,
        },
        home,
        xdg,
    )
}

/// The default history file: that of the shell the options name, bash
/// otherwise, given the values of `HOME` and `XDG_DATA_HOME`.
pub fn default_input_path(args: &Args, home: Option<&str>, xdg_data_home: Option<&str>) -> (r: Option<
    String,
>)
    ensures
        match r {
            Some(p) => default_source_path(args@, opt_view(home), opt_view(xdg_data_home)) == Some(p@),
            None => default_source_path(args@, opt_view(home), opt_view(xdg_data_home)) is None,
        },
{
    let shell = match args.shell {
        Some(s) => s,
        None => Shell::Bash,
    };
    default_history_path_for(shell, home, xdg_data_home)
}

/// The sources of a path list: `-` is standard input.
pub open spec fn path_sources(paths: Seq<Seq<char>>) -> Seq<Option<Seq<char>>> {
    paths.map_values(|p: Seq<char>| if p == "-"@ { None } else { Some(p) })
}

/// Where the history comes from: the `--path` files (and `-`), else standard
/// input when it is not a terminal, else the default history file; none
/// without it.
pub open spec fn input_plan(a: ArgsModel, stdin_piped: bool, default_path: Option<Seq<char>>) -> Option<
    Seq<Option<Seq<char>>>,
> {
    if a.paths.len() > 0 {
        Some(path_sources(a.paths))
    } else if stdin_piped {
        Some(seq![None])
    } else {
        match default_path {
            Some(p) => Some(seq![Some(p)]),
            None => None,
        }
    }
}

/// Where the history comes from, given whether standard input is piped and
/// the default history file (if `HOME` gives one).
pub fn input_sources(args: &Args, stdin_piped: bool, default_path: Option<String>) -> (r: Result<
    Vec<InputSource>,
    String,
>)
    ensures
        match r {
            Ok(v) => input_plan(args@, stdin_piped, crate::aggregators::command_counter::opt_text(
                default_path,
            )) == Some(v@.map_values(|s: InputSource| source_view(s))),
            Err(m) => input_plan(args@, stdin_piped, crate::aggregators::command_counter::opt_text(
                default_path,
            )) is None && m@ == NO_HOME@,
        },
{
    let ghost pv = texts_view(args.paths@);
    let mut out: Vec<InputSource> = Vec::new();
    if args.paths.len() > 0 {
        for i in 0..args.paths.len()
            invariant
                pv == texts_view(args.paths@),
                out@.map_values(|s: InputSource| source_view(s)) == path_sources(pv.take(i as int)),
        {
            let p = &args.paths[i];
            let ghost before = out@.map_values(|s: InputSource| source_view(s));
            let src = if p.as_str().unicode_len() == 1 && p.as_str().get_char(0) == '-' {
                assert(p@ =~= "-"@) by {
                    reveal_strlit("-");
                }
                InputSource::Stdin
            } else {
                proof {
                    reveal_strlit("-");
                    if p@ == "-"@ {
                        assert(p@.len() == 1 && p@[0] == '-');
                    }
                }
                InputSource::File(p.clone())
            };
            out.push(src);
            assert(out@.map_values(|s: InputSource| source_view(s)) =~= before.push(source_view(src)));
            assert(path_sources(pv.take(i + 1)) =~= path_sources(pv.take(i as int)).push(
                if pv[i as int] == "-"@ {
                    None
                } else {
                    Some(pv[i as int])
                },
            ));
        }
        assert(pv.take(args.paths.len() as int) == pv);
        return Ok(out);
    }
    if stdin_piped {
        out.push(InputSource::Stdin);
        assert(out@.map_values(|s: InputSource| source_view(s)) =~= seq![None::<Seq<char>>]);
        return Ok(out);
    }
    match default_path {
        Some(p) => {
            out.push(InputSource::File(p));
            assert(out@.map_values(|s: InputSource| source_view(s)) =~= seq![Some(p@)]);
            Ok(out)
        },
        None => Err(NO_HOME.to_owned()),
    }
}

/// The label of a path in messages: `stdin` for `-`.
pub open spec fn path_label(p: Seq<char>) -> Seq<char> {
    if p == "-"@ {
        "stdin"@
    } else {
        p
    }
}

/// The labels of the paths, separated by `, `.
pub open spec fn joined_labels(ps: Seq<Seq<char>>) -> Seq<char>
    decreases ps.len(),
{
    if ps.len() == 0 {
        Seq::empty()
    } else if ps.len() == 1 {
        path_label(ps[0])
    } else {
        joined_labels(ps.drop_last()) + ", "@ + path_label(ps.last())
    }
}

/// How the source of the history is named in messages.
pub open spec fn source_name(a: ArgsModel, stdin_piped: bool, default_path: Option<Seq<char>>) -> Seq<char> {
    if a.paths.len() > 0 {
        joined_labels(a.paths)
    } else if stdin_piped {
        "stdin"@
    } else {
        match default_path {
            Some(p) => p,
            None => "default history path"@,
        }
    }
}

/// Names the source of the history, for the message when nothing is left to
/// show.
pub fn source_label(args: &Args, stdin_piped: bool, default_path: Option<String>) -> (r: String)
    ensures
        r@ == source_name(args@, stdin_piped, crate::aggregators::command_counter::opt_text(
            default_path,
        )),
{
    let ghost pv = texts_view(args.paths@);
    if args.paths.len() > 0 {
        let mut out: Vec<char> = Vec::new();
        for i in 0..args.paths.len()
            invariant
                pv == texts_view(args.paths@),
                pv.len() > 0,
                out@ == joined_labels(pv.take(i as int)),
        {
            let p = &args.paths[i];
            proof {
                reveal_strlit("-");
            }
            assert(pv[i as int] == p@);
            assert(pv.take(i + 1).drop_last() == pv.take(i as int));
            assert(pv.take(i + 1).last() == p@);
            if i > 0 {
                push_str_chars(&mut out, ", ");
            }
            if p.as_str().unicode_len() == 1 && p.as_str().get_char(0) == '-' {
                assert(p@ =~= "-"@);
                push_str_chars(&mut out, "stdin");
            } else {
                proof {
                    if p@ == "-"@ {
                        assert(p@.len() == 1 && p@[0] == '-');
                    }
                }
                push_str_chars(&mut out, p.as_str());
            }
            assert(i == 0 ==> pv.take(1)[0] == p@);
        }
        assert(pv.take(args.paths.len() as int) == pv);
        return string_of(out.as_slice());
    }
    if stdin_piped {
        "stdin".to_owned()
    } else {
        match default_path {
            Some(p) => p,
            None => "default history path".to_owned(),
        }
    }
}

/// The message when nothing is left to show.
pub open spec fn nothing_to_show(source: Seq<char>) -> Seq<char> {
    "shellist: no commands to show from "@ + source
}

/// The message when nothing is left to show from the named source.
pub fn nothing_to_show_message(source: &str) -> (r: String)
    ensures
        r@ == nothing_to_show(source@),
{
    let mut out: Vec<char> = Vec::new();
    push_str_chars(&mut out, "shellist: no commands to show from ");
    push_str_chars(&mut out, source);
    assert(out@ == Seq::<char>::empty() + "shellist: no commands to show from "@ + source@);
    string_of(out.as_slice())
}

} // verus!
