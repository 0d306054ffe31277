//! Command-line options: what each flag sets, and the message for a bad one.
use vstd::prelude::*;
use crate::aggregators::command_counter::opt_text;
use crate::date::{Bucket, bucket_of_name};
use crate::numbers::{parse_usize, usize_of_text};
use crate::shell::{Shell, shell_of_name};
use crate::text::{chars_eq_str, chars_of, lowercase, push_str_chars, string_of, to_lowercase, trim, trim_chars};

verus! {

/// The options of one run.
pub struct Args {
    /// Show only the top N commands.
    pub top: Option<usize>,
    /// Commands to leave out (trimmed, lowercased).
    pub ignore: Vec<String>,
    /// Don't leave out the bash built-ins that the default ignore list names.
    pub no_default_ignore: bool,
    /// Only commands used at least this many times.
    pub min_freq: Option<usize>,
    /// History files to read, `-` for standard input.
    pub paths: Vec<String>,
    /// The parser to use for every input, in place of detection.
    pub shell: Option<Shell>,
    /// How many leading words make up a command's key.
    pub depth: Option<usize>,
    pub json: bool,
    pub csv: bool,
    pub bars: bool,
    pub percent: bool,
    pub last_used: bool,
    pub stats: bool,
    /// Keep only commands that this regular expression matches (ignoring case).
    pub grep: Option<String>,
    /// Rank from the least used up.
    pub asc: bool,
    pub since: Option<String>,
    pub until: Option<String>,
    pub trend: bool,
    pub hourly: bool,
    pub trend_bucket: Option<Bucket>,
    /// Write the output to this file in place of standard output.
    pub output: Option<String>,
    /// Print the completion script for this shell.
    pub completions: Option<Shell>,
    pub man: bool,
    /// Keep leading `sudo` and `VAR=value` prefixes.
    pub no_strip: bool,
    /// Merge adjacent identical lines before counting.
    pub collapse: bool,
}

/// What the options hold, as text.
pub struct ArgsModel {
    pub top: Option<usize>,
    pub ignore: Seq<Seq<char>>,
    pub no_default_ignore: bool,
    pub min_freq: Option<usize>,
    pub paths: Seq<Seq<char>>,
    pub shell: Option<Shell>,
    pub depth: Option<usize>,
    pub json: bool,
    pub csv: bool,
    pub bars: bool,
    pub percent: bool,
    pub last_used: bool,
    pub stats: bool,
    pub grep: Option<Seq<char>>,
    pub asc: bool,
    pub since: Option<Seq<char>>,
    pub until: Option<Seq<char>>,
    pub trend: bool,
    pub hourly: bool,
    pub trend_bucket: Option<Bucket>,
    pub output: Option<Seq<char>>,
    pub completions: Option<Shell>,
    pub man: bool,
    pub no_strip: bool,
    pub collapse: bool,
}

/// The texts of a list of strings.
pub open spec fn texts_view(v: Seq<String>) -> Seq<Seq<char>> {
    v.map_values(|s: String| s@)
}

/// The text of an optional string slice.
pub open spec fn opt_str(o: Option<&str>) -> Option<Seq<char>> {
    match o {
        Some(s) => Some(s@),
        None => None,
    }
}

impl View for Args {
    type V = ArgsModel;

    open spec fn view(&self) -> ArgsModel {
        ArgsModel {
            top: self.top,
            ignore: texts_view(self.ignore@),
            no_default_ignore: self.no_default_ignore,
            min_freq: self.min_freq,
            paths: texts_view(self.paths@),
            shell: self.shell,
            depth: self.depth,
            json: self.json,
            csv: self.csv,
            bars: self.bars,
            percent: self.percent,
            last_used: self.last_used,
            stats: self.stats,
            grep: opt_text(self.grep),
            asc: self.asc,
            since: opt_text(self.since),
            until: opt_text(self.until),
            trend: self.trend,
            hourly: self.hourly,
            trend_bucket: self.trend_bucket,
            output: opt_text(self.output),
            completions: self.completions,
            man: self.man,
            no_strip: self.no_strip,
            collapse: self.collapse,
        }
    }
}

/// No option set.
pub open spec fn empty_model() -> ArgsModel {
    ArgsModel {
        top: None,
        ignore: Seq::empty(),
        no_default_ignore: false,
        min_freq: None,
        paths: Seq::empty(),
        shell: None,
        depth: None,
        json: false,
        csv: false,
        bars: false,
        percent: false,
        last_used: false,
        stats: false,
        grep: None,
        asc: false,
        since: None,
        until: None,
        trend: false,
        hourly: false,
        trend_bucket: None,
        output: None,
        completions: None,
        man: false,
        no_strip: false,
        collapse: false,
    }
}

impl Args {
    /// No option set.
    pub fn empty() -> (r: Self)
        ensures
            r@ == empty_model(),
    {
        let r = Args {
            top: None,
            ignore: Vec::new(),
            no_default_ignore: false,
            min_freq: None,
            paths: Vec::new(),
            shell: None,
            depth: None,
            json: false,
            csv: false,
            bars: false,
            percent: false,
            last_used: false,
            stats: false,
            grep: None,
            asc: false,
            since: None,
            until: None,
            trend: false,
            hourly: false,
            trend_bucket: None,
            output: None,
            completions: None,
            man: false,
            no_strip: false,
            collapse: false,
        };
        assert(texts_view(r.ignore@) =~= Seq::empty());
        assert(texts_view(r.paths@) =~= Seq::empty());
        r
    }
}

// ---------------------------------------------------------------------------
// Messages
// ---------------------------------------------------------------------------
pub open spec fn needs_value_message(flag: Seq<char>) -> Seq<char> {
    "shellist: "@ + flag + " requires a value"@
}

pub open spec fn not_number_message(flag: Seq<char>, val: Seq<char>) -> Seq<char> {
    "shellist: "@ + flag + " expects a number, got '"@ + val + "'"@
}

pub open spec fn bad_shell_message(flag: Seq<char>, val: Seq<char>) -> Seq<char> {
    "shellist: "@ + flag + " expects bash, zsh, or fish, got '"@ + val + "'"@
}

pub open spec fn bad_bucket_message(val: Seq<char>) -> Seq<char> {
    "shellist: --trend-bucket expects day, week, or month, got '"@ + val + "'"@
}

pub open spec fn unknown_flag_message(arg: Seq<char>) -> Seq<char> {
    "shellist: unknown flag '"@ + arg + "'"@
}

fn text3(a: &str, b: &str, c: &str) -> (r: String)
    ensures
        r@ == a@ + b@ + c@,
{
    let mut out: Vec<char> = Vec::new();
    push_str_chars(&mut out, a);
    push_str_chars(&mut out, b);
    push_str_chars(&mut out, c);
    string_of(out.as_slice())
}

fn text5(a: &str, b: &str, c: &str, d: &str, e: &str) -> (r: String)
    ensures
        r@ == a@ + b@ + c@ + d@ + e@,
{
    let mut out: Vec<char> = Vec::new();
    push_str_chars(&mut out, a);
    push_str_chars(&mut out, b);
    push_str_chars(&mut out, c);
    push_str_chars(&mut out, d);
    push_str_chars(&mut out, e);
    string_of(out.as_slice())
}

// ---------------------------------------------------------------------------
// Flag values
// ---------------------------------------------------------------------------
/// The text of a result whose error is a string.
pub open spec fn result_view<T>(r: Result<T, String>) -> Result<T, Seq<char>> {
    match r {
        Ok(v) => Ok(v),
        Err(e) => Err(e@),
    }
}

/// The number that a flag's value gives, or the message for its absence or
/// for a value that is not a number.
pub open spec fn number_value(flag: Seq<char>, value: Option<Seq<char>>) -> Result<usize, Seq<char>> {
    match value {
        None => Err(needs_value_message(flag)),
        Some(v) => match usize_of_text(v) {
            Some(n) => Ok(n),
            None => Err(not_number_message(flag, v)),
        },
    }
}

/// The shell that a flag's value names, or the message.
pub open spec fn shell_value(flag: Seq<char>, value: Option<Seq<char>>) -> Result<Shell, Seq<char>> {
    match value {
        None => Err(needs_value_message(flag)),
        Some(v) => match shell_of_name(v) {
            Some(s) => Ok(s),
            None => Err(bad_shell_message(flag, v)),
        },
    }
}

/// The bucket that the value of `--trend-bucket` names, or the message.
pub open spec fn bucket_value(value: Option<Seq<char>>) -> Result<Bucket, Seq<char>> {
    match value {
        None => Err(needs_value_message("--trend-bucket"@)),
        Some(v) => match bucket_of_name(v) {
            Some(b) => Ok(b),
            None => Err(bad_bucket_message(v)),
        },
    }
}

/// A flag's value, or the message for its absence.
pub open spec fn text_value(flag: Seq<char>, value: Option<Seq<char>>) -> Result<Seq<char>, Seq<char>> {
    match value {
        None => Err(needs_value_message(flag)),
        Some(v) => Ok(v),
    }
}

fn read_number(flag: &str, value: Option<&str>) -> (r: Result<usize, String>)
    ensures
        result_view(r) == number_value(flag@, opt_str(value)),
{
    match value {
        None => Err(text3("shellist: ", flag, " requires a value")),
        Some(v) => {
            let cs = chars_of(v);
            match parse_usize(cs.as_slice()) {
                Some(n) => Ok(n),
                None => Err(text5("shellist: ", flag, " expects a number, got '", v, "'")),
            }
        },
    }
}

fn read_shell(flag: &str, value: Option<&str>) -> (r: Result<Shell, String>)
    ensures
        result_view(r) == shell_value(flag@, opt_str(value)),
{
    match value {
        None => Err(text3("shellist: ", flag, " requires a value")),
        Some(v) => match Shell::from_name(v) {
            Some(s) => Ok(s),
            None => Err(text5("shellist: ", flag, " expects bash, zsh, or fish, got '", v, "'")),
        },
    }
}

fn read_bucket(value: Option<&str>) -> (r: Result<Bucket, String>)
    ensures
        result_view(r) == bucket_value(opt_str(value)),
{
    match value {
        None => Err(text3("shellist: ", "--trend-bucket", " requires a value")),
        Some(v) => match Bucket::from_name(v) {
            Some(b) => Ok(b),
            None => Err(
                text3("shellist: --trend-bucket expects day, week, or month, got '", v, "'"),
            ),
        },
    }
}

fn read_text(flag: &str, value: Option<&str>) -> (r: Result<String, String>)
    ensures
        match r {
            Ok(s) => text_value(flag@, opt_str(value)) == Ok::<Seq<char>, Seq<char>>(s@),
            Err(e) => text_value(flag@, opt_str(value)) == Err::<Seq<char>, Seq<char>>(e@),
        },
{
    match value {
        None => Err(text3("shellist: ", flag, " requires a value")),
        Some(v) => Ok(v.to_owned()),
    }
}

// ---------------------------------------------------------------------------
// Comma-separated lists
// ---------------------------------------------------------------------------
/// The pieces of `s` between the separators (`str::split`): one more than
/// there are separators, empty ones included.
pub open spec fn pieces(s: Seq<char>, sep: char) -> Seq<Seq<char>>
    decreases s.len(),
{
    if s.len() == 0 {
        seq![Seq::empty()]
    } else {
        let p = pieces(s.drop_last(), sep);
        if s.last() == sep {
            p.push(Seq::empty())
        } else {
            p.update(p.len() - 1, p.last().push(s.last()))
        }
    }
}

pub proof fn lemma_pieces_len(s: Seq<char>, sep: char)
    ensures
        pieces(s, sep).len() >= 1,
    decreases s.len(),
{
    if s.len() > 0 {
        lemma_pieces_len(s.drop_last(), sep);
    }
}

/// The value of `--ignore`: its comma-separated names, trimmed and lowercased.
pub open spec fn ignore_list(v: Seq<char>) -> Seq<Seq<char>> {
    pieces(v, ',').map_values(|p: Seq<char>| lowercase(trim(p)))
}

/// The paths among comma-separated pieces: each trimmed, the empty ones left out.
pub open spec fn path_list(ps: Seq<Seq<char>>) -> Seq<Seq<char>>
    decreases ps.len(),
{
    if ps.len() == 0 {
        Seq::empty()
    } else {
        let rest = path_list(ps.drop_last());
        if trim(ps.last()).len() > 0 {
            rest.push(trim(ps.last()))
        } else {
            rest
        }
    }
}

/// The texts of a list of character vectors.
pub open spec fn chars_view(v: Seq<Vec<char>>) -> Seq<Seq<char>> {
    v.map_values(|c: Vec<char>| c@)
}

/// Splits a text at each separator.
fn split_on(s: &[char], sep: char) -> (r: Vec<Vec<char>>)
    ensures
        chars_view(r@) == pieces(s@, sep),
{
    let mut done: Vec<Vec<char>> = Vec::new();
    let mut cur: Vec<char> = Vec::new();
    for i in 0..s.len()
        invariant
            chars_view(done@).push(cur@) == pieces(s@.take(i as int), sep),
    {
        let ghost pre = s@.take(i as int);
        assert(s@.take(i + 1).drop_last() == pre);
        assert(s@.take(i + 1).last() == s@[i as int]);
        proof {
            lemma_pieces_len(pre, sep);
        }
        let ghost before = chars_view(done@);
        if s[i] == sep {
            let w = cur;
            cur = Vec::new();
            done.push(w);
            assert(chars_view(done@) =~= before.push(w@));
            assert(chars_view(done@).push(cur@) =~= pieces(s@.take(i + 1), sep));
        } else {
            cur.push(s[i]);
            assert(chars_view(done@).push(cur@) =~= pieces(s@.take(i + 1), sep));
        }
    }
    assert(s@.take(s.len() as int) == s@);
    done.push(cur);
    assert(chars_view(done@) =~= pieces(s@, sep));
    done
}

/// The names that `--ignore` gives.
fn ignore_values(val: &str) -> (r: Vec<String>)
    ensures
        texts_view(r@) == ignore_list(val@),
{
    let cs = chars_of(val);
    let ps = split_on(cs.as_slice(), ',');
    let ghost pv = pieces(val@, ',');
    let mut out: Vec<String> = Vec::new();
    for i in 0..ps.len()
        invariant
            chars_view(ps@) == pv,
            pv == pieces(val@, ','),
            texts_view(out@) == pv.take(i as int).map_values(|p: Seq<char>| lowercase(trim(p))),
    {
        assert(ps@[i as int]@ == pv[i as int]);
        let t = trim_chars(ps[i].as_slice());
        let name = string_of(t.as_slice());
        let low = to_lowercase(name.as_str());
        let ghost before = texts_view(out@);
        out.push(low);
        assert(texts_view(out@) =~= before.push(low@));
        assert(pv.take(i + 1).map_values(|p: Seq<char>| lowercase(trim(p))) =~= pv.take(
            i as int,
        ).map_values(|p: Seq<char>| lowercase(trim(p))).push(lowercase(trim(pv[i as int]))));
    }
    assert(pv.take(ps.len() as int) == pv);
    out
}

/// The paths that a `--path` value gives.
fn path_values(val: &str) -> (r: Vec<String>)
    ensures
        texts_view(r@) == path_list(pieces(val@, ',')),
{
    let cs = chars_of(val);
    let ps = split_on(cs.as_slice(), ',');
    let ghost pv = pieces(val@, ',');
    let mut out: Vec<String> = Vec::new();
    for i in 0..ps.len()
        invariant
            chars_view(ps@) == pv,
            pv == pieces(val@, ','),
            texts_view(out@) == path_list(pv.take(i as int)),
    {
        assert(ps@[i as int]@ == pv[i as int]);
        assert(pv.take(i + 1).drop_last() == pv.take(i as int));
        let t = trim_chars(ps[i].as_slice());
        if t.len() > 0 {
            let ghost before = texts_view(out@);
            let p = string_of(t.as_slice());
            out.push(p);
            assert(texts_view(out@) =~= before.push(p@));
        }
    }
    assert(pv.take(ps.len() as int) == pv);
    out
}

/// A copy of a list of strings.
pub(crate) fn copy_texts(src: &Vec<String>) -> (r: Vec<String>)
    ensures
        texts_view(r@) == texts_view(src@),
{
    let mut out: Vec<String> = Vec::new();
    for i in 0..src.len()
        invariant
            texts_view(out@) == texts_view(src@).take(i as int),
    {
        let ghost before = texts_view(out@);
        let t = src[i].clone();
        out.push(t);
        assert(texts_view(out@) =~= before.push(t@));
        assert(texts_view(src@).take(i + 1) =~= texts_view(src@).take(i as int).push(src@[i as int]@));
    }
    assert(texts_view(src@).take(src.len() as int) =~= texts_view(src@));
    out
}

/// Appends strings to a list.
fn append_texts(dst: &mut Vec<String>, src: Vec<String>)
    ensures
        texts_view(final(dst)@) == texts_view(old(dst)@) + texts_view(src@),
{
    let ghost start = texts_view(dst@);
    for i in 0..src.len()
        invariant
            texts_view(dst@) == start + texts_view(src@).take(i as int),
    {
        let ghost before = texts_view(dst@);
        let t = src[i].clone();
        dst.push(t);
        assert(texts_view(dst@) =~= before.push(t@));
        assert(texts_view(src@).take(i + 1) =~= texts_view(src@).take(i as int).push(src@[i as int]@));
    }
    assert(texts_view(src@).take(src.len() as int) =~= texts_view(src@));
}

// ---------------------------------------------------------------------------
// Flags
// ---------------------------------------------------------------------------
/// How reading the command line ends.
pub enum ParseOutcome {
    /// Run with these options.
    Run(ArgsModel),
    /// Print the help text.
    Help,
    /// Print the version.
    Version,
    /// Fail with this message.
    Invalid(Seq<char>),
}

/// An option that a flag without a value turns on.
#[derive(Clone, Copy)]
pub enum Switch {
    NoDefaultIgnore,
    NoStrip,
    Collapse,
    Json,
    Csv,
    Bars,
    Percent,
    LastUsed,
    Stats,
    Asc,
    Trend,
    Hourly,
    Man,
}

/// The options with a switch turned on.
pub open spec fn switch_on(a: ArgsModel, s: Switch) -> ArgsModel {
    match s {
        Switch::NoDefaultIgnore => ArgsModel { no_default_ignore: true, ..a },
        Switch::NoStrip => ArgsModel { no_strip: true, ..a },
        Switch::Collapse => ArgsModel { collapse: true, ..a },
        Switch::Json => ArgsModel { json: true, ..a },
        Switch::Csv => ArgsModel { csv: true, ..a },
        Switch::Bars => ArgsModel { bars: true, ..a },
        Switch::Percent => ArgsModel { percent: true, ..a },
        Switch::LastUsed => ArgsModel { last_used: true, ..a },
        Switch::Stats => ArgsModel { stats: true, ..a },
        Switch::Asc => ArgsModel { asc: true, ..a },
        Switch::Trend => ArgsModel { trend: true, ..a },
        Switch::Hourly => ArgsModel { hourly: true, ..a },
        Switch::Man => ArgsModel { man: true, ..a },
    }
}

/// What one argument means, its value read.
pub enum FlagModel {
    Stdin,
    Switch(Switch),
    Top(usize),
    Min(usize),
    Depth(usize),
    Ignore(Seq<Seq<char>>),
    Paths(Seq<Seq<char>>),
    Shell(Shell),
    Grep(Seq<char>),
    Since(Seq<char>),
    Until(Seq<char>),
    TrendBucket(Bucket),
    Output(Seq<char>),
    Completions(Shell),
    Help,
    Version,
    Invalid(Seq<char>),
}

/// The meaning of the argument `arg`, with `value` the argument after it, if any.
pub open spec fn flag_meaning(arg: Seq<char>, value: Option<Seq<char>>) -> FlagModel {
    if arg == "-"@ {
        FlagModel::Stdin
    } else if arg == "--help"@ {
        FlagModel::Help
    } else if arg == "--version"@ {
        FlagModel::Version
    } else if arg == "--top"@ {
        match number_value(arg, value) {
            Ok(n) => FlagModel::Top(n),
            Err(m) => FlagModel::Invalid(m),
        }
    } else if arg == "--min"@ {
        match number_value(arg, value) {
            Ok(n) => FlagModel::Min(n),
            Err(m) => FlagModel::Invalid(m),
        }
    } else if arg == "--depth"@ {
        match number_value(arg, value) {
            Ok(n) => FlagModel::Depth(n),
            Err(m) => FlagModel::Invalid(m),
        }
    } else if arg == "--ignore"@ {
        match text_value(arg, value) {
            Ok(v) => FlagModel::Ignore(ignore_list(v)),
            Err(m) => FlagModel::Invalid(m),
        }
    } else if arg == "--no-default-ignore"@ {
        FlagModel::Switch(Switch::NoDefaultIgnore)
    } else if arg == "--no-strip"@ {
        FlagModel::Switch(Switch::NoStrip)
    } else if arg == "--collapse"@ {
        FlagModel::Switch(Switch::Collapse)
    } else if arg == "--path"@ {
        match text_value(arg, value) {
            Ok(v) => FlagModel::Paths(path_list(pieces(v, ','))),
            Err(m) => FlagModel::Invalid(m),
        }
    } else if arg == "--shell"@ {
        match shell_value(arg, value) {
            Ok(s) => FlagModel::Shell(s),
            Err(m) => FlagModel::Invalid(m),
        }
    } else if arg == "--json"@ {
        FlagModel::Switch(Switch::Json)
    } else if arg == "--csv"@ {
        FlagModel::Switch(Switch::Csv)
    } else if arg == "--bars"@ {
        FlagModel::Switch(Switch::Bars)
    } else if arg == "--percent"@ {
        FlagModel::Switch(Switch::Percent)
    } else if arg == "--last-used"@ {
        FlagModel::Switch(Switch::LastUsed)
    } else if arg == "--stats"@ {
        FlagModel::Switch(Switch::Stats)
    } else if arg == "--grep"@ {
        match text_value(arg, value) {
            Ok(v) => FlagModel::Grep(v),
            Err(m) => FlagModel::Invalid(m),
        }
    } else if arg == "--asc"@ {
        FlagModel::Switch(Switch::Asc)
    } else if arg == "--since"@ {
        match text_value(arg, value) {
            Ok(v) => FlagModel::Since(v),
            Err(m) => FlagModel::Invalid(m),
        }
    } else if arg == "--until"@ {
        match text_value(arg, value) {
            Ok(v) => FlagModel::Until(v),
            Err(m) => FlagModel::Invalid(m),
        }
    } else if arg == "--trend"@ {
        FlagModel::Switch(Switch::Trend)
    } else if arg == "--hourly"@ {
        FlagModel::Switch(Switch::Hourly)
    } else if arg == "--trend-bucket"@ {
        match bucket_value(value) {
            Ok(b) => FlagModel::TrendBucket(b),
            Err(m) => FlagModel::Invalid(m),
        }
    } else if arg == "--output"@ {
        match text_value(arg, value) {
            Ok(v) => FlagModel::Output(v),
            Err(m) => FlagModel::Invalid(m),
        }
    } else if arg == "--completions"@ {
        match shell_value(arg, value) {
            Ok(s) => FlagModel::Completions(s),
            Err(m) => FlagModel::Invalid(m),
        }
    } else if arg == "--man"@ {
        FlagModel::Switch(Switch::Man)
    } else {
        FlagModel::Invalid(unknown_flag_message(arg))
    }
}

/// What one flag does: set options and go on (having used the next argument
/// as its value or not), or end the reading.
pub enum FlagStep {
    Next(ArgsModel, bool),
    Stop(ParseOutcome),
}

/// What a flag of this meaning does to the options.
pub open spec fn flag_effect(a: ArgsModel, f: FlagModel) -> FlagStep {
    match f {
        FlagModel::Stdin => FlagStep::Next(ArgsModel { paths: a.paths.push("-"@), ..a }, false),
        FlagModel::Switch(s) => FlagStep::Next(switch_on(a, s), false),
        FlagModel::Top(n) => FlagStep::Next(ArgsModel { top: Some(n), ..a }, true),
        FlagModel::Min(n) => FlagStep::Next(ArgsModel { min_freq: Some(n), ..a }, true),
        FlagModel::Depth(n) => FlagStep::Next(ArgsModel { depth: Some(n), ..a }, true),
        FlagModel::Ignore(v) => FlagStep::Next(ArgsModel { ignore: v, ..a }, true),
        FlagModel::Paths(v) => FlagStep::Next(ArgsModel { paths: a.paths + v, ..a }, true),
        FlagModel::Shell(s) => FlagStep::Next(ArgsModel { shell: Some(s), ..a }, true),
        FlagModel::Grep(v) => FlagStep::Next(ArgsModel { grep: Some(v), ..a }, true),
        FlagModel::Since(v) => FlagStep::Next(ArgsModel { since: Some(v), ..a }, true),
        FlagModel::Until(v) => FlagStep::Next(ArgsModel { until: Some(v), ..a }, true),
        FlagModel::TrendBucket(b) => FlagStep::Next(ArgsModel { trend_bucket: Some(b), ..a }, true),
        FlagModel::Output(v) => FlagStep::Next(ArgsModel { output: Some(v), ..a }, true),
        FlagModel::Completions(s) => FlagStep::Next(ArgsModel { completions: Some(s), ..a }, true),
        FlagModel::Help => FlagStep::Stop(ParseOutcome::Help),
        FlagModel::Version => FlagStep::Stop(ParseOutcome::Version),
        FlagModel::Invalid(m) => FlagStep::Stop(ParseOutcome::Invalid(m)),
    }
}

/// The effect of the flag `arg`, with `value` the argument after it, if any.
pub open spec fn flag_step(a: ArgsModel, arg: Seq<char>, value: Option<Seq<char>>) -> FlagStep {
    flag_effect(a, flag_meaning(arg, value))
}

/// Reading the arguments from position `i` on, with the options set so far.
pub open spec fn parse_from(argv: Seq<Seq<char>>, i: int, a: ArgsModel) -> ParseOutcome
    decreases argv.len() - i,
{
    if i < 0 || i >= argv.len() {
        ParseOutcome::Run(a)
    } else {
        let value = if i + 1 < argv.len() {
            Some(argv[i + 1])
        } else {
            None
        };
        match flag_step(a, argv[i], value) {
            FlagStep::Next(b, used) => parse_from(
                argv,
                if used && i + 1 < argv.len() {
                    i + 2
                } else {
                    i + 1
                },
                b,
            ),
            FlagStep::Stop(o) => o,
        }
    }
}

/// How reading the command line ended.
pub enum ParsedArgs {
    /// Run with these options.
    Run(Args),
    /// Print the help text.
    Help,
    /// Print the version.
    Version,
    /// Fail with this message.
    Invalid(String),
}

impl View for ParsedArgs {
    type V = ParseOutcome;

    open spec fn view(&self) -> ParseOutcome {
        match self {
            ParsedArgs::Run(a) => ParseOutcome::Run(a@),
            ParsedArgs::Help => ParseOutcome::Help,
            ParsedArgs::Version => ParseOutcome::Version,
            ParsedArgs::Invalid(m) => ParseOutcome::Invalid(m@),
        }
    }
}

/// What one argument means, its value read.
enum Flag {
    Stdin,
    Switch(Switch),
    Top(usize),
    Min(usize),
    Depth(usize),
    Ignore(Vec<String>),
    Paths(Vec<String>),
    Shell(Shell),
    Grep(String),
    Since(String),
    Until(String),
    TrendBucket(Bucket),
    Output(String),
    Completions(Shell),
    Help,
    Version,
    Invalid(String),
}

impl View for Flag {
    type V = FlagModel;

    closed spec fn view(&self) -> FlagModel {
        match self {
            Flag::Stdin => FlagModel::Stdin,
            Flag::Switch(s) => FlagModel::Switch(*s),
            Flag::Top(n) => FlagModel::Top(*n),
            Flag::Min(n) => FlagModel::Min(*n),
            Flag::Depth(n) => FlagModel::Depth(*n),
            Flag::Ignore(v) => FlagModel::Ignore(texts_view(v@)),
            Flag::Paths(v) => FlagModel::Paths(texts_view(v@)),
            Flag::Shell(s) => FlagModel::Shell(*s),
            Flag::Grep(v) => FlagModel::Grep(v@),
            Flag::Since(v) => FlagModel::Since(v@),
            Flag::Until(v) => FlagModel::Until(v@),
            Flag::TrendBucket(b) => FlagModel::TrendBucket(*b),
            Flag::Output(v) => FlagModel::Output(v@),
            Flag::Completions(s) => FlagModel::Completions(*s),
            Flag::Help => FlagModel::Help,
            Flag::Version => FlagModel::Version,
            Flag::Invalid(m) => FlagModel::Invalid(m@),
        }
    }
}

/// Reads what one argument means.
#[verifier::rlimit(30)]
fn read_flag(arg: &str, value: Option<&str>) -> (f: Flag)
    ensures
        f@ == flag_meaning(arg@, opt_str(value)),
{
    let cs = chars_of(arg);
    let a = cs.as_slice();
    if chars_eq_str(a, "-") {
        Flag::Stdin
    } else if chars_eq_str(a, "--help") {
        Flag::Help
    } else if chars_eq_str(a, "--version") {
        Flag::Version
    } else if chars_eq_str(a, "--top") {
        match read_number(arg, value) {
            Ok(n) => Flag::Top(n),
            Err(m) => Flag::Invalid(m),
        }
    } else if chars_eq_str(a, "--min") {
        match read_number(arg, value) {
            Ok(n) => Flag::Min(n),
            Err(m) => Flag::Invalid(m),
        }
    } else if chars_eq_str(a, "--depth") {
        match read_number(arg, value) {
            Ok(n) => Flag::Depth(n),
            Err(m) => Flag::Invalid(m),
        }
    } else if chars_eq_str(a, "--ignore") {
        match value {
            Some(v) => Flag::Ignore(ignore_values(v)),
            None => Flag::Invalid(text3("shellist: ", arg, " requires a value")),
        }
    } else if chars_eq_str(a, "--no-default-ignore") {
        Flag::Switch(Switch::NoDefaultIgnore)
    } else if chars_eq_str(a, "--no-strip") {
        Flag::Switch(Switch::NoStrip)
    } else if chars_eq_str(a, "--collapse") {
        Flag::Switch(Switch::Collapse)
    } else if chars_eq_str(a, "--path") {
        match value {
            Some(v) => Flag::Paths(path_values(v)),
            None => Flag::Invalid(text3("shellist: ", arg, " requires a value")),
        }
    } else if chars_eq_str(a, "--shell") {
        match read_shell(arg, value) {
            Ok(s) => Flag::Shell(s),
            Err(m) => Flag::Invalid(m),
        }
    } else if chars_eq_str(a, "--json") {
        Flag::Switch(Switch::Json)
    } else if chars_eq_str(a, "--csv") {
        Flag::Switch(Switch::Csv)
    } else if chars_eq_str(a, "--bars") {
        Flag::Switch(Switch::Bars)
    } else if chars_eq_str(a, "--percent") {
        Flag::Switch(Switch::Percent)
    } else if chars_eq_str(a, "--last-used") {
        Flag::Switch(Switch::LastUsed)
    } else if chars_eq_str(a, "--stats") {
        Flag::Switch(Switch::Stats)
    } else if chars_eq_str(a, "--grep") {
        match read_text(arg, value) {
            Ok(v) => Flag::Grep(v),
            Err(m) => Flag::Invalid(m),
        }
    } else if chars_eq_str(a, "--asc") {
        Flag::Switch(Switch::Asc)
    } else if chars_eq_str(a, "--since") {
        match read_text(arg, value) {
            Ok(v) => Flag::Since(v),
            Err(m) => Flag::Invalid(m),
        }
    } else if chars_eq_str(a, "--until") {
        match read_text(arg, value) {
            Ok(v) => Flag::Until(v),
            Err(m) => Flag::Invalid(m),
        }
    } else if chars_eq_str(a, "--trend") {
        Flag::Switch(Switch::Trend)
    } else if chars_eq_str(a, "--hourly") {
        Flag::Switch(Switch::Hourly)
    } else if chars_eq_str(a, "--trend-bucket") {
        match read_bucket(value) {
            Ok(b) => Flag::TrendBucket(b),
            Err(m) => Flag::Invalid(m),
        }
    } else if chars_eq_str(a, "--output") {
        match read_text(arg, value) {
            Ok(v) => Flag::Output(v),
            Err(m) => Flag::Invalid(m),
        }
    } else if chars_eq_str(a, "--completions") {
        match read_shell(arg, value) {
            Ok(s) => Flag::Completions(s),
            Err(m) => Flag::Invalid(m),
        }
    } else if chars_eq_str(a, "--man") {
        Flag::Switch(Switch::Man)
    } else {
        Flag::Invalid(text3("shellist: unknown flag '", arg, "'"))
    }
}

fn with_no_default_ignore(args: Args) -> (r: Args)
    ensures
        r@ == switch_on(args@, Switch::NoDefaultIgnore),
{
    Args { no_default_ignore: true, ..args }
}

fn with_no_strip(args: Args) -> (r: Args)
    ensures
        r@ == switch_on(args@, Switch::NoStrip),
{
    Args { no_strip: true, ..args }
}

fn with_collapse(args: Args) -> (r: Args)
    ensures
        r@ == switch_on(args@, Switch::Collapse),
{
    Args { collapse: true, ..args }
}

fn with_json(args: Args) -> (r: Args)
    ensures
        r@ == switch_on(args@, Switch::Json),
{
    Args { json: true, ..args }
}

fn with_csv(args: Args) -> (r: Args)
    ensures
        r@ == switch_on(args@, Switch::Csv),
{
    Args { csv: true, ..args }
}

fn with_bars(args: Args) -> (r: Args)
    ensures
        r@ == switch_on(args@, Switch::Bars),
{
    Args { bars: true, ..args }
}

fn with_percent(args: Args) -> (r: Args)
    ensures
        r@ == switch_on(args@, Switch::Percent),
{
    Args { percent: true, ..args }
}

fn with_last_used(args: Args) -> (r: Args)
    ensures
        r@ == switch_on(args@, Switch::LastUsed),
{
    Args { last_used: true, ..args }
}

fn with_stats(args: Args) -> (r: Args)
    ensures
        r@ == switch_on(args@, Switch::Stats),
{
    Args { stats: true, ..args }
}

fn with_asc(args: Args) -> (r: Args)
    ensures
        r@ == switch_on(args@, Switch::Asc),
{
    Args { asc: true, ..args }
}

fn with_trend(args: Args) -> (r: Args)
    ensures
        r@ == switch_on(args@, Switch::Trend),
{
    Args { trend: true, ..args }
}

fn with_hourly(args: Args) -> (r: Args)
    ensures
        r@ == switch_on(args@, Switch::Hourly),
{
    Args { hourly: true, ..args }
}

fn with_man(args: Args) -> (r: Args)
    ensures
        r@ == switch_on(args@, Switch::Man),
{
    Args { man: true, ..args }
}

/// The options with a switch turned on.
fn turned_on(args: Args, s: Switch) -> (r: Args)
    ensures
        r@ == switch_on(args@, s),
{
    match s {
        Switch::NoDefaultIgnore => with_no_default_ignore(args),
        Switch::NoStrip => with_no_strip(args),
        Switch::Collapse => with_collapse(args),
        Switch::Json => with_json(args),
        Switch::Csv => with_csv(args),
        Switch::Bars => with_bars(args),
        Switch::Percent => with_percent(args),
        Switch::LastUsed => with_last_used(args),
        Switch::Stats => with_stats(args),
        Switch::Asc => with_asc(args),
        Switch::Trend => with_trend(args),
        Switch::Hourly => with_hourly(args),
        Switch::Man => with_man(args),
    }
}

/// What applying one flag did.
enum FlagAction {
    Next(bool),
    Stop(ParsedArgs),
}

fn set_top(args: Args, v: usize) -> (r: Args)
    ensures
        r@ == (ArgsModel { top: Some(v), ..args@ }),
{
    Args { top: Some(v), ..args }
}

fn set_min_freq(args: Args, v: usize) -> (r: Args)
    ensures
        r@ == (ArgsModel { min_freq: Some(v), ..args@ }),
{
    Args { min_freq: Some(v), ..args }
}

fn set_depth(args: Args, v: usize) -> (r: Args)
    ensures
        r@ == (ArgsModel { depth: Some(v), ..args@ }),
{
    Args { depth: Some(v), ..args }
}

fn set_ignore(args: Args, v: Vec<String>) -> (r: Args)
    ensures
        r@ == (ArgsModel { ignore: texts_view(v@), ..args@ }),
{
    Args { ignore: v, ..args }
}

fn set_shell(args: Args, v: Shell) -> (r: Args)
    ensures
        r@ == (ArgsModel { shell: Some(v), ..args@ }),
{
    Args { shell: Some(v), ..args }
}

fn set_grep(args: Args, v: String) -> (r: Args)
    ensures
        r@ == (ArgsModel { grep: Some(v@), ..args@ }),
{
    Args { grep: Some(v), ..args }
}

fn set_since(args: Args, v: String) -> (r: Args)
    ensures
        r@ == (ArgsModel { since: Some(v@), ..args@ }),
{
    Args { since: Some(v), ..args }
}

fn set_until(args: Args, v: String) -> (r: Args)
    ensures
        r@ == (ArgsModel { until: Some(v@), ..args@ }),
{
    Args { until: Some(v), ..args }
}

fn set_trend_bucket(args: Args, v: Bucket) -> (r: Args)
    ensures
        r@ == (ArgsModel { trend_bucket: Some(v), ..args@ }),
{
    Args { trend_bucket: Some(v), ..args }
}

fn set_output(args: Args, v: String) -> (r: Args)
    ensures
        r@ == (ArgsModel { output: Some(v@), ..args@ }),
{
    Args { output: Some(v), ..args }
}

fn set_completions(args: Args, v: Shell) -> (r: Args)
    ensures
        r@ == (ArgsModel { completions: Some(v), ..args@ }),
{
    Args { completions: Some(v), ..args }
}

fn add_stdin(args: Args) -> (r: Args)
    ensures
        r@ == (ArgsModel { paths: args@.paths.push("-"@), ..args@ }),
{
    let mut paths = args.paths;
    let ghost before = texts_view(paths@);
    paths.push("-".to_owned());
    assert(texts_view(paths@) =~= before.push("-"@));
    Args { paths, ..args }
}

fn add_paths(args: Args, v: Vec<String>) -> (r: Args)
    ensures
        r@ == (ArgsModel { paths: args@.paths + texts_view(v@), ..args@ }),
{
    let mut paths = args.paths;
    append_texts(&mut paths, v);
    Args { paths, ..args }
}

/// Applies a flag to the options.
fn apply_flag(args: Args, f: Flag) -> (r: (Args, FlagAction))
    ensures
        match r.1 {
            FlagAction::Next(used) => flag_effect(args@, f@) == FlagStep::Next(r.0@, used),
            FlagAction::Stop(o) => flag_effect(args@, f@) == FlagStep::Stop(o@),
        },
{
    match f {
        Flag::Stdin => (add_stdin(args), FlagAction::Next(false)),
        Flag::Switch(s) => (turned_on(args, s), FlagAction::Next(false)),
        Flag::Paths(v) => (add_paths(args, v), FlagAction::Next(true)),
        Flag::Top(v) => (set_top(args, v), FlagAction::Next(true)),
        Flag::Min(v) => (set_min_freq(args, v), FlagAction::Next(true)),
        Flag::Depth(v) => (set_depth(args, v), FlagAction::Next(true)),
        Flag::Ignore(v) => (set_ignore(args, v), FlagAction::Next(true)),
        Flag::Shell(v) => (set_shell(args, v), FlagAction::Next(true)),
        Flag::Grep(v) => (set_grep(args, v), FlagAction::Next(true)),
        Flag::Since(v) => (set_since(args, v), FlagAction::Next(true)),
        Flag::Until(v) => (set_until(args, v), FlagAction::Next(true)),
        Flag::TrendBucket(v) => (set_trend_bucket(args, v), FlagAction::Next(true)),
        Flag::Output(v) => (set_output(args, v), FlagAction::Next(true)),
        Flag::Completions(v) => (set_completions(args, v), FlagAction::Next(true)),
        Flag::Help => (args, FlagAction::Stop(ParsedArgs::Help)),
        Flag::Version => (args, FlagAction::Stop(ParsedArgs::Version)),
        Flag::Invalid(m) => (args, FlagAction::Stop(ParsedArgs::Invalid(m))),
    }
}

/// Reads the command-line arguments (the program's name left out), as the
/// `shellist` command does: flags in order, a flag's value in the argument
/// after it; `--help`, `--version` or the first bad flag ends the reading.
pub fn parse_args(argv: &[String]) -> (r: ParsedArgs)
    ensures
        r@ == parse_from(texts_view(argv@), 0, empty_model()),
{
    let ghost av = texts_view(argv@);
    let mut args = Args::empty();
    let mut i: usize = 0;
    while i < argv.len()
        invariant
            i <= argv.len(),
            av == texts_view(argv@),
            av.len() == argv@.len(),
            parse_from(av, i as int, args@) == parse_from(av, 0, empty_model()),
        decreases argv.len() - i,
    {
        let value: Option<&str> = if i + 1 < argv.len() {
            Some(argv[i + 1].as_str())
        } else {
            None
        };
        assert(argv@[i as int]@ == av[i as int]);
        assert(i + 1 < argv.len() ==> argv@[i + 1]@ == av[i + 1]);
        let f = read_flag(argv[i].as_str(), value);
        let (next, action) = apply_flag(args, f);
        args = next;
        match action {
            FlagAction::Next(used) => {
                if used && i + 1 < argv.len() {
                    i = i + 2;
                } else {
                    i = i + 1;
                }
            },
            FlagAction::Stop(o) => {
                return o;
            },
        }
    }
    ParsedArgs::Run(args)
}

} // verus!

