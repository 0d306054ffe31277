//! Shell completion script generation (bash, zsh, fish).
//!
//! The flag list must be updated whenever new CLI flags are added.
use vstd::prelude::*;
use crate::shell::Shell;
use crate::text::{chars_eq_str, chars_of, push_chars, push_str_chars, string_of};

verus! {

/// All flags the CLI accepts, for embedding in completion scripts.
pub open spec fn flag_list() -> Seq<Seq<char>> {
    seq![
        "--path"@,
        "--shell"@,
        "--top"@,
        "--ignore"@,
        "--no-default-ignore"@,
        "--no-strip"@,
        "--collapse"@,
        "--min"@,
        "--grep"@,
        "--depth"@,
        "--since"@,
        "--until"@,
        "--asc"@,
        "--bars"@,
        "--percent"@,
        "--json"@,
        "--csv"@,
        "--stats"@,
        "--trend"@,
        "--trend-bucket"@,
        "--hourly"@,
        "--last-used"@,
        "--output"@,
        "--completions"@,
        "--man"@,
        "--help"@,
        "--version"@
    ]
}

/// The flags, in order.
fn flags() -> (v: Vec<&'static str>)
    ensures
        v@.map_values(|s: &str| s@) == flag_list(),
{
    let mut v: Vec<&'static str> = Vec::new();
    v.push("--path");
    v.push("--shell");
    v.push("--top");
    v.push("--ignore");
    v.push("--no-default-ignore");
    v.push("--no-strip");
    v.push("--collapse");
    v.push("--min");
    v.push("--grep");
    v.push("--depth");
    v.push("--since");
    v.push("--until");
    v.push("--asc");
    v.push("--bars");
    v.push("--percent");
    v.push("--json");
    v.push("--csv");
    v.push("--stats");
    v.push("--trend");
    v.push("--trend-bucket");
    v.push("--hourly");
    v.push("--last-used");
    v.push("--output");
    v.push("--completions");
    v.push("--man");
    v.push("--help");
    v.push("--version");
    assert(v@.map_values(|s: &str| s@) =~= flag_list());
    v
}

/// The texts joined with single spaces.
pub open spec fn space_joined(ts: Seq<Seq<char>>) -> Seq<char>
    decreases ts.len(),
{
    if ts.len() == 0 {
        Seq::empty()
    } else if ts.len() == 1 {
        ts[0]
    } else {
        space_joined(ts.drop_last()) + seq![' '] + ts.last()
    }
}

/// All flags, separated by spaces.
fn opts_line() -> (r: Vec<char>)
    ensures
        r@ == space_joined(flag_list()),
{
    let fs = flags();
    let ghost fl = flag_list();
    let mut out: Vec<char> = Vec::new();
    for i in 0..fs.len()
        invariant
            fs@.map_values(|s: &str| s@) == fl,
            fl == flag_list(),
            out@ == space_joined(fl.take(i as int)),
    {
        assert(fl.take(i + 1).drop_last() == fl.take(i as int));
        assert(fl[i as int] == fs@[i as int]@);
        if i > 0 {
            out.push(' ');
        } else {
            assert(fl.take(1)[0] == fl[0]);
        }
        push_str_chars(&mut out, fs[i]);
    }
    assert(fl.take(fs.len() as int) == fl);
    out
}

pub const BASH_HEAD: &'static str = r#"_shellist() {
    local cur prev opts
    cur="${COMP_WORDS[COMP_CWORD]}"
    prev="${COMP_WORDS[COMP_CWORD-1]}"
    opts=""#;

pub const BASH_TAIL: &'static str = r#""

    case "$prev" in
        --shell|--completions)
            COMPREPLY=( $(compgen -W "bash zsh fish" -- "$cur") )
            return 0 ;;
        --trend-bucket)
            COMPREPLY=( $(compgen -W "day week month" -- "$cur") )
            return 0 ;;
        --path|--output)
            COMPREPLY=( $(compgen -f -- "$cur") )
            return 0 ;;
        --top|--min|--depth|--ignore|--grep|--since|--until)
            return 0 ;;
    esac

    if [[ "$cur" == -* ]]; then
        COMPREPLY=( $(compgen -W "$opts" -- "$cur") )
        return 0
    fi
}
complete -F _shellist shellist
"#;

pub const ZSH_SCRIPT: &'static str = r#"#compdef shellist

_shellist() {
    local -a opts
    opts=(
        '--top[Show top N commands]:N:'
        '--ignore[Exclude commands (comma-separated)]:list:'
        '--no-default-ignore[Do not filter bash internals (set, shopt)]'
        '--no-strip[Do not strip leading sudo / VAR=val prefixes]'
        '--collapse[Merge adjacent identical lines before counting]'
        '--min[Only commands with count >= N]:N:'
        '--path[History file path]:file:_files'
        '--shell[Force shell parser]:shell:(bash zsh fish)'
        '--depth[Subcommand depth (tokens)]:N:'
        '--json[Output as JSON]'
        '--csv[Output as CSV]'
        '--bars[Show ASCII bar chart]'
        '--percent[Show percentage column]'
        '--stats[Show summary statistics]'
        '--grep[Regex filter on command names]:pattern:'
        '--asc[Sort ascending]'
        '--since[Start date YYYY-MM-DD or Nd/Nw/Nm]:date:'
        '--until[End date YYYY-MM-DD or Nd/Nw/Nm]:date:'
        '--trend[Show usage over time]'
        '--trend-bucket[Trend bucket]:bucket:(day week month)'
        '--hourly[Show hour-of-day distribution]'
        '--last-used[Add last-run date column]'
        '--output[Write to file]:file:_files'
        '--completions[Print completion script]:shell:(bash zsh fish)'
        '--man[Print man page]'
        '--help[Print help]'
        '--version[Print version]'
    )
    _arguments -s $opts
}

_shellist "$@"
"#;

/// The bash completion script: a `_shellist` function offering every flag.
pub open spec fn bash_script() -> Seq<char> {
    BASH_HEAD@ + space_joined(flag_list()) + BASH_TAIL@
}

/// The zsh completion script.
pub open spec fn zsh_script() -> Seq<char> {
    ZSH_SCRIPT@
}

/// The description of a flag in completion scripts.
pub open spec fn flag_description(flag: Seq<char>) -> Seq<char> {
    if flag == "--top"@ {
        "Show top N commands"@
    } else if flag == "--ignore"@ {
        "Exclude commands (comma-separated)"@
    } else if flag == "--no-default-ignore"@ {
        "Do not filter bash internals (set, shopt)"@
    } else if flag == "--no-strip"@ {
        "Do not strip leading sudo / VAR=val prefixes"@
    } else if flag == "--collapse"@ {
        "Merge adjacent identical lines before counting"@
    } else if flag == "--min"@ {
        "Only commands with count >= N"@
    } else if flag == "--path"@ {
        "History file path"@
    } else if flag == "--shell"@ {
        "Force shell parser"@
    } else if flag == "--depth"@ {
        "Subcommand depth (tokens)"@
    } else if flag == "--json"@ {
        "Output as JSON"@
    } else if flag == "--csv"@ {
        "Output as CSV"@
    } else if flag == "--bars"@ {
        "Show ASCII bar chart"@
    } else if flag == "--percent"@ {
        "Show percentage column"@
    } else if flag == "--stats"@ {
        "Show summary statistics"@
    } else if flag == "--grep"@ {
        "Regex filter on command names"@
    } else if flag == "--asc"@ {
        "Sort ascending"@
    } else if flag == "--since"@ {
        "Start date YYYY-MM-DD or Nd/Nw/Nm"@
    } else if flag == "--until"@ {
        "End date YYYY-MM-DD or Nd/Nw/Nm"@
    } else if flag == "--trend"@ {
        "Show usage over time"@
    } else if flag == "--trend-bucket"@ {
        "Trend bucket"@
    } else if flag == "--hourly"@ {
        "Show hour-of-day distribution"@
    } else if flag == "--last-used"@ {
        "Add last-run date column"@
    } else if flag == "--output"@ {
        "Write to file"@
    } else if flag == "--completions"@ {
        "Print completion script"@
    } else if flag == "--man"@ {
        "Print man page"@
    } else if flag == "--help"@ {
        "Print help"@
    } else if flag == "--version"@ {
        "Print version"@
    } else {
        "option"@
    }
}

/// The leading `-` characters dropped.
pub open spec fn without_dashes(s: Seq<char>) -> Seq<char>
    decreases s.len(),
{
    if s.len() > 0 && s[0] == '-' {
        without_dashes(s.drop_first())
    } else {
        s
    }
}

/// What a fish completion line adds for a flag that takes a value.
pub open spec fn fish_extra(flag: Seq<char>) -> Seq<char> {
    if flag == "--path"@ || flag == "--output"@ {
        " -r"@
    } else if flag == "--shell"@ || flag == "--completions"@ {
        " -x -a \"bash zsh fish\""@
    } else if flag == "--trend-bucket"@ {
        " -x -a \"day week month\""@
    } else {
        Seq::empty()
    }
}

/// The fish completion line of a flag.
pub open spec fn fish_line(flag: Seq<char>) -> Seq<char> {
    "complete -c shellist -l "@ + without_dashes(flag) + " -d \""@ + flag_description(flag) + seq!['"']
        + fish_extra(flag) + seq!['\n']
}

/// The fish completion lines of the flags.
pub open spec fn fish_lines(fs: Seq<Seq<char>>) -> Seq<char>
    decreases fs.len(),
{
    if fs.len() == 0 {
        Seq::empty()
    } else {
        fish_lines(fs.drop_last()) + fish_line(fs.last())
    }
}

/// The fish completion script: one `complete` line per flag.
pub open spec fn fish_script() -> Seq<char> {
    fish_lines(flag_list())
}

/// The completion script of a shell.
pub open spec fn completion_script(shell: Shell) -> Seq<char> {
    match shell {
        Shell::Bash => bash_script(),
        Shell::Zsh => zsh_script(),
        Shell::Fish => fish_script(),
    }
}

/// Generate a completion script for the given shell.
pub fn completions(shell: Shell) -> (r: String)
    ensures
        r@ == completion_script(shell),
{
    match shell {
        Shell::Bash => bash(),
        Shell::Zsh => zsh(),
        Shell::Fish => fish(),
    }
}

fn bash() -> (r: String)
    ensures
        r@ == bash_script(),
{
    let mut out: Vec<char> = Vec::new();
    push_str_chars(&mut out, BASH_HEAD);
    let opts = opts_line();
    push_chars(&mut out, opts.as_slice());
    push_str_chars(&mut out, BASH_TAIL);
    assert(out@ == Seq::<char>::empty() + BASH_HEAD@ + space_joined(flag_list()) + BASH_TAIL@);
    string_of(out.as_slice())
}

fn zsh() -> (r: String)
    ensures
        r@ == zsh_script(),
{
    ZSH_SCRIPT.to_owned()
}

fn fish() -> (r: String)
    ensures
        r@ == fish_script(),
{
    let fs = flags();
    let ghost fl = flag_list();
    let mut out: Vec<char> = Vec::new();
    for i in 0..fs.len()
        invariant
            fs@.map_values(|s: &str| s@) == fl,
            fl == flag_list(),
            out@ == fish_lines(fl.take(i as int)),
    {
        assert(fl.take(i + 1).drop_last() == fl.take(i as int));
        assert(fl[i as int] == fs@[i as int]@);
        push_fish_line(&mut out, fs[i]);
    }
    assert(fl.take(fs.len() as int) == fl);
    string_of(out.as_slice())
}

fn push_fish_line(out: &mut Vec<char>, flag: &str)
    ensures
        final(out)@ == old(out)@ + fish_line(flag@),
{
    let f = chars_of(flag);
    push_str_chars(out, "complete -c shellist -l ");
    let mut k: usize = 0;
    assert(f@.skip(0) == f@);
    while k < f.len() && f[k] == '-'
        invariant
            k <= f@.len(),
            f@ == flag@,
            without_dashes(flag@) == without_dashes(f@.skip(k as int)),
        decreases f@.len() - k,
    {
        assert(f@.skip(k as int).drop_first() == f@.skip(k + 1));
        k = k + 1;
    }
    assert(f@.skip(0) == f@);
    let ghost rest = f@.skip(k as int);
    assert(without_dashes(rest) == rest) by {
        if rest.len() > 0 {
            assert(rest[0] == f@[k as int]);
        }
    }
    assert(rest == f@.subrange(k as int, f@.len() as int));
    let tail = crate::text::copy_range(f.as_slice(), k, f.len());
    push_chars(out, tail.as_slice());
    push_str_chars(out, " -d \"");
    push_str_chars(out, description(flag));
    out.push('"');
    push_str_chars(out, fish_extra_text(f.as_slice()));
    out.push('\n');
}

fn fish_extra_text(f: &[char]) -> (r: &'static str)
    ensures
        r@ == fish_extra(f@),
{
    if chars_eq_str(f, "--path") || chars_eq_str(f, "--output") {
        " -r"
    } else if chars_eq_str(f, "--shell") || chars_eq_str(f, "--completions") {
        " -x -a \"bash zsh fish\""
    } else if chars_eq_str(f, "--trend-bucket") {
        " -x -a \"day week month\""
    } else {
        proof {
            reveal_strlit("");
        }
        ""
    }
}

/// The description of a flag.
pub fn description(flag: &str) -> (r: &'static str)
    ensures
        r@ == flag_description(flag@),
{
    let f = chars_of(flag);
    if chars_eq_str(f.as_slice(), "--top") {
        "Show top N commands"
    } else if chars_eq_str(f.as_slice(), "--ignore") {
        "Exclude commands (comma-separated)"
    } else if chars_eq_str(f.as_slice(), "--no-default-ignore") {
        "Do not filter bash internals (set, shopt)"
    } else if chars_eq_str(f.as_slice(), "--no-strip") {
        "Do not strip leading sudo / VAR=val prefixes"
    } else if chars_eq_str(f.as_slice(), "--collapse") {
        "Merge adjacent identical lines before counting"
    } else if chars_eq_str(f.as_slice(), "--min") {
        "Only commands with count >= N"
    } else if chars_eq_str(f.as_slice(), "--path") {
        "History file path"
    } else if chars_eq_str(f.as_slice(), "--shell") {
        "Force shell parser"
    } else if chars_eq_str(f.as_slice(), "--depth") {
        "Subcommand depth (tokens)"
    } else if chars_eq_str(f.as_slice(), "--json") {
        "Output as JSON"
    } else if chars_eq_str(f.as_slice(), "--csv") {
        "Output as CSV"
    } else if chars_eq_str(f.as_slice(), "--bars") {
        "Show ASCII bar chart"
    } else if chars_eq_str(f.as_slice(), "--percent") {
        "Show percentage column"
    } else if chars_eq_str(f.as_slice(), "--stats") {
        "Show summary statistics"
    } else if chars_eq_str(f.as_slice(), "--grep") {
        "Regex filter on command names"
    } else if chars_eq_str(f.as_slice(), "--asc") {
        "Sort ascending"
    } else if chars_eq_str(f.as_slice(), "--since") {
        "Start date YYYY-MM-DD or Nd/Nw/Nm"
    } else if chars_eq_str(f.as_slice(), "--until") {
        "End date YYYY-MM-DD or Nd/Nw/Nm"
    } else if chars_eq_str(f.as_slice(), "--trend") {
        "Show usage over time"
    } else if chars_eq_str(f.as_slice(), "--trend-bucket") {
        "Trend bucket"
    } else if chars_eq_str(f.as_slice(), "--hourly") {
        "Show hour-of-day distribution"
    } else if chars_eq_str(f.as_slice(), "--last-used") {
        "Add last-run date column"
    } else if chars_eq_str(f.as_slice(), "--output") {
        "Write to file"
    } else if chars_eq_str(f.as_slice(), "--completions") {
        "Print completion script"
    } else if chars_eq_str(f.as_slice(), "--man") {
        "Print man page"
    } else if chars_eq_str(f.as_slice(), "--help") {
        "Print help"
    } else if chars_eq_str(f.as_slice(), "--version") {
        "Print version"
    } else {
        "option"
    }
}

} // verus!
