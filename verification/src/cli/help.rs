//! The help text and the version line.
use vstd::prelude::*;
use crate::man::VERSION;
use crate::text::{push_str_chars, string_of};

verus! {

/// The help text after the version, up to the default ignore list.
pub const HELP_MIDDLE: &'static str = r#" — shell history analysis

USAGE:
    shellist [OPTIONS]

INPUT:
    --path PATH[,PATH..]  Read history from one or more files (comma-separated,
                           repeatable; default: per-shell file). Each file's
                           format is detected separately, so zsh + fish merge.
    --shell bash|zsh|fish  Force a parser (default: auto-detect)
    -                    Read history from stdin (or pipe in)

FILTERING:
    --top N              Show only the top N commands
    --ignore X,Y         Exclude commands (comma-separated)
    --no-default-ignore  Don't filter bash internals ("#;

/// The help text after the default ignore list.
pub const HELP_TAIL: &'static str = r#")
    --min N              Only commands used at least N times
    --grep PATTERN       Keep commands matching a regex
    --depth N            Treat first N tokens as the command key (default 1)
    --no-strip           Don't strip leading sudo / VAR=val prefixes
    --collapse           Merge adjacent identical lines before counting
    --since DATE         Only on/after DATE (YYYY-MM-DD or Nd/Nw/Nm, needs timestamps)
    --until DATE         Only on/before DATE (same formats, needs timestamps)
    --asc                Sort ascending

OUTPUT:
    --bars               Add an ASCII bar chart column
    --percent            Add a percentage column
    --last-used          Add a last-run date column (table only, needs timestamps)
    --json               Output as JSON
    --csv                Output as CSV
    --stats              Print summary statistics
    --trend              Usage bucketed over time, UTC-based (needs timestamps)
    --trend-bucket day|week|month|daily|weekly|monthly  Bucket for --trend (default: day)
    --hourly             Hour-of-day distribution, UTC-based (needs timestamps)
    --output FILE        Write output to FILE instead of stdout

INTEGRATION:
    --completions bash|zsh|fish  Print a completion script
    --man                Print the man page
    --help               Print this help
    --version            Print version and exit
"#;


/// The commands left out unless `--no-default-ignore` is given: bash
/// built-ins that shell init scripts often leave in `.bash_history`.
pub open spec fn default_ignore() -> Seq<Seq<char>> {
    seq!["set"@, "shopt"@]
}

/// The default ignore list.
pub fn default_ignore_names() -> (r: Vec<String>)
    ensures
        r@.map_values(|s: String| s@) == default_ignore(),
{
    let mut r: Vec<String> = Vec::new();
    r.push("set".to_owned());
    r.push("shopt".to_owned());
    assert(r@.map_values(|s: String| s@) =~= default_ignore());
    r
}

/// The help text (`--help`).
pub open spec fn help_text() -> Seq<char> {
    "shellist "@ + VERSION@ + HELP_MIDDLE@ + "set, shopt"@ + HELP_TAIL@
}

/// The help text, naming the version and the default ignore list.
pub fn help() -> (r: String)
    ensures
        r@ == help_text(),
{
    let mut out: Vec<char> = Vec::new();
    push_str_chars(&mut out, "shellist ");
    push_str_chars(&mut out, VERSION);
    push_str_chars(&mut out, HELP_MIDDLE);
    push_str_chars(&mut out, "set, shopt");
    push_str_chars(&mut out, HELP_TAIL);
    assert(out@ == Seq::<char>::empty() + "shellist "@ + VERSION@ + HELP_MIDDLE@ + "set, shopt"@ + HELP_TAIL@);
    string_of(out.as_slice())
}

/// The version line (`--version`).
pub fn version_line() -> (r: String)
    ensures
        r@ == "shellist "@ + VERSION@ + "\n"@,
{
    let mut out: Vec<char> = Vec::new();
    push_str_chars(&mut out, "shellist ");
    push_str_chars(&mut out, VERSION);
    push_str_chars(&mut out, "\n");
    assert(out@ == Seq::<char>::empty() + "shellist "@ + VERSION@ + "\n"@);
    string_of(out.as_slice())
}

} // verus!
