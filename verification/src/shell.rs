//! Shell detection and per-shell history paths.
use vstd::prelude::*;
use crate::parsers::zsh_history_parser::{extended_range, zsh_extended};
use crate::text::{
    ascii_lower, chars_eq_str, chars_of, has_prefix, lines, push_str_chars, range_starts_with,
    split_lines, string_of, to_ascii_lower, trim, trim_chars, trim_range,
};

verus! {

/// Supported shells whose history formats shellist understands.
#[derive(Debug, Clone, Copy, PartialEq, Eq, Structural)]
pub enum Shell {
    Bash,
    Zsh,
    Fish,
}

/// The lowercase name of a shell.
pub open spec fn shell_name(s: Shell) -> Seq<char> {
    match s {
        Shell::Bash => "bash"@,
        Shell::Zsh => "zsh"@,
        Shell::Fish => "fish"@,
    }
}

/// The shell that a name denotes, ignoring surrounding whitespace and ASCII case.
pub open spec fn shell_of_name(name: Seq<char>) -> Option<Shell> {
    let n = ascii_lower(trim(name));
    if n == "bash"@ {
        Some(Shell::Bash)
    } else if n == "zsh"@ {
        Some(Shell::Zsh)
    } else if n == "fish"@ {
        Some(Shell::Fish)
    } else {
        None
    }
}

/// `base` joined with the relative path component `comp`, with one `/`
/// between them (none after an empty base or one that ends in `/`).
pub open spec fn path_join(base: Seq<char>, comp: Seq<char>) -> Seq<char> {
    if base.len() == 0 || base.last() == '/' {
        base + comp
    } else {
        base + seq!['/'] + comp
    }
}

/// The default history file of a shell, from the home directory and the value
/// of `XDG_DATA_HOME`; none without a home directory.
pub open spec fn history_path_of(shell: Shell, home: Option<Seq<char>>, xdg: Option<Seq<char>>) -> Option<
    Seq<char>,
> {
    match home {
        None => None,
        Some(h) => Some(
            match shell {
                Shell::Bash => path_join(h, ".bash_history"@),
                Shell::Zsh => path_join(h, ".zsh_history"@),
                Shell::Fish => match xdg {
                    Some(x) => path_join(path_join(x, "fish"@), "fish_history"@),
                    None => path_join(
                        path_join(path_join(path_join(h, ".local"@), "share"@), "fish"@),
                        "fish_history"@,
                    ),
                },
            },
        ),
    }
}

impl Shell {
    /// Parse a shell name (`bash`/`zsh`/`fish`, case-insensitive).
    pub fn from_name(name: &str) -> (r: Option<Self>)
        ensures
            r == shell_of_name(name@),
    {
        let cs = chars_of(name);
        let t = trim_chars(cs.as_slice());
        let n = to_ascii_lower(t.as_slice());
        if chars_eq_str(n.as_slice(), "bash") {
            Some(Shell::Bash)
        } else if chars_eq_str(n.as_slice(), "zsh") {
            Some(Shell::Zsh)
        } else if chars_eq_str(n.as_slice(), "fish") {
            Some(Shell::Fish)
        } else {
            None
        }
    }

    /// Lowercase name usable in output.
    pub fn as_str(self) -> (r: &'static str)
        ensures
            r@ == shell_name(self),
    {
        match self {
            Shell::Bash => "bash",
            Shell::Zsh => "zsh",
            Shell::Fish => "fish",
        }
    }

    /// Default history file location for this shell, given the values of
    /// `HOME` and `XDG_DATA_HOME`.
    ///
    /// - Bash: `~/.bash_history`
    /// - Zsh: `~/.zsh_history`
    /// - Fish: `$XDG_DATA_HOME/fish/fish_history` (default `~/.local/share/fish/fish_history`)
    pub fn default_history_path(self, home: Option<&str>, xdg_data_home: Option<&str>) -> (r: Option<String>)
        ensures
            r matches Some(p) ==> history_path_of(
                self,
                match home {
                    Some(h) => Some(h@),
                    None => None,
                },
                match xdg_data_home {
                    Some(x) => Some(x@),
                    None => None,
                },
            ) == Some(p@),
            r is None <==> home is None,
    {
        let h = match home {
            Some(h) => h,
            None => {
                return None;
            },
        };
        let mut p: Vec<char> = Vec::new();
        match self {
            Shell::Bash => {
                push_str_chars(&mut p, h);
                join_component(&mut p, ".bash_history");
            },
            Shell::Zsh => {
                push_str_chars(&mut p, h);
                join_component(&mut p, ".zsh_history");
            },
            Shell::Fish => {
                match xdg_data_home {
                    Some(x) => {
                        push_str_chars(&mut p, x);
                    },
                    None => {
                        push_str_chars(&mut p, h);
                        join_component(&mut p, ".local");
                        join_component(&mut p, "share");
                    },
                }
                join_component(&mut p, "fish");
                join_component(&mut p, "fish_history");
            },
        }
        Some(string_of(p.as_slice()))
    }
}

/// Appends a relative path component.
fn join_component(p: &mut Vec<char>, comp: &str)
    ensures
        final(p)@ == path_join(old(p)@, comp@),
{
    if p.len() > 0 && p[p.len() - 1] != '/' {
        p.push('/');
    }
    push_str_chars(p, comp);
}

/// Shell detection over the lines of a history text: the first of at most
/// `budget` non-blank (trimmed) lines that starts with `- cmd:` means fish,
/// one that reads as a zsh extended line means zsh; otherwise bash.
pub open spec fn detect_in(ls: Seq<Seq<char>>, budget: nat) -> Shell
    decreases ls.len(),
{
    if ls.len() == 0 || budget == 0 {
        Shell::Bash
    } else {
        let t = trim(ls[0]);
        if t.len() == 0 {
            detect_in(ls.drop_first(), budget)
        } else if has_prefix(t, "- cmd:"@) {
            Shell::Fish
        } else if zsh_extended(t) is Some {
            Shell::Zsh
        } else {
            detect_in(ls.drop_first(), (budget - 1) as nat)
        }
    }
}

/// The shell whose history format a text has, judged by its first ten
/// non-blank lines.
pub open spec fn detected_shell(input: Seq<char>) -> Shell {
    detect_in(lines(input), 10)
}

/// The lines that hold more than whitespace, trimmed, in order.
pub open spec fn nonblank_trimmed(ls: Seq<Seq<char>>) -> Seq<Seq<char>>
    decreases ls.len(),
{
    if ls.len() == 0 {
        Seq::empty()
    } else if trim(ls[0]).len() == 0 {
        nonblank_trimmed(ls.drop_first())
    } else {
        seq![trim(ls[0])] + nonblank_trimmed(ls.drop_first())
    }
}

/// At most the first `k` items.
pub open spec fn at_most(ls: Seq<Seq<char>>, k: nat) -> Seq<Seq<char>> {
    if k < ls.len() {
        ls.take(k as int)
    } else {
        ls
    }
}

/// The shell that the first marked line shows: fish for a line that starts
/// with `- cmd:`, zsh for a zsh extended line; bash where none is marked.
pub open spec fn first_marked(ls: Seq<Seq<char>>) -> Shell
    decreases ls.len(),
{
    if ls.len() == 0 {
        Shell::Bash
    } else if has_prefix(ls[0], "- cmd:"@) {
        Shell::Fish
    } else if zsh_extended(ls[0]) is Some {
        Shell::Zsh
    } else {
        first_marked(ls.drop_first())
    }
}

proof fn lemma_detect_in_marked(ls: Seq<Seq<char>>, budget: nat)
    ensures
        detect_in(ls, budget) == first_marked(at_most(nonblank_trimmed(ls), budget)),
    decreases ls.len(),
{
    let n = nonblank_trimmed(ls);
    if ls.len() == 0 {
    } else if budget == 0 {
        assert(at_most(n, budget).len() == 0);
    } else {
        let t = trim(ls[0]);
        let n1 = nonblank_trimmed(ls.drop_first());
        if t.len() == 0 {
            lemma_detect_in_marked(ls.drop_first(), budget);
        } else {
            lemma_detect_in_marked(ls.drop_first(), (budget - 1) as nat);
            let l = at_most(n, budget);
            assert(n == seq![t] + n1);
            assert(l[0] == t);
            assert(l.drop_first() =~= at_most(n1, (budget - 1) as nat));
        }
    }
}

/// Shell detection reads the first ten lines that hold more than whitespace,
/// trimmed: the first of them that starts with `- cmd:` means fish, the first
/// that is a zsh extended line means zsh, whichever comes first; with neither,
/// bash.
pub proof fn lemma_detect_shell_rule(input: Seq<char>)
    ensures
        detected_shell(input) == first_marked(at_most(nonblank_trimmed(lines(input)), 10)),
{
    lemma_detect_in_marked(lines(input), 10);
}

/// Detect the shell format from history file contents.
///
/// - Lines like `: 1577836800:0;cmd` → zsh extended history.
/// - Lines like `- cmd: ...` → fish history.
/// - Anything else → bash.
pub fn detect_shell(input: &str) -> (r: Shell)
    ensures
        r == detected_shell(input@),
{
    let cs = chars_of(input);
    let ls = split_lines(cs.as_slice());
    let ghost gl = lines(input@);
    let mut budget: usize = 10;
    let mut i: usize = 0;
    assert(gl.skip(0) == gl);
    while i < ls.len() && budget > 0
        invariant
            i <= ls@.len() == gl.len(),
            gl == lines(input@),
            forall|j: int| 0 <= j < ls@.len() ==> #[trigger] ls@[j]@ == gl[j],
            detected_shell(input@) == detect_in(gl.skip(i as int), budget as nat),
        decreases ls@.len() - i,
    {
        let line = &ls[i];
        let ghost rest = gl.skip(i as int);
        assert(rest[0] == line@);
        assert(rest.drop_first() == gl.skip(i + 1));
        let (a, b) = trim_range(line.as_slice(), 0, line.len());
        assert(line@.subrange(0, line@.len() as int) == line@);
        if a < b {
            if range_starts_with(line.as_slice(), a, b, "- cmd:") {
                return Shell::Fish;
            }
            if extended_range(line.as_slice(), a, b).is_some() {
                return Shell::Zsh;
            }
            budget = budget - 1;
        }
        i = i + 1;
    }
    proof {
        if i == ls@.len() {
            assert(gl.skip(i as int).len() == 0);
        }
    }
    Shell::Bash
}

/// Whether a line reads as a zsh extended history line.
pub fn looks_like_zsh_extended(line: &str) -> (b: bool)
    ensures
        b == zsh_extended(line@) is Some,
{
    let cs = chars_of(line);
    assert(cs@.subrange(0, cs@.len() as int) == cs@);
    extended_range(cs.as_slice(), 0, cs.len()).is_some()
}

} // verus!
