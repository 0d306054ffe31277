//! The default history file of each shell, from the home directory.
use vstd::prelude::*;
use crate::shell::{Shell, history_path_of};

verus! {

/// The text of an optional string slice.
pub open spec fn opt_view(o: Option<&str>) -> Option<Seq<char>> {
    match o {
        Some(s) => Some(s@),
        None => None,
    }
}

/// Resolve the default history file path (`~/.bash_history`), given the value
/// of `HOME`; none without it.
pub fn default_history_path(home: Option<&str>) -> (r: Option<String>)
    ensures
        match r {
            Some(p) => history_path_of(Shell::Bash, opt_view(home), None) == Some(p@),
            None => home is None,
        },
{
    Shell::Bash.default_history_path(home, None)
}

/// Resolve the default history path for a given shell, given the values of
/// `HOME` and `XDG_DATA_HOME`; none without a home directory.
pub fn default_history_path_for(shell: Shell, home: Option<&str>, xdg_data_home: Option<&str>) -> (r:
    Option<String>)
    ensures
        match r {
            Some(p) => history_path_of(shell, opt_view(home), opt_view(xdg_data_home)) == Some(p@),
            None => home is None,
        },
{
    shell.default_history_path(home, xdg_data_home)
}

} // verus!
