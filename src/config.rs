use vstd::prelude::*;

verus! {

/// The build's configuration.
pub struct Config {
    /// Files left out of the build.
    pub ignore: Vec<String>,
    /// Files copied to the output as they are.
    pub passthrough: Vec<String>,
    /// Commands run over matching files before rendering, in order.
    pub pre_run: Vec<PreRun>,
    /// Renderer filters and the files they apply to.
    pub filters: Vec<Filter>,
    /// Arguments added to every renderer call.
    pub extra_args: Vec<String>,
    /// The template name tried when no template matches a file's own name.
    pub default_template: String,
}

/// A command run over every file that `files` matches.
pub struct PreRun {
    pub command: String,
    pub files: Vec<String>,
    /// `none`, `stdout`, `stderr` or `status`.
    pub error_on: String,
    /// Whether the command's output replaces the file's contents.
    pub replace: bool,
}

/// A renderer filter and the files it applies to.
pub struct Filter {
    pub path: String,
    pub files: Vec<String>,
}

/// What makes a pre-run command fail the build.
#[derive(PartialEq, Eq, Structural, Clone, Copy, Debug)]
pub enum ErrorOn {
    Nothing,
    Stdout,
    Stderr,
    Status,
}

/// The policy that an `error_on` setting names; anything else checks nothing.
pub open spec fn policy(s: Seq<char>) -> ErrorOn {
    if s == seq!['s', 't', 'd', 'o', 'u', 't'] {
        ErrorOn::Stdout
    } else if s == seq!['s', 't', 'd', 'e', 'r', 'r'] {
        ErrorOn::Stderr
    } else if s == seq!['s', 't', 'a', 't', 'u', 's'] {
        ErrorOn::Status
    } else {
        ErrorOn::Nothing
    }
}

/// Reads an `error_on` setting.
pub fn policy_of(s: &String) -> (r: ErrorOn)
    ensures
        r == policy(s@),
{
    proof {
        reveal_strlit("stdout");
        reveal_strlit("stderr");
        reveal_strlit("status");
        assert("stdout"@ =~= seq!['s', 't', 'd', 'o', 'u', 't']);
        assert("stderr"@ =~= seq!['s', 't', 'd', 'e', 'r', 'r']);
        assert("status"@ =~= seq!['s', 't', 'a', 't', 'u', 's']);
    }
    if *s == String::from_str("stdout") {
        ErrorOn::Stdout
    } else if *s == String::from_str("stderr") {
        ErrorOn::Stderr
    } else if *s == String::from_str("status") {
        ErrorOn::Status
    } else {
        ErrorOn::Nothing
    }
}

/// The `error_on` setting of a step that names none.
pub fn def_error_on() -> (r: String)
    ensures
        r@ == seq!['n', 'o', 'n', 'e'],
        policy(r@) == ErrorOn::Nothing,
{
    proof {
        reveal_strlit("none");
        assert("none"@ =~= seq!['n', 'o', 'n', 'e']);
    }
    String::from_str("none")
}

/// The `replace` setting of a step that names none.
pub fn def_replace() -> (r: bool)
    ensures
        r,
{
    true
}

} // verus!
