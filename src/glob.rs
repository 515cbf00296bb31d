use vstd::prelude::*;
use crate::error::names_view;

verus! {

#[verifier::external_type_specification]
#[verifier::external_body]
pub struct ExGlobSet(globset::GlobSet);

#[verifier::external_type_specification]
#[verifier::external_body]
pub struct ExGlobError(globset::Error);

/// Whether every one of the shell-style patterns compiles.
pub uninterp spec fn globs_compile(patterns: Seq<Seq<char>>) -> bool;

/// Whether some pattern matches `path`, with `*` never matching a `/`.
pub uninterp spec fn globs_match(patterns: Seq<Seq<char>>, path: Seq<char>) -> bool;

/// Relies on `globset::GlobBuilder::build` (with `literal_separator(true)`)
/// and `globset::GlobSetBuilder::build`: the set builds exactly when each
/// pattern compiles, and an empty list always builds.
#[verifier::external_body]
fn build_glob_set(globs: &Vec<String>) -> (r: Result<globset::GlobSet, globset::Error>)
    ensures
        r is Ok == globs_compile(names_view(globs@)),
        globs@.len() == 0 ==> r is Ok,
{
    let mut builder = globset::GlobSetBuilder::new();
    for s in globs.iter() {
        builder.add(globset::GlobBuilder::new(s).literal_separator(true).build()?);
    }
    builder.build()
}

/// A compiled set of glob patterns, kept together with the patterns it was
/// built from. Only `GlobMatcher::new` makes one, so `set` is always the
/// compiled form of `patterns`.
pub struct GlobMatcher {
    patterns: Vec<String>,
    set: globset::GlobSet,
}

impl GlobMatcher {
    pub closed spec fn patterns(&self) -> Seq<Seq<char>> {
        names_view(self.patterns@)
    }

    /// Compiles `globs`; fails exactly when some pattern does not compile.
    pub fn new(globs: &Vec<String>) -> (r: Result<GlobMatcher, crate::error::BuildError>)
        ensures
            r is Ok == globs_compile(names_view(globs@)),
            r matches Ok(m) ==> m.patterns() == names_view(globs@),
            r matches Err(e) ==> e@ == crate::error::Fault::BadGlob,
            globs@.len() == 0 ==> r is Ok,
    {
        match build_glob_set(globs) {
            Ok(set) => {
                let patterns = crate::vfs::copy_names(globs);
                Ok(GlobMatcher { patterns, set })
            },
            Err(_) => Err(crate::error::BuildError::BadGlob),
        }
    }

    /// Relies on `globset::GlobSet::is_match`: whether one of the patterns the
    /// set was built from matches `path`; an empty set matches nothing.
    #[verifier::external_body]
    pub(crate) fn is_match(&self, path: &String) -> (r: bool)
        ensures
            r == globs_match(self.patterns(), path@),
            self.patterns().len() == 0 ==> !r,
    {
        self.set.is_match(path.as_str())
    }
}

} // verus!
