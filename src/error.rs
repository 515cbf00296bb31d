use vstd::prelude::*;


verus! {

/// What went wrong while transforming a tree or expanding placeholders.
#[derive(Debug, PartialEq, Eq)]
pub enum BuildError {
    /// A glob pattern could not be compiled.
    BadGlob,
    /// A file path has no file name.
    NoFileName,
    /// Text that must be UTF-8 is not.
    NotUtf8,
    /// A front-matter block opens with `---` and never closes.
    UnterminatedMetadata,
    /// Front matter is not a YAML mapping.
    BadMetadata,
    /// An inline argument list of an expansion is malformed.
    BadParameters,
    /// No snippet file with this name could be found.
    SnippetNotFound { name: Vec<u8> },
    /// A reference names a key or index that holds nothing.
    MissingKey { segment: Vec<u8>, chain: Vec<u8> },
    /// A reference resolves to a sequence or a mapping.
    NotScalar { chain: Vec<u8>, is_sequence: bool },
    /// No template matches this content file.
    NoTemplate { file: Vec<String> },
    /// A top-level folder that the build needs is absent.
    MissingFolder { folder: String },
    /// A pre-run command's output met its error policy.
    PreRun { command: String, output: Vec<u8> },
    /// The renderer wrote to standard error.
    Render { file: Vec<String>, stderr: Vec<u8> },
    /// A command could not be run; holds the system's message.
    Spawn { command: String, message: String },
    /// A file that a step applies to has no result from the step's command.
    MissingOutput { file: Vec<String> },
}

/// Mathematical view of an [`BuildError`].
pub enum Fault {
    BadGlob,
    NoFileName,
    NotUtf8,
    UnterminatedMetadata,
    BadMetadata,
    BadParameters,
    SnippetNotFound { name: Seq<u8> },
    MissingKey { segment: Seq<u8>, chain: Seq<u8> },
    NotScalar { chain: Seq<u8>, is_sequence: bool },
    NoTemplate { file: Seq<Seq<char>> },
    MissingFolder { folder: Seq<char> },
    PreRun { command: Seq<char>, output: Seq<u8> },
    Render { file: Seq<Seq<char>>, stderr: Seq<u8> },
    Spawn { command: Seq<char>, message: Seq<char> },
    MissingOutput { file: Seq<Seq<char>> },
}

pub open spec fn names_view(p: Seq<String>) -> Seq<Seq<char>> {
    p.map_values(|s: String| s@)
}

impl View for BuildError {
    type V = Fault;

    open spec fn view(&self) -> Fault {
        match self {
            BuildError::BadGlob => Fault::BadGlob,
            BuildError::NoFileName => Fault::NoFileName,
            BuildError::NotUtf8 => Fault::NotUtf8,
            BuildError::UnterminatedMetadata => Fault::UnterminatedMetadata,
            BuildError::BadMetadata => Fault::BadMetadata,
            BuildError::BadParameters => Fault::BadParameters,
            BuildError::SnippetNotFound { name } => Fault::SnippetNotFound { name: name@ },
            BuildError::MissingKey { segment, chain } => Fault::MissingKey {
                segment: segment@,
                chain: chain@,
            },
            BuildError::NotScalar { chain, is_sequence } => Fault::NotScalar { chain: chain@, is_sequence: *is_sequence },
            BuildError::NoTemplate { file } => Fault::NoTemplate { file: names_view(file@) },
            BuildError::MissingFolder { folder } => Fault::MissingFolder { folder: folder@ },
            BuildError::PreRun { command, output } => Fault::PreRun {
                command: command@,
                output: output@,
            },
            BuildError::Render { file, stderr } => Fault::Render {
                file: names_view(file@),
                stderr: stderr@,
            },
            BuildError::Spawn { command, message } => Fault::Spawn {
                command: command@,
                message: message@,
            },
            BuildError::MissingOutput { file } => Fault::MissingOutput { file: names_view(file@) },
        }
    }
}

/// The view of a list of errors.
pub open spec fn faults(e: Seq<BuildError>) -> Seq<Fault> {
    e.map_values(|x: BuildError| x@)
}

} // verus!
