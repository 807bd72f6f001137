//! The ways a request to the report helper can be refused.

use vstd::prelude::*;

verus! {

/// What went wrong. The text that names the offending argument, where there is
/// one, travels in [`CliError::detail`].
#[derive(Clone, Copy, Debug, PartialEq, Eq, Structural)]
pub enum ErrorKind {
    /// A report or template name is not a valid report name.
    InvalidReportName,
    /// No embedded template has the requested name (detail: the name).
    UnknownTemplate,
    /// A `.tex` template file is not UTF-8 (detail: its path).
    TemplateNotUtf8,
    /// `--template` was given twice to `new`.
    DuplicateTemplateOption,
    /// `--template` was the last argument of `new`.
    MissingTemplateName,
    /// An argument of `new` starts with `-` and is no known option (detail: the argument).
    UnknownOption,
    /// `new` did not get one or two positional arguments.
    NewUsage,
    /// `--root` was not followed by a path and a command.
    RootNeedsPathAndCommand,
    /// A command, name or title is not valid Unicode.
    NotUnicode,
    /// The arguments form no known command.
    InvalidArguments,
    /// `--all` was combined with directory arguments.
    AllWithPaths,
    /// A build argument starts with `-` and is no known option (detail: the argument).
    UnknownBuildOption,
    /// A build directory argument is empty.
    EmptyPath,
    /// `--` was given with no directory after it.
    NothingAfterSeparator,
    /// A catalog path is not portable, or differs from a sibling only in
    /// letter case (detail: the path).
    NonPortablePath,
    /// A template folder holds something that is neither a file nor a folder,
    /// such as a symbolic link (detail: its path in the catalog).
    UnsupportedTemplateFile,
    /// The catalog holds, beside template folders and files, something that is
    /// neither (detail: its name).
    UnsupportedTemplateEntry,
    /// A template's name is not a valid report name (detail: the name).
    InvalidTemplateName,
    /// A template has no `main.tex` (detail: the template's name).
    MissingMainTex,
    /// The catalog has no `default` template.
    MissingDefault,
}

/// A refused request: its kind and the argument it concerns (empty where none).
#[derive(Debug)]
pub struct CliError {
    pub kind: ErrorKind,
    pub detail: String,
}

impl View for CliError {
    type V = (ErrorKind, Seq<char>);

    open spec fn view(&self) -> (ErrorKind, Seq<char>) {
        (self.kind, self.detail@)
    }
}

impl CliError {
    /// An error of the given kind that names no argument.
    pub fn new(kind: ErrorKind) -> (e: CliError)
        ensures
            e@ == (kind, Seq::<char>::empty()),
    {
        CliError { kind, detail: String::new() }
    }

    /// An error of the given kind about the argument `detail`.
    pub fn about(kind: ErrorKind, detail: &str) -> (e: CliError)
        ensures
            e@ == (kind, detail@),
    {
        CliError { kind, detail: String::from_str(detail) }
    }
}

} // verus!
