//! The closed set of failures that the resolver reports.

use vstd::prelude::*;

verus! {

/// A schema violation in a project's `build` section.
#[derive(Clone, Debug, PartialEq, Eq)]
pub enum ConfigError {
    /// An input file whose extension is neither `hc` nor `wasm`.
    InvalidInputFile { file: String },
    /// The output file name is empty.
    MissingOutputFile,
    /// The output file does not end in `.wasm`.
    InvalidOutputFile { file: String },
    /// The input file list is empty.
    NoInputFiles,
    /// The documentation file does not end in `.md`.
    InvalidDocFile { file: String },
}

/// A `ConfigError` with its file names as character sequences.
pub enum ConfigErrorView {
    InvalidInputFile { file: Seq<char> },
    MissingOutputFile,
    InvalidOutputFile { file: Seq<char> },
    NoInputFiles,
    InvalidDocFile { file: Seq<char> },
}

impl View for ConfigError {
    type V = ConfigErrorView;

    open spec fn view(&self) -> ConfigErrorView {
        match self {
            ConfigError::InvalidInputFile { file } => ConfigErrorView::InvalidInputFile {
                file: file@,
            },
            ConfigError::MissingOutputFile => ConfigErrorView::MissingOutputFile,
            ConfigError::InvalidOutputFile { file } => ConfigErrorView::InvalidOutputFile {
                file: file@,
            },
            ConfigError::NoInputFiles => ConfigErrorView::NoInputFiles,
            ConfigError::InvalidDocFile { file } => ConfigErrorView::InvalidDocFile {
                file: file@,
            },
        }
    }
}

/// A field of a dependency declaration.
#[derive(Clone, Copy, Debug, PartialEq, Eq, Structural)]
pub enum DepField {
    Name,
    Version,
    Source,
}

/// Every failure of the resolver. Each one ends the command that met it.
#[derive(Clone, Debug, PartialEq, Eq)]
pub enum PdmError {
    /// A configuration file could not be read or parsed.
    ConfigParse { message: String },
    /// A configuration broke the schema of its `build` section.
    ConfigValidation(ConfigError),
    /// A dependency declaration lacks a field, or holds a non-string there.
    MissingDependencyField { field: DepField },
    /// A configuration consumed as a dependency declares no package identity.
    InvalidDependencyConfig,
    /// A dependency's source is not a well-formed URL.
    InvalidSourceUrl { source: String },
    /// Cloning or copying a dependency's source failed.
    Fetch { message: String },
    /// Creating, renaming or removing a cache directory failed.
    Filesystem { message: String },
    /// The compiler could not be started, or it reported failure.
    CompilerInvocation { message: String },
}

/// A `PdmError` with its strings as character sequences.
pub enum PdmErrorView {
    ConfigParse { message: Seq<char> },
    ConfigValidation(ConfigErrorView),
    MissingDependencyField { field: DepField },
    InvalidDependencyConfig,
    InvalidSourceUrl { source: Seq<char> },
    Fetch { message: Seq<char> },
    Filesystem { message: Seq<char> },
    CompilerInvocation { message: Seq<char> },
}

impl View for PdmError {
    type V = PdmErrorView;

    open spec fn view(&self) -> PdmErrorView {
        match self {
            PdmError::ConfigParse { message } => PdmErrorView::ConfigParse { message: message@ },
            PdmError::ConfigValidation(e) => PdmErrorView::ConfigValidation(e@),
            PdmError::MissingDependencyField { field } =>
                PdmErrorView::MissingDependencyField { field: *field },
            PdmError::InvalidDependencyConfig => PdmErrorView::InvalidDependencyConfig,
            PdmError::InvalidSourceUrl { source } => PdmErrorView::InvalidSourceUrl {
                source: source@,
            },
            PdmError::Fetch { message } => PdmErrorView::Fetch { message: message@ },
            PdmError::Filesystem { message } => PdmErrorView::Filesystem { message: message@ },
            PdmError::CompilerInvocation { message } => PdmErrorView::CompilerInvocation {
                message: message@,
            },
        }
    }
}

} // verus!
