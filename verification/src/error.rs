//! The failures that reading a configuration can end in.

use vstd::prelude::*;

verus! {

/// Text in contracts: a sequence of characters.
pub type Text = Seq<char>;

/// The fields that a failure can name.
#[derive(Debug, Clone, Copy, PartialEq, Eq, Structural)]
pub enum Field {
    MaxBodySize,
    Timeout,
    Servers,
    Host,
    Ports,
    Path,
    Methods,
    CgiExtension,
    RedirectStatus,
    RedirectTarget,
    ErrorCode,
}

/// What a path is required to be.
#[derive(Debug, Clone, Copy, PartialEq, Eq, Structural)]
pub enum PathNeed {
    /// Anything, as long as it exists.
    Present,
    /// A regular file.
    File,
    /// A directory.
    Directory,
}

/// The broad kinds of failure.
#[derive(Debug, Clone, Copy, PartialEq, Eq, Structural)]
pub enum ErrorKind {
    Syntax,
    KeyOutsideSection,
    MissingField,
    InvalidValue,
    Conflict,
    Filesystem,
}

/// A failure of parsing, building or validation.
#[derive(Debug, Clone, PartialEq, Eq)]
pub enum ConfigError {
    /// Line `line` (counted from 1) is no comment, header or key/value pair;
    /// `text` is the line without the white space round it.
    Syntax { line: usize, text: String },
    /// Line `line` (counted from 1) is a key/value pair that no section holds.
    KeyOutsideSection { line: usize },
    /// `entity` lacks the required `field`.
    MissingField { entity: String, field: Field },
    /// The `field` of `entity` has the unacceptable value `raw`.
    InvalidValue { entity: String, field: Field, raw: String },
    /// The pair of `host` and `port` is bound more than once.
    PortConflict { host: String, port: u16 },
    /// No server is marked as the default.
    NoDefaultServer,
    /// More than one server is marked as the default.
    MultipleDefaultServers,
    /// `path` is not there, or is not of the kind `expected`.
    Filesystem { path: String, expected: PathNeed },
}

/// A failure as contracts see it.
pub enum ConfigErrorView {
    Syntax { line: int, text: Text },
    KeyOutsideSection { line: int },
    MissingField { entity: Text, field: Field },
    InvalidValue { entity: Text, field: Field, raw: Text },
    PortConflict { host: Text, port: u16 },
    NoDefaultServer,
    MultipleDefaultServers,
    Filesystem { path: Text, expected: PathNeed },
}

impl View for ConfigError {
    type V = ConfigErrorView;

    open spec fn view(&self) -> ConfigErrorView {
        match *self {
            ConfigError::Syntax { line, text } => ConfigErrorView::Syntax {
                line: line as int,
                text: text@,
            },
            ConfigError::KeyOutsideSection { line } => ConfigErrorView::KeyOutsideSection {
                line: line as int,
            },
            ConfigError::MissingField { entity, field } => ConfigErrorView::MissingField {
                entity: entity@,
                field,
            },
            ConfigError::InvalidValue { entity, field, raw } => ConfigErrorView::InvalidValue {
                entity: entity@,
                field,
                raw: raw@,
            },
            ConfigError::PortConflict { host, port } => ConfigErrorView::PortConflict {
                host: host@,
                port,
            },
            ConfigError::NoDefaultServer => ConfigErrorView::NoDefaultServer,
            ConfigError::MultipleDefaultServers => ConfigErrorView::MultipleDefaultServers,
            ConfigError::Filesystem { path, expected } => ConfigErrorView::Filesystem {
                path: path@,
                expected,
            },
        }
    }
}

impl ConfigErrorView {
    /// The broad kind of this failure.
    pub open spec fn kind(self) -> ErrorKind {
        match self {
            ConfigErrorView::Syntax { .. } => ErrorKind::Syntax,
            ConfigErrorView::KeyOutsideSection { .. } => ErrorKind::KeyOutsideSection,
            ConfigErrorView::MissingField { .. } => ErrorKind::MissingField,
            ConfigErrorView::InvalidValue { .. } => ErrorKind::InvalidValue,
            ConfigErrorView::PortConflict { .. } => ErrorKind::Conflict,
            ConfigErrorView::NoDefaultServer => ErrorKind::Conflict,
            ConfigErrorView::MultipleDefaultServers => ErrorKind::Conflict,
            ConfigErrorView::Filesystem { .. } => ErrorKind::Filesystem,
        }
    }
}

impl ConfigError {
    /// The broad kind of this failure.
    pub fn kind(&self) -> (k: ErrorKind)
        ensures
            k == self@.kind(),
    {
        match self {
            ConfigError::Syntax { .. } => ErrorKind::Syntax,
            ConfigError::KeyOutsideSection { .. } => ErrorKind::KeyOutsideSection,
            ConfigError::MissingField { .. } => ErrorKind::MissingField,
            ConfigError::InvalidValue { .. } => ErrorKind::InvalidValue,
            ConfigError::PortConflict { .. } => ErrorKind::Conflict,
            ConfigError::NoDefaultServer => ErrorKind::Conflict,
            ConfigError::MultipleDefaultServers => ErrorKind::Conflict,
            ConfigError::Filesystem { .. } => ErrorKind::Filesystem,
        }
    }
}

/// A result as contracts see it: the view of the value, or of the failure.
pub open spec fn outcome<T: View>(r: Result<T, ConfigError>) -> Result<T::V, ConfigErrorView> {
    match r {
        Ok(v) => Ok(v@),
        Err(e) => Err(e@),
    }
}

} // verus!
