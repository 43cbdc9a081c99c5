//! Errors produced while parsing commit messages.
use vstd::prelude::*;

verus! {

/// Result alias used throughout the crate.
pub type Result<T, E = Error> = std::result::Result<T, E>;

/// Everything that can go wrong while parsing a commit message.
#[derive(Debug, Clone, PartialEq, Eq)]
pub enum Error {
    /// The message consists solely of whitespace.
    EmptyMessage,
    /// The header has no `<type>[scope][!]:` separator.
    MissingSeparator {
        /// The offending header line.
        header: String,
    },
    /// Nothing precedes the `:` in the header.
    EmptyType {
        /// The offending header line.
        header: String,
    },
    /// The scope is present but empty, as in `feat(): ...`.
    EmptyScope {
        /// The offending header line.
        header: String,
    },
    /// The type/scope part contains stray parentheses or spaces.
    InvalidScope {
        /// The offending header line.
        header: String,
    },
    /// Nothing follows the `:` in the header.
    EmptyDescription {
        /// The offending header line.
        header: String,
    },
}

/// The mathematical model of an [`Error`]: the same variants, each header as
/// its characters.
pub enum SpecError {
    EmptyMessage,
    MissingSeparator { header: Seq<char> },
    EmptyType { header: Seq<char> },
    EmptyScope { header: Seq<char> },
    InvalidScope { header: Seq<char> },
    EmptyDescription { header: Seq<char> },
}

impl View for Error {
    type V = SpecError;

    open spec fn view(&self) -> SpecError {
        match self {
            Error::EmptyMessage => SpecError::EmptyMessage,
            Error::MissingSeparator { header } => SpecError::MissingSeparator { header: header@ },
            Error::EmptyType { header } => SpecError::EmptyType { header: header@ },
            Error::EmptyScope { header } => SpecError::EmptyScope { header: header@ },
            Error::InvalidScope { header } => SpecError::InvalidScope { header: header@ },
            Error::EmptyDescription { header } => SpecError::EmptyDescription { header: header@ },
        }
    }
}

impl SpecError {
    /// The header line an error names; none for an empty message.
    pub open spec fn header(self) -> Option<Seq<char>> {
        match self {
            SpecError::EmptyMessage => None,
            SpecError::MissingSeparator { header } => Some(header),
            SpecError::EmptyType { header } => Some(header),
            SpecError::EmptyScope { header } => Some(header),
            SpecError::InvalidScope { header } => Some(header),
            SpecError::EmptyDescription { header } => Some(header),
        }
    }

    /// The human-readable description of the error.
    pub open spec fn message(self) -> Seq<char> {
        match self {
            SpecError::EmptyMessage => "commit message is empty"@,
            SpecError::MissingSeparator { header } => "header `"@ + header
                + "` has no `<type>[scope][!]:` separator"@,
            SpecError::EmptyType { header } => "commit type in `"@ + header + "` is empty"@,
            SpecError::EmptyScope { header } => "commit scope in `"@ + header + "` is empty"@,
            SpecError::InvalidScope { header } => "type or scope in `"@ + header
                + "` is malformed"@,
            SpecError::EmptyDescription { header } => "commit description in `"@ + header
                + "` is empty"@,
        }
    }
}

/// `prefix`, then `header`, then `suffix`, as a new string.
fn framed(prefix: &str, header: &String, suffix: &str) -> (s: String)
    ensures
        s@ == prefix@ + header@ + suffix@,
{
    let mut s = String::from_str(prefix);
    s.append(header.as_str());
    s.append(suffix);
    s
}

impl Error {
    /// The human-readable description of the error, as `Display` would
    /// print it.
    pub fn message(&self) -> (text: String)
        ensures
            text@ == self@.message(),
    {
        match self {
            Error::EmptyMessage => String::from_str("commit message is empty"),
            Error::MissingSeparator { header } => framed(
                "header `",
                header,
                "` has no `<type>[scope][!]:` separator",
            ),
            Error::EmptyType { header } => framed("commit type in `", header, "` is empty"),
            Error::EmptyScope { header } => framed("commit scope in `", header, "` is empty"),
            Error::InvalidScope { header } => framed(
                "type or scope in `",
                header,
                "` is malformed",
            ),
            Error::EmptyDescription { header } => framed(
                "commit description in `",
                header,
                "` is empty",
            ),
        }
    }
}

} // verus!
