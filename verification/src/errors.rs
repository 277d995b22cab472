//! Error types shared across the workstation, each with its message text.

use vstd::prelude::*;

verus! {

/// Common error type.
#[derive(Debug, Clone, PartialEq, Eq)]
pub enum Error {
    /// Audio-related error
    Audio(String),
    /// Plugin-related error
    Plugin(String),
    /// I/O error, carrying the message of the underlying I/O failure
    Io(String),
    /// Other unclassified error
    Other(String),
}

/// Message text of an [`Error`].
pub open spec fn error_message(e: Error) -> Seq<char> {
    match e {
        Error::Audio(m) => "Audio error: "@ + m@,
        Error::Plugin(m) => "Plugin error: "@ + m@,
        Error::Io(m) => "IO error: "@ + m@,
        Error::Other(m) => "Other error: "@ + m@,
    }
}

impl Error {
    /// The human-readable message of this error.
    pub fn message(&self) -> (s: String)
        ensures
            s@ == error_message(*self),
    {
        let (prefix, m) = match self {
            Error::Audio(m) => ("Audio error: ", m),
            Error::Plugin(m) => ("Plugin error: ", m),
            Error::Io(m) => ("IO error: ", m),
            Error::Other(m) => ("Other error: ", m),
        };
        let mut s = String::from_str(prefix);
        s.append(m.as_str());
        s
    }
}

/// Plugin-related errors.
#[derive(Debug, Clone, PartialEq, Eq)]
pub enum PluginError {
    /// The plugin could not be initialised
    InitializationFailed(String),
    /// Processing a block failed
    ProcessingFailed(String),
    /// A parameter id or value was refused
    InvalidParameter(String),
    /// The plugin binary or bundle is malformed
    FormatError(String),
}

/// Message text of a [`PluginError`].
pub open spec fn plugin_error_message(e: PluginError) -> Seq<char> {
    match e {
        PluginError::InitializationFailed(m) => "Plugin initialization failed: "@ + m@,
        PluginError::ProcessingFailed(m) => "Plugin processing failed: "@ + m@,
        PluginError::InvalidParameter(m) => "Invalid parameter: "@ + m@,
        PluginError::FormatError(m) => "Plugin format error: "@ + m@,
    }
}

impl PluginError {
    /// The human-readable message of this error.
    pub fn message(&self) -> (s: String)
        ensures
            s@ == plugin_error_message(*self),
    {
        let (prefix, m) = match self {
            PluginError::InitializationFailed(m) => ("Plugin initialization failed: ", m),
            PluginError::ProcessingFailed(m) => ("Plugin processing failed: ", m),
            PluginError::InvalidParameter(m) => ("Invalid parameter: ", m),
            PluginError::FormatError(m) => ("Plugin format error: ", m),
        };
        let mut s = String::from_str(prefix);
        s.append(m.as_str());
        s
    }
}

/// Plugin metadata.
#[derive(Debug, Clone, PartialEq, Eq)]
pub struct PluginInfo {
    pub name: String,
    pub vendor: String,
    pub version: String,
    pub unique_id: String,
}

impl PluginInfo {
    /// A field-by-field copy.
    pub fn duplicate(&self) -> (r: PluginInfo)
        ensures
            r == *self,
    {
        PluginInfo {
            name: self.name.clone(),
            vendor: self.vendor.clone(),
            version: self.version.clone(),
            unique_id: self.unique_id.clone(),
        }
    }
}

} // verus!
