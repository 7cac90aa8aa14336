use vstd::prelude::*;
use crate::strutil::str_concat;

verus! {

/// The failures the engine reports.  Path-like payloads are carried as
/// plain text so the caller can show them.
pub enum Error {
    Io(String),
    Parse(String),
    SteamNotFound,
    SteamConfigNotFound(String),
    InvalidAppId(String),
    InvalidManifest(String),
    LibraryNotFound(String),
    FileSystemError(String),
    PermissionDenied(String),
}

impl Error {
    /// A short human-readable message, with the offending path or detail
    /// appended where one is carried.
    pub fn message(&self) -> (r: String)
        ensures
            match self {
                Error::Io(m) => r@ == "I/O error: "@ + m@,
                Error::Parse(m) => r@ == "Parse error: "@ + m@,
                Error::SteamNotFound => r@
                    == "Steam installation not found. Please ensure Steam is installed and running."@,
                Error::SteamConfigNotFound(p) => r@ == "Steam configuration not found at: "@ + p@,
                Error::InvalidAppId(m) => r@ == "Invalid AppID: "@ + m@
                    + ". AppIDs must be positive numbers."@,
                Error::InvalidManifest(m) => r@ == "Invalid manifest file: "@ + m@,
                Error::LibraryNotFound(p) => r@ == "Steam library not found at: "@ + p@,
                Error::FileSystemError(m) => r@ == "File system error: "@ + m@,
                Error::PermissionDenied(p) => r@ == "Permission denied accessing: "@ + p@,
            },
    {
        match self {
            Error::Io(m) => str_concat("I/O error: ", m.as_str()),
            Error::Parse(m) => str_concat("Parse error: ", m.as_str()),
            Error::SteamNotFound => String::from_str(
                "Steam installation not found. Please ensure Steam is installed and running.",
            ),
            Error::SteamConfigNotFound(p) => str_concat(
                "Steam configuration not found at: ",
                p.as_str(),
            ),
            Error::InvalidAppId(m) => {
                let head = str_concat("Invalid AppID: ", m.as_str());
                str_concat(head.as_str(), ". AppIDs must be positive numbers.")
            },
            Error::InvalidManifest(m) => str_concat("Invalid manifest file: ", m.as_str()),
            Error::LibraryNotFound(p) => str_concat("Steam library not found at: ", p.as_str()),
            Error::FileSystemError(m) => str_concat("File system error: ", m.as_str()),
            Error::PermissionDenied(p) => str_concat("Permission denied accessing: ", p.as_str()),
        }
    }
}

} // verus!
