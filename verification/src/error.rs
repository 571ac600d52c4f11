//! The errors of a synchronisation run.
use vstd::prelude::*;
use vstd::string::*;

verus! {

/// What went wrong in a synchronisation run. Each variant carries the
/// description of the underlying failure.
#[derive(Debug)]
pub enum SyncError {
    Database(String),
    Http(String),
    Ical(String),
    Config(String),
    Conflict(String),
    Chrono(String),
    Io(String),
}

/// The prefix that introduces the description of each kind of error.
pub open spec fn error_prefix(e: SyncError) -> Seq<char> {
    match e {
        SyncError::Database(_) => "Error de base de datos: "@,
        SyncError::Http(_) => "Error HTTP: "@,
        SyncError::Ical(_) => "Error parseando ICS: "@,
        SyncError::Config(_) => "Error de configuración: "@,
        SyncError::Conflict(_) => "Conflicto detectado: "@,
        SyncError::Chrono(_) => "Error de timestamp: "@,
        SyncError::Io(_) => "Error de I/O: "@,
    }
}

/// The description carried by an error.
pub open spec fn error_detail(e: SyncError) -> Seq<char> {
    match e {
        SyncError::Database(s) => s@,
        SyncError::Http(s) => s@,
        SyncError::Ical(s) => s@,
        SyncError::Config(s) => s@,
        SyncError::Conflict(s) => s@,
        SyncError::Chrono(s) => s@,
        SyncError::Io(s) => s@,
    }
}

impl SyncError {
    /// The human-readable message of the error: its kind, then its description.
    pub fn message(&self) -> (r: String)
        ensures
            r@ == error_prefix(*self) + error_detail(*self),
    {
        let (prefix, detail) = match self {
            SyncError::Database(s) => ("Error de base de datos: ", s),
            SyncError::Http(s) => ("Error HTTP: ", s),
            SyncError::Ical(s) => ("Error parseando ICS: ", s),
            SyncError::Config(s) => ("Error de configuración: ", s),
            SyncError::Conflict(s) => ("Conflicto detectado: ", s),
            SyncError::Chrono(s) => ("Error de timestamp: ", s),
            SyncError::Io(s) => ("Error de I/O: ", s),
        };
        let mut r = String::from_str(prefix);
        r.append(detail.as_str());
        r
    }
}

} // verus!
