//! The errors that the library's operations report.

use vstd::prelude::*;
use crate::scan::model::ScanRecord;
use crate::text::{dec, push_dec, push_str, string_of};

verus! {

/// Why a command cannot go ahead.
#[derive(Debug)]
pub enum DevportsError {
    /// No service of that name is configured.
    ServiceNotFound { name: String },
    /// The service is configured but nothing listens on its port.
    NotListening { name: String, url: String },
    /// No listener was found on the port.
    NoListener { port: u16 },
    /// The port is taken by the given listener.
    PortInUse { record: ScanRecord },
    /// A config file exists and overwriting was not asked for.
    ConfigExists,
    /// The service has no start command.
    MissingStartCommand,
    /// The service's repository does not exist.
    RepoMissing { repo: String },
}

/// The text of each error.
pub open spec fn spec_message(e: &DevportsError) -> Seq<char> {
    match e {
        DevportsError::ServiceNotFound { name } => "service not found in config: "@ + name@,
        DevportsError::NotListening { name, url } => "service '"@ + name@ + "' is configured for "@
            + url@ + " but is not listening"@,
        DevportsError::NoListener { port } => "no listener found for port "@ + dec(*port as nat),
        DevportsError::PortInUse { record } => "port "@ + dec(record.port as nat)
            + " is already in use"@,
        DevportsError::ConfigExists => "config already exists (use --force to overwrite)"@,
        DevportsError::MissingStartCommand => "service is missing start command"@,
        DevportsError::RepoMissing { repo } => "repo does not exist: "@ + repo@,
    }
}

impl DevportsError {
    /// The error as the command line reports it.
    pub fn message(&self) -> (s: String)
        ensures
            s@ == spec_message(self),
    {
        match self {
            DevportsError::ServiceNotFound { name } => {
                let mut s = string_of("service not found in config: ");
                push_str(&mut s, name.as_str());
                s
            },
            DevportsError::NotListening { name, url } => {
                let mut s = string_of("service '");
                push_str(&mut s, name.as_str());
                push_str(&mut s, "' is configured for ");
                push_str(&mut s, url.as_str());
                push_str(&mut s, " but is not listening");
                s
            },
            DevportsError::NoListener { port } => {
                let mut s = string_of("no listener found for port ");
                push_dec(&mut s, *port as u64);
                s
            },
            DevportsError::PortInUse { record } => {
                let mut s = string_of("port ");
                push_dec(&mut s, record.port as u64);
                push_str(&mut s, " is already in use");
                s
            },
            DevportsError::ConfigExists => string_of("config already exists (use --force to overwrite)"),
            DevportsError::MissingStartCommand => string_of("service is missing start command"),
            DevportsError::RepoMissing { repo } => {
                let mut s = string_of("repo does not exist: ");
                push_str(&mut s, repo.as_str());
                s
            },
        }
    }
}

} // verus!
