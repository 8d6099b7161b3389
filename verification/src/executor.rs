//! The two ways to run commands on the instances of a testbed.

use vstd::prelude::*;
use crate::error::{is_local_address, ConnectionFailure, SshError};
use crate::local_executor::{located, spec_home, LocalCommandExecutor, LocalConnection};
use crate::ssh::{SshConnection, SshConnectionManager};

verus! {

/// An executor that can use either SSH or local execution.
#[derive(Debug)]
pub enum Executor {
    Ssh(SshConnectionManager),
    Local(LocalCommandExecutor),
}

impl Executor {
    /// Create an SSH executor.
    pub fn ssh(manager: SshConnectionManager) -> (executor: Self)
        ensures
            executor == Executor::Ssh(manager),
    {
        Self::Ssh(manager)
    }

    /// Create a local executor.
    pub fn local(executor: LocalCommandExecutor) -> (wrapped: Self)
        ensures
            wrapped == Executor::Local(executor),
    {
        Self::Local(executor)
    }

    /// Whether commands run on the local machine.
    pub fn is_local(&self) -> (local: bool)
        ensures
            local == (self is Local),
    {
        match self {
            Executor::Ssh(_) => false,
            Executor::Local(_) => true,
        }
    }
}

/// Where a download finds its file.
#[derive(Debug)]
pub enum DownloadSource {
    /// The file `path` on the instance at the other end of `connection`.
    Remote { connection: SshConnection, path: String },
    /// The file `path` on the local machine.
    Local { path: String },
}

/// A connection that can download files, either via SSH or local.
#[derive(Debug)]
pub enum ExecutorConnection {
    Ssh(SshConnection),
    Local(LocalConnection),
}

impl ExecutorConnection {
    /// Where a download of `path` finds its file: on the remote instance
    /// under the path as given, or on the local machine where the local
    /// connection locates it.
    pub fn locate(&self, path: &str, home: Option<&str>) -> (source: Result<DownloadSource, SshError>)
        ensures
            match self {
                ExecutorConnection::Ssh(connection) => {
                    &&& source matches Ok(DownloadSource::Remote { connection: used, path: file })
                    &&& used == *connection
                    &&& file@ == path@
                },
                ExecutorConnection::Local(local) => match located(
                    local.spec_working_dir(),
                    path@,
                    spec_home(home),
                ) {
                    Some(place) => {
                        &&& source matches Ok(DownloadSource::Local { path: file })
                        &&& file@ == place
                    },
                    None => {
                        &&& source matches Err(SshError::ConnectionError { address, error })
                        &&& is_local_address(address)
                        &&& error == ConnectionFailure::HomeNotSet
                    },
                },
            },
    {
        match self {
            ExecutorConnection::Ssh(connection) => Ok(
                DownloadSource::Remote { connection: *connection, path: String::from_str(path) },
            ),
            ExecutorConnection::Local(local) => match local.locate(path, home) {
                Ok(file) => Ok(DownloadSource::Local { path: file }),
                Err(error) => Err(error),
            },
        }
    }
}

} // verus!
