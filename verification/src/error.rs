//! What can go wrong when a command runs on an instance.

use vstd::prelude::*;

verus! {

/// An address and a port of the internet.
#[derive(Clone, Copy, Debug)]
pub struct SocketAddress {
    pub ip: [u8; 4],
    pub port: u16,
}

/// Whether `address` is the local machine at the port of the secure shell.
pub open spec fn is_local_address(address: SocketAddress) -> bool {
    address.ip@ == seq![127u8, 0u8, 0u8, 1u8] && address.port == 22
}

/// The address under which errors of local execution are reported: the
/// local machine, at the port of the secure shell.
pub fn local_address() -> (address: SocketAddress)
    ensures
        is_local_address(address),
{
    let ip: [u8; 4] = [127, 0, 0, 1];
    assert(ip@ =~= seq![127u8, 0u8, 0u8, 1u8]);
    SocketAddress { ip, port: 22 }
}

/// Why no connection could serve a request.
#[derive(Clone, Copy, Debug, PartialEq, Eq, Structural, Hash)]
pub enum ConnectionFailure {
    /// A path begins with `~` and the home directory is not known.
    HomeNotSet,
}

impl ConnectionFailure {
    /// What the failure tells the user.
    pub fn message(&self) -> (message: &'static str)
        ensures
            message@ == match self {
                ConnectionFailure::HomeNotSet => "HOME environment variable not set"@,
            },
    {
        match self {
            ConnectionFailure::HomeNotSet => "HOME environment variable not set",
        }
    }
}

/// An error of running a command on an instance.
#[derive(Debug)]
pub enum SshError {
    /// The instance at `address` could not be reached or could not serve the request.
    ConnectionError { address: SocketAddress, error: ConnectionFailure },
    /// The command ran on the instance at `address` and failed with `code`;
    /// `message` is what it wrote to its error stream.
    NonZeroExitCode { address: SocketAddress, code: i32, message: String },
}

} // verus!
