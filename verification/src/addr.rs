//! Addresses of the endpoints that connections lead to.
use vstd::prelude::*;

verus! {

/// An IPv4 address and a port.
#[derive(Clone, Copy, Debug, PartialEq, Eq, Hash, Structural)]
pub struct SocketAddrV4 {
    /// The number that the four octets of the address stand for, in big-endian
    /// order.
    pub ip: u32,
    pub port: u16,
}

/// An IPv6 address, a port, and the two further fields of such an endpoint.
#[derive(Clone, Copy, Debug, PartialEq, Eq, Hash, Structural)]
pub struct SocketAddrV6 {
    /// The number that the sixteen octets of the address stand for, in
    /// big-endian order.
    pub ip: u128,
    pub port: u16,
    pub flowinfo: u32,
    pub scope_id: u32,
}

/// The address of a TCP endpoint.
#[derive(Clone, Copy, Debug, PartialEq, Eq, Hash, Structural)]
pub enum SocketAddr {
    V4(SocketAddrV4),
    V6(SocketAddrV6),
}

/// Declares `std::path::PathBuf`, the address of a Unix domain socket. Nothing is
/// claimed of it.
#[verifier::external_type_specification]
#[verifier::external_body]
pub struct ExPathBuf(std::path::PathBuf);

/// `PathBuf::clone` of `std`, which cloning an [`Addr`] calls. Nothing is claimed
/// of what it returns.
pub assume_specification[ <std::path::PathBuf as Clone>::clone ](
    path: &std::path::PathBuf,
) -> (res: std::path::PathBuf)
;

/// All known address types for connections.
///
/// It lets what holds an address avoid being generic over the kind of
/// connection.
#[derive(Clone, Debug, PartialEq, Eq)]
pub enum Addr {
    /// The address type for TCP streams.
    Tcp(SocketAddr),
    /// The address type for Unix streams.
    Unix(std::path::PathBuf),
}

impl From<SocketAddr> for Addr {
    fn from(addr: SocketAddr) -> (res: Addr)
        ensures
            res matches Addr::Tcp(kept) && kept == addr,
    {
        Addr::Tcp(addr)
    }
}

impl vstd::std_specs::convert::FromSpecImpl<SocketAddr> for Addr {
    open spec fn obeys_from_spec() -> bool {
        true
    }

    open spec fn from_spec(addr: SocketAddr) -> Addr {
        Addr::Tcp(addr)
    }
}

impl From<std::path::PathBuf> for Addr {
    fn from(addr: std::path::PathBuf) -> (res: Addr)
        ensures
            res matches Addr::Unix(kept) && kept == addr,
    {
        Addr::Unix(addr)
    }
}

impl vstd::std_specs::convert::FromSpecImpl<std::path::PathBuf> for Addr {
    open spec fn obeys_from_spec() -> bool {
        true
    }

    open spec fn from_spec(addr: std::path::PathBuf) -> Addr {
        Addr::Unix(addr)
    }
}

/// An address keeps the socket address or the path that it is made from, whole;
/// so different endpoints have different addresses.
pub proof fn law_endpoint_is_kept(
    socket: SocketAddr,
    other_socket: SocketAddr,
    path: std::path::PathBuf,
    other_path: std::path::PathBuf,
)
    ensures
        <Addr as vstd::std_specs::convert::FromSpec<SocketAddr>>::obeys_from_spec(),
        <Addr as vstd::std_specs::convert::FromSpec<std::path::PathBuf>>::obeys_from_spec(),
        <Addr as vstd::std_specs::convert::FromSpec<SocketAddr>>::from_spec(
            socket,
        ) matches Addr::Tcp(kept) && kept == socket,
        <Addr as vstd::std_specs::convert::FromSpec<std::path::PathBuf>>::from_spec(
            path,
        ) matches Addr::Unix(kept) && kept == path,
        <Addr as vstd::std_specs::convert::FromSpec<SocketAddr>>::from_spec(socket) == <Addr as
            vstd::std_specs::convert::FromSpec<SocketAddr>>::from_spec(other_socket) ==> socket
            == other_socket,
        <Addr as vstd::std_specs::convert::FromSpec<std::path::PathBuf>>::from_spec(path) == <Addr
            as vstd::std_specs::convert::FromSpec<std::path::PathBuf>>::from_spec(other_path)
            ==> path == other_path,
{
}

} // verus!
