use vstd::prelude::*;

verus! {

/// `socket2::SockAddr`, the address of a socket. Nothing is said of what it
/// holds: the library only carries it.
#[verifier::external_type_specification]
#[verifier::external_body]
pub struct ExSockAddr(socket2::SockAddr);

/// `SockAddr::clone`, which `socket2` derives: the copy is the address it
/// was made from.
pub assume_specification[ <socket2::SockAddr as std::clone::Clone>::clone ](
    addr: &socket2::SockAddr,
) -> (copy: socket2::SockAddr)
    ensures
        copy == *addr,
;

/// A network path: the local address and the remote address of a
/// connection. Two paths are equal when both addresses are.
#[derive(Clone, Debug, Eq, PartialEq, Hash)]
pub struct Path {
    pub local: socket2::SockAddr,
    pub remote: socket2::SockAddr,
}

} // verus!
