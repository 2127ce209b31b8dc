//! Binding sockets to wildcard addresses of both versions at once.

use vstd::prelude::*;

use crate::address::{IpAddress, IpModel, SocketAddress, SocketModel};
use crate::error::{CoreError, ErrorKind, ErrorModel};

verus! {

/// The wildcard address of version six.
pub open spec fn ipv6_wildcard() -> IpModel {
    IpModel::V6(Seq::new(16, |i: int| 0u8))
}

/// The wildcard address of version four.
pub open spec fn ipv4_wildcard() -> IpModel {
    IpModel::V4(Seq::new(4, |i: int| 0u8))
}

/// The address to listen on for clients of both versions: in place of the wildcard address of
/// version four, the one of version six.
pub open spec fn dual_stack(listen: SocketModel) -> SocketModel {
    if listen.ip is V4 && listen.ip.unspecified() {
        SocketModel::plain(ipv6_wildcard(), listen.port)
    } else {
        listen
    }
}

/// The address to listen on for clients of both versions.
pub fn dual_stack_wildcard_addr(listen: &SocketAddress) -> (r: SocketAddress)
    ensures
        r@ == dual_stack(listen@),
{
    match listen.ip {
        IpAddress::V4(_) => if listen.ip.is_unspecified() {
            let zeros: [u8; 16] = [0u8; 16];
            assert(zeros@ =~= Seq::new(16, |i: int| 0u8));
            SocketAddress::new(IpAddress::V6(zeros), listen.port)
        } else {
            *listen
        },
        IpAddress::V6(_) => *listen,
    }
}

/// Whether an address is the wildcard address of version six.
pub fn is_ipv6_unspecified(listen: &SocketAddress) -> (r: bool)
    ensures
        r == (listen@.ip is V6 && listen@.ip.unspecified()),
{
    match listen.ip {
        IpAddress::V4(_) => false,
        IpAddress::V6(_) => listen.ip.is_unspecified(),
    }
}

/// Whether an error says that the machine has no addresses of version six.
pub open spec fn lacks_ipv6(kind: ErrorKind, os_error: Option<i32>) -> bool {
    ||| kind == ErrorKind::AddrNotAvailable
    ||| kind == ErrorKind::Unsupported
    ||| os_error == Some(47i32)
    ||| os_error == Some(49i32)
    ||| os_error == Some(97i32)
    ||| os_error == Some(10047i32)
    ||| os_error == Some(10049i32)
}

/// Whether an error says that the machine has no addresses of version six.
pub fn should_fallback_to_ipv4(kind: ErrorKind, os_error: Option<i32>) -> (r: bool)
    ensures
        r == lacks_ipv6(kind, os_error),
{
    if kind == ErrorKind::AddrNotAvailable || kind == ErrorKind::Unsupported {
        return true;
    }
    match os_error {
        Some(code) => code == 47 || code == 49 || code == 97 || code == 10047 || code == 10049,
        None => false,
    }
}

/// An error with the address that could not be bound.
pub open spec fn at_address(listen: SocketModel, e: ErrorModel) -> ErrorModel {
    ErrorModel { kind: e.kind, message: "at "@ + listen.text() + ": "@ + e.message }
}

/// An error with the address that could not be bound.
pub fn bind_addr_error(listen: &SocketAddress, error: CoreError) -> (r: CoreError)
    ensures
        r@ == at_address(listen@, error@),
{
    let address = listen.to_text();
    let mut message = "at ".to_owned();
    message.append(address.as_str());
    message.append(": ");
    message.append(error.message.as_str());
    CoreError { kind: error.kind, message }
}

/// An attempt to bind a socket.
#[derive(Clone, Copy, Debug, PartialEq, Eq)]
pub struct BindAttempt {
    pub address: SocketAddress,
    /// Whether the socket takes clients of version four too.
    pub dual_stack: bool,
}

/// The first attempt to bind a socket.
pub fn bind_dual_stack(listen: &SocketAddress) -> (r: BindAttempt)
    ensures
        r.address@ == dual_stack(listen@),
        r.dual_stack == (r.address@.ip is V6 && r.address@.ip.unspecified()),
{
    let address = dual_stack_wildcard_addr(listen);
    BindAttempt { address, dual_stack: is_ipv6_unspecified(&address) }
}

impl BindAttempt {
    /// What is to be done after a failure: another attempt with the wildcard address of version
    /// four, where one for both versions failed for want of version six, or the error.
    pub fn failed(&self, error: CoreError, os_error: Option<i32>) -> (r: Result<
        BindAttempt,
        CoreError,
    >)
        ensures
            match r {
                Ok(next) => {
                    &&& self.dual_stack && lacks_ipv6(error.kind, os_error)
                    &&& next.address@ == SocketModel::plain(
                        ipv4_wildcard(),
                        self.address.port,
                    )
                    &&& !next.dual_stack
                },
                Err(e) => {
                    &&& !(self.dual_stack && lacks_ipv6(error.kind, os_error))
                    &&& e@ == at_address(self.address@, error@)
                },
            },
    {
        if self.dual_stack && should_fallback_to_ipv4(error.kind, os_error) {
            let zeros: [u8; 4] = [0u8; 4];
            assert(zeros@ =~= Seq::new(4, |i: int| 0u8));
            let address = SocketAddress::new(IpAddress::V4(zeros), self.address.port);
            return Ok(BindAttempt { address, dual_stack: false });
        }
        Err(bind_addr_error(&self.address, error))
    }
}

/// Looking for both versions twice is looking once, and never changes the port, nor an address
/// that is not a wildcard.
pub proof fn law_dual_stack_is_idempotent(listen: SocketModel)
    ensures
        dual_stack(dual_stack(listen)) == dual_stack(listen),
        dual_stack(listen).port == listen.port,
        !listen.ip.unspecified() ==> dual_stack(listen) == listen,
        listen.ip.unspecified() ==> dual_stack(listen).ip is V6,
{
}

} // verus!
