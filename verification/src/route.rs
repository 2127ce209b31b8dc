//! What the router decides about a target.

use vstd::prelude::*;

use crate::config::OutboundConfig;
use crate::error::{failure, fault, CoreError, ErrorKind, ErrorModel};

verus! {

/// What the router decides about a target.
#[derive(Debug)]
pub enum RouteDecision {
    Direct,
    Outbound(OutboundConfig),
    Block,
    UnsupportedOutbound(String),
}

/// The error of a target that a rule blocks.
pub open spec fn blocked() -> ErrorModel {
    fault(ErrorKind::PermissionDenied, "target blocked by route"@)
}

/// The error of a route to an outbound that is not there.
pub open spec fn unsupported(tag: Seq<char>) -> ErrorModel {
    fault(
        ErrorKind::Unsupported,
        "outbound route "@ + tag + " is not implemented"@,
    )
}

/// The error of a target that a rule blocks.
pub fn blocked_failure() -> (r: CoreError)
    ensures
        r@ == blocked(),
{
    failure(ErrorKind::PermissionDenied, "target blocked by route")
}

/// The error of a route to an outbound that is not there.
pub fn unsupported_failure(tag: &str) -> (r: CoreError)
    ensures
        r@ == unsupported(tag@),
{
    let mut message = "outbound route ".to_owned();
    message.append(tag);
    message.append(" is not implemented");
    CoreError { kind: ErrorKind::Unsupported, message }
}

/// How a target is reached.
#[derive(Clone, Copy, Debug, PartialEq, Eq, Structural)]
pub enum Way {
    Direct,
    Outbound,
}

/// How a TCP target is reached; a blocked target is an error.
pub fn tcp_way(decision: &RouteDecision) -> (r: Result<Way, CoreError>)
    ensures
        match decision {
            RouteDecision::Direct => r == Ok::<Way, CoreError>(Way::Direct),
            RouteDecision::Outbound(_) => r == Ok::<Way, CoreError>(Way::Outbound),
            RouteDecision::Block => r is Err && r->Err_0@ == blocked(),
            RouteDecision::UnsupportedOutbound(tag) => r is Err && r->Err_0@ == unsupported(tag@),
        },
{
    match decision {
        RouteDecision::Direct => Ok(Way::Direct),
        RouteDecision::Outbound(_) => Ok(Way::Outbound),
        RouteDecision::Block => Err(blocked_failure()),
        RouteDecision::UnsupportedOutbound(tag) => Err(unsupported_failure(tag.as_str())),
    }
}

/// How a UDP target is reached; packets to a blocked target are dropped.
pub fn udp_way(decision: &RouteDecision) -> (r: Result<Option<Way>, CoreError>)
    ensures
        match decision {
            RouteDecision::Direct => r == Ok::<Option<Way>, CoreError>(Some(Way::Direct)),
            RouteDecision::Outbound(_) => r == Ok::<Option<Way>, CoreError>(Some(Way::Outbound)),
            RouteDecision::Block => r == Ok::<Option<Way>, CoreError>(None),
            RouteDecision::UnsupportedOutbound(tag) => r is Err && r->Err_0@ == unsupported(tag@),
        },
{
    match decision {
        RouteDecision::Direct => Ok(Some(Way::Direct)),
        RouteDecision::Outbound(_) => Ok(Some(Way::Outbound)),
        RouteDecision::Block => Ok(None),
        RouteDecision::UnsupportedOutbound(tag) => Err(unsupported_failure(tag.as_str())),
    }
}

} // verus!
