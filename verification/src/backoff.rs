//! Which clients are shut out for a while, and which failures count against a client.

use vstd::prelude::*;

use crate::error::{failure, fault, CoreError, ErrorKind, ErrorModel};
use crate::text::{contains, contains_text, lower, lowered};
use crate::tls::{classify_tls_handshake_error, handshake_class, TlsHandshakeErrorClass};

verus! {

/// Whether what is said about an error is about a route or a limit.
pub open spec fn about_route(text: Seq<char>) -> bool {
    ||| contains(text, "target blocked"@)
    ||| contains(text, "blocked by route"@)
    ||| contains(text, "route"@)
    ||| contains(text, "device limit"@)
}

/// Whether what is said about an error is about who the client is.
pub open spec fn about_identity(text: Seq<char>) -> bool {
    ||| contains(text, "auth"@)
    ||| contains(text, "unknown"@)
    ||| contains(text, "password"@)
    ||| contains(text, "credential"@)
    ||| contains(text, "token"@)
    ||| contains(text, "username"@)
    ||| contains(text, "replayed"@)
    ||| contains(text, "user"@)
}

/// Whether an error counts against a client: a refusal about who it is, not about a route.
pub open spec fn is_auth_failure(e: ErrorModel) -> bool {
    e.kind == ErrorKind::PermissionDenied && !about_route(lower(e.message)) && about_identity(
        lower(e.message),
    )
}

/// Whether an error counts against a client.
pub fn should_record_tcp_auth_failure(error: &CoreError) -> (r: bool)
    ensures
        r == is_auth_failure(error@),
{
    if error.kind != ErrorKind::PermissionDenied {
        return false;
    }
    let lowered_text = lowered(error.message.as_str());
    let text = lowered_text.as_str();
    if contains_text(text, "target blocked") || contains_text(text, "blocked by route")
        || contains_text(text, "route") || contains_text(text, "device limit") {
        return false;
    }
    contains_text(text, "auth") || contains_text(text, "unknown") || contains_text(text, "password")
        || contains_text(text, "credential") || contains_text(text, "token") || contains_text(
        text,
        "username",
    ) || contains_text(text, "replayed") || contains_text(text, "user")
}

/// What is noted about a client.
#[derive(Clone, Copy, Debug, PartialEq, Eq, Structural)]
pub enum ClientNote {
    Nothing,
    Success,
    Failure,
}

/// What is noted about a client whose address is known, or may not be.
pub open spec fn noted(peer_known: bool, note: ClientNote) -> ClientNote {
    if peer_known {
        note
    } else {
        ClientNote::Nothing
    }
}

/// The view of how serving a client ended.
pub open spec fn end_view(r: Result<(), CoreError>) -> Result<(), ErrorModel> {
    match r {
        Ok(_) => Ok(()),
        Err(e) => Err(e@),
    }
}

/// Whether a client is let in: one whose address is known and shut out is refused.
pub fn admit_tcp_client(peer_known: bool, blocked: bool) -> (r: Result<(), CoreError>)
    ensures
        end_view(r) == (if peer_known && blocked {
            Err(fault(ErrorKind::PermissionDenied, "tcp auth backoff active"@))
        } else {
            Ok(())
        }),
{
    if peer_known && blocked {
        Err(failure(ErrorKind::PermissionDenied, "tcp auth backoff active"))
    } else {
        Ok(())
    }
}

/// What is noted about a client once it is served.
pub fn handle_tcp_connection_with_failure_backoff(
    peer_known: bool,
    result: &Result<(), CoreError>,
) -> (r: ClientNote)
    ensures
        r == noted(
            peer_known,
            match result {
                Ok(_) => ClientNote::Success,
                Err(e) => if is_auth_failure(e@) {
                    ClientNote::Failure
                } else {
                    ClientNote::Nothing
                },
            },
        ),
{
    if !peer_known {
        return ClientNote::Nothing;
    }
    match result {
        Ok(_) => ClientNote::Success,
        Err(e) => if should_record_tcp_auth_failure(e) {
            ClientNote::Failure
        } else {
            ClientNote::Nothing
        },
    }
}

/// Whether a client may begin a handshake.
pub fn admit_tls_client(peer_known: bool, blocked: bool) -> (r: Result<(), CoreError>)
    ensures
        end_view(r) == (if peer_known && blocked {
            Err(fault(ErrorKind::PermissionDenied, "tls handshake backoff active"@))
        } else {
            Ok(())
        }),
{
    if peer_known && blocked {
        Err(failure(ErrorKind::PermissionDenied, "tls handshake backoff active"))
    } else {
        Ok(())
    }
}

/// How a handshake ended.
#[derive(Debug)]
pub enum HandshakeEnd {
    Accepted,
    Failed(CoreError),
    RanOut,
}

/// What comes of a handshake: what is noted about the client, the class under which a failure is
/// logged, and what the caller gets.
#[derive(Debug)]
pub struct HandshakeReport {
    pub note: ClientNote,
    pub logged: Option<TlsHandshakeErrorClass>,
    pub result: Result<(), CoreError>,
}

/// What comes of a handshake.
pub open spec fn handshake_report(peer_known: bool, end: HandshakeEnd, r: HandshakeReport) -> bool {
    match end {
        HandshakeEnd::Accepted => {
            &&& r.note == noted(peer_known, ClientNote::Success)
            &&& r.logged is None
            &&& r.result is Ok
        },
        HandshakeEnd::Failed(e) => {
            &&& end_view(r.result) == Err::<(), ErrorModel>(e@)
            &&& if handshake_class(e@) == TlsHandshakeErrorClass::ClientClosed {
                r.note == ClientNote::Nothing && r.logged is None
            } else {
                r.note == noted(peer_known, ClientNote::Failure) && r.logged == Some(
                    handshake_class(e@),
                )
            }
        },
        HandshakeEnd::RanOut => {
            &&& end_view(r.result) == Err::<(), ErrorModel>(
                fault(ErrorKind::TimedOut, "tls handshake timed out"@),
            )
            &&& r.note == noted(peer_known, ClientNote::Failure)
            &&& r.logged == Some(TlsHandshakeErrorClass::Io)
        },
    }
}

/// What comes of a handshake: a client that just leaves is not held to have failed.
pub fn accept_tls_connection(peer_known: bool, end: HandshakeEnd) -> (r: HandshakeReport)
    ensures
        handshake_report(peer_known, end, r),
{
    match end {
        HandshakeEnd::Accepted => HandshakeReport {
            note: if peer_known {
                ClientNote::Success
            } else {
                ClientNote::Nothing
            },
            logged: None,
            result: Ok(()),
        },
        HandshakeEnd::Failed(e) => {
            let class = classify_tls_handshake_error(&e);
            if class == TlsHandshakeErrorClass::ClientClosed {
                HandshakeReport { note: ClientNote::Nothing, logged: None, result: Err(e) }
            } else {
                HandshakeReport {
                    note: if peer_known {
                        ClientNote::Failure
                    } else {
                        ClientNote::Nothing
                    },
                    logged: Some(class),
                    result: Err(e),
                }
            }
        },
        HandshakeEnd::RanOut => HandshakeReport {
            note: if peer_known {
                ClientNote::Failure
            } else {
                ClientNote::Nothing
            },
            logged: Some(TlsHandshakeErrorClass::Io),
            result: Err(failure(ErrorKind::TimedOut, "tls handshake timed out")),
        },
    }
}

} // verus!
