//! Why a node could not be started.

use vstd::prelude::*;

use crate::config::Protocol;
use crate::error::{CoreError, ErrorModel};
use crate::listener_binds::{protocol_name, protocol_text, ValidationError};

verus! {

/// Why a node could not be started.
#[derive(Debug)]
pub enum CoreServiceError {
    InvalidConfig(ValidationError),
    Bind { tag: String, source: CoreError },
    UnsupportedFeature { tag: String, message: String },
    UnsupportedProtocol { tag: String, protocol: Protocol },
}

impl CoreServiceError {
    /// What is said about the error.
    pub open spec fn text(&self) -> Seq<char> {
        match self {
            CoreServiceError::InvalidConfig(error) => "invalid core config: "@ + error.message@,
            CoreServiceError::Bind { tag, source } => "failed to bind inbound "@ + tag@ + ": "@
                + source.message@,
            CoreServiceError::UnsupportedFeature { tag, message } => "inbound "@ + tag@
                + " unsupported feature: "@ + message@,
            CoreServiceError::UnsupportedProtocol { tag, protocol } => "inbound "@ + tag@
                + " protocol "@ + protocol_text(*protocol)
                + " is not implemented in keli-core-rs yet"@,
        }
    }

    /// What is said about the error.
    pub fn to_text(&self) -> (r: String)
        ensures
            r@ == self.text(),
    {
        match self {
            CoreServiceError::InvalidConfig(error) => {
                let mut text = "invalid core config: ".to_owned();
                text.append(error.message.as_str());
                text
            },
            CoreServiceError::Bind { tag, source } => {
                let mut text = "failed to bind inbound ".to_owned();
                text.append(tag.as_str());
                text.append(": ");
                text.append(source.message.as_str());
                text
            },
            CoreServiceError::UnsupportedFeature { tag, message } => {
                let mut text = "inbound ".to_owned();
                text.append(tag.as_str());
                text.append(" unsupported feature: ");
                text.append(message.as_str());
                text
            },
            CoreServiceError::UnsupportedProtocol { tag, protocol } => {
                let name = protocol_name(*protocol);
                let mut text = "inbound ".to_owned();
                text.append(tag.as_str());
                text.append(" protocol ");
                text.append(name.as_str());
                text.append(" is not implemented in keli-core-rs yet");
                text
            },
        }
    }

    /// Whether the error is that an inbound could not be bound for a reason.
    pub open spec fn is_bind(&self, tag: Seq<char>, source: ErrorModel) -> bool {
        match self {
            CoreServiceError::Bind { tag: t, source: s } => t@ == tag && s@ == source,
            _ => false,
        }
    }
}

/// The error that an inbound could not be bound for a reason.
pub fn bind_error(tag: &str, source: CoreError) -> (r: CoreServiceError)
    ensures
        r.is_bind(tag@, source@),
{
    CoreServiceError::Bind { tag: tag.to_owned(), source }
}

} // verus!
