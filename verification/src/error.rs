//! The broker's errors.

use vstd::prelude::*;

verus! {

/// Why the broker could not do what it was asked.
#[derive(Clone, Copy, Debug, PartialEq, Eq, Structural)]
pub enum BrokerError {
    /// The directory holds no record of the connection, or none that fits.
    NotFound,
    /// An admin role was asked for with the wrong password.
    Unauthorized,
    /// The admin role belongs to another connection.
    AlreadyBound,
    /// The role has no partner role of the kind that was looked for.
    UnknownPlayer,
    /// The directory could not take the write.
    StorageUnavailable,
    /// The transport could not say whether the message arrived.
    TransportUnavailable,
    /// The event carries no connection id.
    MissingConnectionId,
    /// The event does not say what kind of event it is.
    MissingEventType,
}

impl BrokerError {
    pub open spec fn text(self) -> Seq<char> {
        match self {
            BrokerError::NotFound => "Missing Connection"@,
            BrokerError::Unauthorized => "Wrong admin password"@,
            BrokerError::AlreadyBound => "Role already taken"@,
            BrokerError::UnknownPlayer => "Unknown player"@,
            BrokerError::StorageUnavailable => "Storage unavailable"@,
            BrokerError::TransportUnavailable => "Transport unavailable"@,
            BrokerError::MissingConnectionId => "Missing Connection ID"@,
            BrokerError::MissingEventType => "Missing Event Type"@,
        }
    }

    /// The error in words.
    pub fn message(self) -> (text: &'static str)
        ensures
            text@ == self.text(),
    {
        match self {
            BrokerError::NotFound => "Missing Connection",
            BrokerError::Unauthorized => "Wrong admin password",
            BrokerError::AlreadyBound => "Role already taken",
            BrokerError::UnknownPlayer => "Unknown player",
            BrokerError::StorageUnavailable => "Storage unavailable",
            BrokerError::TransportUnavailable => "Transport unavailable",
            BrokerError::MissingConnectionId => "Missing Connection ID",
            BrokerError::MissingEventType => "Missing Event Type",
        }
    }

    /// Whether trying again later may succeed.
    pub fn retryable(self) -> (yes: bool)
        ensures
            yes == (self == BrokerError::StorageUnavailable || self
                == BrokerError::TransportUnavailable),
    {
        match self {
            BrokerError::StorageUnavailable | BrokerError::TransportUnavailable => true,
            _ => false,
        }
    }
}

} // verus!
