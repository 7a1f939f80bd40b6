//! The error taxonomy of the registry.

use vstd::prelude::*;

verus! {

/// Errors returned by the operations of a `PubSub`.
///
/// Every failure is returned synchronously to the caller; the registry
/// leaves its state unchanged on any error path.
#[derive(Debug, Clone, Copy, PartialEq, Eq)]
pub enum PubSubError {
    /// Subscribe was called for an identifier/channel pair already present.
    ClientAlreadySubscribedError,
    /// Unsubscribe was called for an identifier not present in an existing
    /// channel's subscriber set.
    ClientNotSubscribedError,
    /// Unsubscribe was called on a channel name for which no subscriber set
    /// has ever been created in the relevant table.
    ChannelDoesNotExistError,
    /// Reserved for stricter registry variants that reject duplicate
    /// registration.
    ClientWithIdentifierAlreadyExistsError,
    /// Reserved for stricter registry variants that require prior
    /// registration.
    ClientDoesNotExistError,
}

impl PubSubError {
    /// The human-readable description of the error, as a view.
    pub open spec fn message_spec(&self) -> Seq<char> {
        match self {
            PubSubError::ClientAlreadySubscribedError => "Client already subscribed to channel."@,
            PubSubError::ClientNotSubscribedError => "Client is not subscribed to channel."@,
            PubSubError::ChannelDoesNotExistError => "Channel does not exist."@,
            PubSubError::ClientWithIdentifierAlreadyExistsError => "Client with that identifier already exists."@,
            PubSubError::ClientDoesNotExistError => "Client does not exist."@,
        }
    }

    /// A human-readable description of the error.
    pub fn message(&self) -> (r: &'static str)
        ensures
            r@ == self.message_spec(),
    {
        match self {
            PubSubError::ClientAlreadySubscribedError => "Client already subscribed to channel.",
            PubSubError::ClientNotSubscribedError => "Client is not subscribed to channel.",
            PubSubError::ChannelDoesNotExistError => "Channel does not exist.",
            PubSubError::ClientWithIdentifierAlreadyExistsError => "Client with that identifier already exists.",
            PubSubError::ClientDoesNotExistError => "Client does not exist.",
        }
    }
}

} // verus!
