//! Command and response codes of the media-driver control protocol.
use vstd::prelude::*;

verus! {

/// Commands sent from clients to the media driver.
#[derive(Clone, Copy, Debug, PartialEq, Eq, Structural)]
pub enum ClientCommand {
    /// Add a publication.
    AddPublication,
    /// Remove a publication.
    RemovePublication,
    /// Add an exclusive publication.
    AddExclusivePublication,
    /// Add a subscriber.
    AddSubscription,
    /// Remove a subscriber.
    RemoveSubscription,
    /// Keepalive from a client.
    ClientKeepalive,
    /// Add a destination to an existing publication.
    AddDestination,
    /// Remove a destination from an existing publication.
    RemoveDestination,
    /// Add a counter to the counters manager.
    AddCounter,
    /// Remove a counter from the counters manager.
    RemoveCounter,
    /// Close indication from a client.
    ClientClose,
    /// Add a destination for an existing subscription.
    AddRcvDestination,
    /// Remove a destination for an existing subscription.
    RemoveRcvDestination,
    /// Request the driver to terminate.
    TerminateDriver,
}

/// Wire code of a client command.
pub open spec fn spec_client_command_code(c: ClientCommand) -> u32 {
    match c {
        ClientCommand::AddPublication => 0x01,
        ClientCommand::RemovePublication => 0x02,
        ClientCommand::AddExclusivePublication => 0x03,
        ClientCommand::AddSubscription => 0x04,
        ClientCommand::RemoveSubscription => 0x05,
        ClientCommand::ClientKeepalive => 0x06,
        ClientCommand::AddDestination => 0x07,
        ClientCommand::RemoveDestination => 0x08,
        ClientCommand::AddCounter => 0x09,
        ClientCommand::RemoveCounter => 0x0A,
        ClientCommand::ClientClose => 0x0B,
        ClientCommand::AddRcvDestination => 0x0C,
        ClientCommand::RemoveRcvDestination => 0x0D,
        ClientCommand::TerminateDriver => 0x0E,
    }
}

impl ClientCommand {
    /// Wire code of this command.
    pub fn code(self) -> (r: u32)
        ensures
            r == spec_client_command_code(self),
    {
        match self {
            ClientCommand::AddPublication => 0x01,
            ClientCommand::RemovePublication => 0x02,
            ClientCommand::AddExclusivePublication => 0x03,
            ClientCommand::AddSubscription => 0x04,
            ClientCommand::RemoveSubscription => 0x05,
            ClientCommand::ClientKeepalive => 0x06,
            ClientCommand::AddDestination => 0x07,
            ClientCommand::RemoveDestination => 0x08,
            ClientCommand::AddCounter => 0x09,
            ClientCommand::RemoveCounter => 0x0A,
            ClientCommand::ClientClose => 0x0B,
            ClientCommand::AddRcvDestination => 0x0C,
            ClientCommand::RemoveRcvDestination => 0x0D,
            ClientCommand::TerminateDriver => 0x0E,
        }
    }

    /// The command a wire code stands for, if any.
    pub fn from_code(value: u32) -> (r: Option<ClientCommand>)
        ensures
            r matches Some(c) ==> spec_client_command_code(c) == value,
            !(0x01 <= value <= 0x0E) ==> r is None,
    {
        if value == 0x01 {
            Some(ClientCommand::AddPublication)
        } else if value == 0x02 {
            Some(ClientCommand::RemovePublication)
        } else if value == 0x03 {
            Some(ClientCommand::AddExclusivePublication)
        } else if value == 0x04 {
            Some(ClientCommand::AddSubscription)
        } else if value == 0x05 {
            Some(ClientCommand::RemoveSubscription)
        } else if value == 0x06 {
            Some(ClientCommand::ClientKeepalive)
        } else if value == 0x07 {
            Some(ClientCommand::AddDestination)
        } else if value == 0x08 {
            Some(ClientCommand::RemoveDestination)
        } else if value == 0x09 {
            Some(ClientCommand::AddCounter)
        } else if value == 0x0A {
            Some(ClientCommand::RemoveCounter)
        } else if value == 0x0B {
            Some(ClientCommand::ClientClose)
        } else if value == 0x0C {
            Some(ClientCommand::AddRcvDestination)
        } else if value == 0x0D {
            Some(ClientCommand::RemoveRcvDestination)
        } else if value == 0x0E {
            Some(ClientCommand::TerminateDriver)
        } else {
            None
        }
    }
}

/// Responses from the media driver to client commands.
#[derive(Clone, Copy, Debug, PartialEq, Eq, Structural)]
pub enum DriverResponse {
    /// Error response from attempting a client command operation.
    OnError,
    /// Subscribed image buffers are available.
    OnAvailableImage,
    /// New publication buffers are ready.
    OnPublicationReady,
    /// Operation has succeeded.
    OnOperationSuccess,
    /// An inactive image timed out and was removed.
    OnUnavailableImage,
    /// New exclusive publication buffers are ready.
    OnExclusivePublicationReady,
    /// A new subscription is ready.
    OnSubscriptionReady,
    /// A new counter is ready.
    OnCounterReady,
    /// A counter was removed.
    OnUnavailableCounter,
    /// The client timed out.
    OnClientTimeout,
}

/// Wire code of a driver response.
pub open spec fn spec_driver_response_code(r: DriverResponse) -> u32 {
    match r {
        DriverResponse::OnError => 0x0F01,
        DriverResponse::OnAvailableImage => 0x0F0A,
        DriverResponse::OnPublicationReady => 0x0F02,
        DriverResponse::OnOperationSuccess => 0x0F03,
        DriverResponse::OnUnavailableImage => 0x0F0B,
        DriverResponse::OnExclusivePublicationReady => 0x0F04,
        DriverResponse::OnSubscriptionReady => 0x0F05,
        DriverResponse::OnCounterReady => 0x0F06,
        DriverResponse::OnUnavailableCounter => 0x0F07,
        DriverResponse::OnClientTimeout => 0x0F08,
    }
}

impl DriverResponse {
    /// Wire code of this response.
    pub fn code(self) -> (r: u32)
        ensures
            r == spec_driver_response_code(self),
    {
        match self {
            DriverResponse::OnError => 0x0F01,
            DriverResponse::OnAvailableImage => 0x0F0A,
            DriverResponse::OnPublicationReady => 0x0F02,
            DriverResponse::OnOperationSuccess => 0x0F03,
            DriverResponse::OnUnavailableImage => 0x0F0B,
            DriverResponse::OnExclusivePublicationReady => 0x0F04,
            DriverResponse::OnSubscriptionReady => 0x0F05,
            DriverResponse::OnCounterReady => 0x0F06,
            DriverResponse::OnUnavailableCounter => 0x0F07,
            DriverResponse::OnClientTimeout => 0x0F08,
        }
    }

    /// The response a wire code stands for, if any.
    pub fn from_code(value: u32) -> (r: Option<DriverResponse>)
        ensures
            r matches Some(c) ==> spec_driver_response_code(c) == value,
            !(0x0F01 <= value <= 0x0F0B) || value == 0x0F09 ==> r is None,
    {
        if value == 0x0F01 {
            Some(DriverResponse::OnError)
        } else if value == 0x0F0A {
            Some(DriverResponse::OnAvailableImage)
        } else if value == 0x0F02 {
            Some(DriverResponse::OnPublicationReady)
        } else if value == 0x0F03 {
            Some(DriverResponse::OnOperationSuccess)
        } else if value == 0x0F0B {
            Some(DriverResponse::OnUnavailableImage)
        } else if value == 0x0F04 {
            Some(DriverResponse::OnExclusivePublicationReady)
        } else if value == 0x0F05 {
            Some(DriverResponse::OnSubscriptionReady)
        } else if value == 0x0F06 {
            Some(DriverResponse::OnCounterReady)
        } else if value == 0x0F07 {
            Some(DriverResponse::OnUnavailableCounter)
        } else if value == 0x0F08 {
            Some(DriverResponse::OnClientTimeout)
        } else {
            None
        }
    }
}

} // verus!
