//! Which transport channel carries which Replicon channel.

use vstd::prelude::*;

verus! {

/// The number under which a transport receives a channel.
pub type ChannelId = u16;

/// The number under which a transport sends on a channel.
pub type ChannelKind = u64;

/// The transport channels of the Replicon channels, by Replicon channel index.
pub struct RepliconChannelMap {
    /// The channels on which the server sends.
    pub server_channels: Vec<(ChannelKind, ChannelId)>,
    /// The channels on which the clients send.
    pub client_channels: Vec<(ChannelKind, ChannelId)>,
}

} // verus!
