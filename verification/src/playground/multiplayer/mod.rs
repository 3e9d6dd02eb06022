//! Players on other machines.

pub mod client;
pub mod server;
pub mod types;

use vstd::prelude::*;

verus! {

/// How a channel carries messages.
#[derive(Clone, Copy, Debug, PartialEq, Eq, Structural)]
pub struct ChannelSettings {
    pub channel: u8,
    pub reliable: bool,
    pub message_buffer_size: usize,
    pub packet_buffer_size: usize,
}

/// The two channels: what clients say, and what the server says. Either may lose messages.
pub fn network_setup() -> (channels: (ChannelSettings, ChannelSettings))
    ensures
        channels.0 == (ChannelSettings {
            channel: 0,
            reliable: false,
            message_buffer_size: 60,
            packet_buffer_size: 60,
        }),
        channels.1 == (ChannelSettings { channel: 1, ..channels.0 }),
{
    let client: ChannelSettings = ChannelSettings {
        channel: 0,
        reliable: false,
        message_buffer_size: 60,
        packet_buffer_size: 60,
    };
    (client, ChannelSettings { channel: 1, ..client })
}

} // verus!
