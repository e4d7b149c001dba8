//! Catalog and player types: the size of a video, what a viewer can decode,
//! and the events a player reports.
use vstd::prelude::*;

verus! {

/// The width and height of a video, in pixels.
#[derive(Debug, PartialEq, Eq, Structural, Clone, Copy, Default)]
pub struct Dimensions {
    pub width: u32,
    pub height: u32,
}

/// What a viewer can decode, for video and for audio.
#[derive(Debug, PartialEq, Eq, Default)]
pub struct Capabilities {
    pub video: VideoCapabilities,
    pub audio: AudioCapabilities,
}

/// Video codecs, each written as its codec string.
#[derive(Debug, PartialEq, Eq, Default)]
pub struct VideoCapabilities {
    /// The codecs we think we can decode with hardware acceleration.
    pub hardware: Vec<String>,
    /// The codecs we think we can decode in software.
    pub software: Vec<String>,
    /// The codecs we know we cannot decode.
    pub unsupported: Vec<String>,
}

/// Audio codecs, each written as its codec string.
#[derive(Debug, PartialEq, Eq, Default)]
pub struct AudioCapabilities {
    /// The codecs we think we can decode with hardware acceleration.
    pub hardware: Vec<String>,
    /// The codecs we think we can decode in software.
    pub software: Vec<String>,
    /// The codecs we know we cannot decode.
    pub unsupported: Vec<String>,
}

/// The state of a player's connection.
#[derive(Debug, PartialEq, Eq)]
pub enum ConnectionStatus {
    Disconnected,
    Connecting,
    Connected,
    Live,
    Offline,
    Error(String),
}

/// An event a player reports.
#[derive(Debug, PartialEq, Eq)]
pub enum Event {
    Init,
    Connection(ConnectionStatus),
}

impl From<ConnectionStatus> for Event {
    fn from(status: ConnectionStatus) -> (r: Self) {
        Event::Connection(status)
    }
}

impl vstd::std_specs::convert::FromSpecImpl<ConnectionStatus> for Event {
    open spec fn obeys_from_spec() -> bool {
        true
    }

    open spec fn from_spec(status: ConnectionStatus) -> Event {
        Event::Connection(status)
    }
}

} // verus!
