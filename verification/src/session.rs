//! The decisions of a session's handshake and of its incoming streams.
use vstd::prelude::*;

use crate::error::Error;
use crate::message::ControlType;

verus! {

/// Check the first stream a server accepts: it must be the session stream.
pub fn accept_stream(kind: ControlType) -> (r: Result<(), Error>)
    ensures
        kind == ControlType::Session ==> r is Ok,
        kind != ControlType::Session ==> (r matches Err(Error::UnexpectedStream(k)) && k == kind),
{
    match kind {
        ControlType::Session => Ok(()),
        _ => Err(Error::UnexpectedStream(kind)),
    }
}

/// Agree on a version: the server's own, which the client must support.
/// Otherwise the error names the client's versions and the server's.
pub fn accept_setup(versions: Vec<u64>, current: u64) -> (r: Result<u64, Error>)
    ensures
        versions@.contains(current) ==> r == Ok::<u64, Error>(current),
        !versions@.contains(current) ==> (r matches Err(Error::Version(client, server)) && client@ == versions@
            && server@ == seq![current]),
{
    let mut i: usize = 0;
    while i < versions.len()
        invariant
            i <= versions@.len(),
            forall|k: int| 0 <= k < i ==> versions@[k] != current,
        decreases versions@.len() - i,
    {
        if versions[i] == current {
            return Ok(current);
        }
        i = i + 1;
    }
    let mut server: Vec<u64> = Vec::new();
    server.push(current);
    Err(Error::Version(versions, server))
}

/// What a control stream opened by the peer asks for.
#[derive(Debug, Clone, Copy, PartialEq, Eq, Structural)]
pub enum Control {
    /// The peer wants to learn of broadcasts.
    Announce,
    /// The peer subscribes to a track.
    Subscribe,
}

/// Dispatch a control stream opened by the peer: a second session stream is
/// refused.
pub fn run_control(kind: ControlType) -> (r: Result<Control, Error>)
    ensures
        kind == ControlType::Session ==> (r matches Err(Error::UnexpectedStream(k)) && k == kind),
        kind == ControlType::Announce ==> r == Ok::<Control, Error>(Control::Announce),
        kind == ControlType::Subscribe ==> r == Ok::<Control, Error>(Control::Subscribe),
{
    match kind {
        ControlType::Session => Err(Error::UnexpectedStream(kind)),
        ControlType::Announce => Ok(Control::Announce),
        ControlType::Subscribe => Ok(Control::Subscribe),
    }
}

} // verus!
