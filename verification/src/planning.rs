//! The ground station's side of the link: what the planning server makes of
//! each frame it receives before handing it to its subscribers.

use vstd::prelude::*;
use crate::envelope::{decode, spec_decode, Envelope, Message};

verus! {

/// The ground station's server: the address it listens on.
#[derive(Clone, Debug, PartialEq, Eq)]
pub struct PlanningServer {
    ip: String,
    port: String,
}

/// The message that subscribers see for a received frame: the one the frame
/// encodes, or `Empty` if the frame encodes none.
pub open spec fn received(frame: Seq<u8>) -> Message {
    match spec_decode(frame) {
        Ok(message) => message,
        Err(_) => Message::Empty,
    }
}

impl PlanningServer {
    /// The address this server listens on, as host and port.
    pub closed spec fn address(&self) -> (Seq<char>, Seq<char>) {
        (self.ip@, self.port@)
    }

    /// A server for the given host and port.
    pub fn new(ip: String, port: String) -> (server: PlanningServer)
        ensures
            server.address() == (ip@, port@),
    {
        PlanningServer { ip, port }
    }

    /// The host this server listens on.
    pub fn get_ip(&self) -> (ip: &String)
        ensures
            ip@ == self.address().0,
    {
        &self.ip
    }

    /// The port this server listens on.
    pub fn get_port(&self) -> (port: &String)
        ensures
            port@ == self.address().1,
    {
        &self.port
    }

    /// An envelope without content.
    pub fn empty_sheath() -> (envelope: Option<Envelope>)
        ensures
            envelope matches Some(e) && e@ == Message::Empty,
    {
        Some(Envelope::Empty)
    }

    /// The envelope to publish for one received frame: the decoded envelope,
    /// or an empty one where the frame does not decode. A frame that fails to
    /// decode never ends the connection.
    pub fn recv_and_decode(frame: &[u8]) -> (envelope: Envelope)
        ensures
            envelope@ == received(frame@),
            envelope@.wf(),
    {
        match decode(frame) {
            Ok(envelope) => envelope,
            Err(_) => Envelope::Empty,
        }
    }
}

} // verus!
