//! The messages that clients send to the server and that the server sends back.
//!
//! On the wire each message is a JSON object `{"event": <name>, "data": <payload>}`, the
//! event name in snake case; framing and JSON live with the network layer.

use vstd::prelude::*;

verus! {

/// Payload of an incoming `echo` event.
#[derive(Debug, Clone, PartialEq, Eq)]
pub struct MsgInEchoData {
    pub message: String,
}

/// Payload of an outgoing `on_echo` event.
#[derive(Debug, Clone, PartialEq, Eq)]
pub struct MsgOutEchoData {
    pub message: String,
}

/// Payload of an incoming `auth` event.
///
/// - `user_identifier`: the unique token of the user
/// - `device_id`: the device the user connects from
#[derive(Debug, Clone, PartialEq, Eq)]
pub struct MsgInAuthData {
    pub user_identifier: String,
    pub device_id: String,
}

/// Payload of an outgoing `on_auth` event.
#[derive(Debug, Clone, PartialEq, Eq)]
pub struct MsgOutAuthData {
    pub success: bool,
    pub access_token: String,
}

/// Payload of an incoming `ping` event.
#[derive(Debug, Clone, PartialEq, Eq)]
pub struct MsgInPingData {
    pub timestamp: u64,
}

/// Payload of an outgoing `on_pong` event: the timestamp of the ping it answers.
#[derive(Debug, Clone, PartialEq, Eq)]
pub struct MsgOutPongData {
    pub timestamp: u64,
}

/// A message from a client.
#[derive(Debug, Clone, PartialEq, Eq)]
pub enum MsgIn {
    Echo(MsgInEchoData),
    Ping(MsgInPingData),
    Auth(MsgInAuthData),
}

/// A message to a client.
#[derive(Debug, Clone, PartialEq, Eq)]
pub enum MsgOut {
    OnEcho(MsgOutEchoData),
    OnPong(MsgOutPongData),
    OnAuth(MsgOutAuthData),
}

/// The abstract content of an outgoing message, its text taken as characters.
pub enum MsgOutView {
    OnEcho { message: Seq<char> },
    OnPong { timestamp: u64 },
    OnAuth { success: bool, access_token: Seq<char> },
}

impl View for MsgOut {
    type V = MsgOutView;

    open spec fn view(&self) -> MsgOutView {
        match self {
            MsgOut::OnEcho(d) => MsgOutView::OnEcho { message: d.message@ },
            MsgOut::OnPong(d) => MsgOutView::OnPong { timestamp: d.timestamp },
            MsgOut::OnAuth(d) => MsgOutView::OnAuth { success: d.success, access_token: d.access_token@ },
        }
    }
}

/// The abstract contents of a sequence of outgoing messages.
pub open spec fn msg_out_views(s: Seq<MsgOut>) -> Seq<MsgOutView> {
    s.map_values(|m: MsgOut| m@)
}

} // verus!
