//! The decisions of a real-time subscriber connection: what to send for each
//! broadcast event and client message, and when to close.
use vstd::prelude::*;

verus! {

/// What the connection observed since the last step.
#[derive(Debug)]
pub enum SocketInput {
    /// A broadcast event encoded as JSON text; `None` when the channel could
    /// not deliver it (closed or lagging) or it could not be encoded.
    Broadcast(Option<String>),
    /// The client asked to close.
    Close,
    /// The client sent a ping with this payload.
    Ping(Vec<u8>),
    /// The client sent any other message.
    Other,
    /// Reading from the client failed.
    ReadFailed,
    /// The client stream ended.
    Ended,
    /// Sending to the client failed.
    SendFailed,
}

/// What the connection does next.
#[derive(Debug)]
pub enum SocketAction {
    /// Send this text to the client, then keep going.
    SendText(String),
    /// Answer with a pong carrying this payload, then keep going.
    SendPong(Vec<u8>),
    /// Nothing to send; keep going.
    Continue,
    /// Close the connection.
    Stop,
}

/// One step of the connection loop: forward each encoded event, answer a
/// ping with the same payload, ignore other client messages, and stop on a
/// close, the end of the stream, or any failure.
pub fn socket_step(input: SocketInput) -> (action: SocketAction)
    ensures
        input matches SocketInput::Broadcast(Some(text)) ==> action == SocketAction::SendText(text),
        input matches SocketInput::Ping(payload) ==> action == SocketAction::SendPong(payload),
        input is Other ==> action is Continue,
        input matches SocketInput::Broadcast(None) ==> action is Stop,
        input is Close || input is ReadFailed || input is Ended || input is SendFailed ==> action is Stop,
{
    match input {
        SocketInput::Broadcast(Some(text)) => SocketAction::SendText(text),
        SocketInput::Ping(payload) => SocketAction::SendPong(payload),
        SocketInput::Other => SocketAction::Continue,
        _ => SocketAction::Stop,
    }
}

} // verus!
