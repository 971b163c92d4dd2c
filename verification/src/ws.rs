//! Decisions of the websocket session of the web interface.
//!
//! The session waits for either a message from the browser or a batch of
//! measurements from the control loop; [`handle_event`] decides what each
//! of them calls for. Sending, receiving and applying a command to the
//! shared target values are left to the caller.

use vstd::prelude::*;
use vstd::slice::slice_to_vec;
use vstd::string::StringSliceAdditionalSpecFns;
use crate::command::command_meaning;
use crate::command::parse_command;
use crate::command::Command;
use crate::command::CommandError;
use crate::command::CommandView;

verus! {

/// What the session received.
pub enum WsEvent<'a> {
    /// A text message from the browser.
    Text(&'a str),
    /// A binary message from the browser.
    Binary,
    /// The browser closed the session.
    Close,
    /// A ping from the browser, with its payload.
    Ping(&'a [u8]),
    /// A pong from the browser.
    Pong,
    /// Reading a message failed with this websocket close code.
    ReadError(u16),
    /// A batch of measurements is ready to be streamed.
    BatchReady,
}

/// What the session does next.
#[derive(Debug, PartialEq, Eq)]
pub enum WsAction {
    /// Apply this command to the shared targets, then go on.
    Apply(Command),
    /// Answer the ping with a pong that carries this payload, then go on.
    SendPong(Vec<u8>),
    /// Send the batch to the browser as one binary message, release it,
    /// then go on.
    ForwardBatch,
    /// Close the session; with a code, the reason is [`ERROR_CLOSE_REASON`].
    Close(Option<u16>),
    /// Nothing to do; go on.
    Continue,
}

/// The reason sent when the session closes after a failed read.
pub const ERROR_CLOSE_REASON: &'static str = "Websocket Error";

/// What the session does on `event`; a text message whose command is
/// refused yields the refusal.
pub fn handle_event(event: WsEvent<'_>) -> (result: Result<WsAction, CommandError>)
    ensures
        match event {
            WsEvent::Text(t) => match result {
                Ok(WsAction::Apply(c)) => command_meaning(t.spec_bytes()) == Ok::<
                    CommandView,
                    CommandError,
                >(c@),
                Ok(_) => false,
                Err(e) => command_meaning(t.spec_bytes()) == Err::<CommandView, CommandError>(e),
            },
            WsEvent::Binary => result == Ok::<WsAction, CommandError>(WsAction::Continue),
            WsEvent::Close => result == Ok::<WsAction, CommandError>(WsAction::Close(None)),
            WsEvent::Ping(payload) => match result {
                Ok(WsAction::SendPong(pong)) => pong@ == payload@,
                _ => false,
            },
            WsEvent::Pong => result == Ok::<WsAction, CommandError>(WsAction::Continue),
            WsEvent::ReadError(code) => result == Ok::<WsAction, CommandError>(
                WsAction::Close(Some(code)),
            ),
            WsEvent::BatchReady => result == Ok::<WsAction, CommandError>(WsAction::ForwardBatch),
        },
{
    match event {
        WsEvent::Text(t) => match parse_command(t) {
            Ok(c) => Ok(WsAction::Apply(c)),
            Err(e) => Err(e),
        },
        WsEvent::Binary => Ok(WsAction::Continue),
        WsEvent::Close => Ok(WsAction::Close(None)),
        WsEvent::Ping(payload) => Ok(WsAction::SendPong(slice_to_vec(payload))),
        WsEvent::Pong => Ok(WsAction::Continue),
        WsEvent::ReadError(code) => Ok(WsAction::Close(Some(code))),
        WsEvent::BatchReady => Ok(WsAction::ForwardBatch),
    }
}

} // verus!
