//! A connected player: its name, the channel to its connection, and the
//! channel of commands it sends.
use vstd::prelude::*;
use tokio::sync::mpsc::{UnboundedReceiver, UnboundedSender};
use crate::protocol::proto::{ClientCommand, ServerCommand};
use crate::text::push_str;

verus! {

#[verifier::external_type_specification]
#[verifier::external_body]
#[verifier::reject_recursive_types(T)]
pub struct ExUnboundedSender<T>(UnboundedSender<T>);

#[verifier::external_type_specification]
#[verifier::external_body]
#[verifier::reject_recursive_types(T)]
pub struct ExUnboundedReceiver<T>(UnboundedReceiver<T>);

/// `UnboundedSender::clone` gives another sender to the same channel (the
/// derived `Clone` of `SessionHandle` calls it); nothing is stated of the
/// result.
pub assume_specification<T>[ <UnboundedSender<T> as Clone>::clone ](
    tx: &UnboundedSender<T>,
) -> UnboundedSender<T>;

/// Calls `UnboundedSender::is_closed`: whether the receiving side is gone.
/// That depends on the other task, so nothing is stated of the result.
#[verifier::external_body]
fn sender_is_closed<T>(tx: &UnboundedSender<T>) -> bool {
    tx.is_closed()
}

/// Calls `UnboundedReceiver::is_closed`: whether every sender is gone or the
/// receiver was closed. That depends on other tasks, so nothing is stated.
#[verifier::external_body]
fn receiver_is_closed<T>(rx: &UnboundedReceiver<T>) -> bool {
    rx.is_closed()
}

/// Calls `UnboundedSender::send`. It fails only when the receiving side is
/// gone, which depends on the other task, so which outcome comes is not
/// stated. Claimed: a failure carries the text that tokio's `SendError`
/// displays, `channel closed`.
#[verifier::external_body]
fn sender_send<T>(tx: &UnboundedSender<T>, value: T) -> (r: Result<(), String>)
    ensures
        r matches Err(e) ==> e@ == "channel closed"@,
{
    match tx.send(value) {
        Ok(()) => Ok(()),
        Err(e) => Err(format!("{e}")),
    }
}

/// The server's side of a connection: the player's name and the channel
/// on which commands go out to the connection.
#[derive(Debug, Clone)]
pub struct SessionHandle {
    pub player_name: String,
    pub tx: UnboundedSender<ServerCommand>,
}

/// The refusal of a send: the text of the channel's error, after a fixed
/// prefix.
pub open spec fn send_failure_text() -> Seq<char> {
    "Failed to send command to session: "@ + "channel closed"@
}

impl SessionHandle {
    /// A handle for `player_name` writing to `tx`.
    pub fn new(player_name: String, tx: UnboundedSender<ServerCommand>) -> (r: SessionHandle)
        ensures
            r.player_name == player_name,
            r.tx == tx,
    {
        SessionHandle { player_name, tx }
    }

    /// Sends a command to the connection.
    pub fn send(&self, cmd: ServerCommand) -> (r: Result<(), String>)
        ensures
            r matches Err(e) ==> e@ == send_failure_text(),
    {
        match sender_send(&self.tx, cmd) {
            Ok(()) => Ok(()),
            Err(e) => {
                let mut text = String::from_str("Failed to send command to session: ");
                push_str(&mut text, e.as_str());
                Err(text)
            },
        }
    }

    /// Whether the connection has gone away.
    pub fn is_closed(&self) -> bool {
        sender_is_closed(&self.tx)
    }
}

/// A player taking part in play: the outgoing handle and the stream of its
/// commands.
#[derive(Debug)]
pub struct ActivePlayerSession {
    pub handle: SessionHandle,
    pub rx: UnboundedReceiver<ClientCommand>,
}

impl ActivePlayerSession {
    /// Whether either direction of the connection has gone away.
    pub fn is_closed(&self) -> bool {
        self.handle.is_closed() || receiver_is_closed(&self.rx)
    }
}

} // verus!
