//! What the two ends of the socket do with what arrives on it.

use crate::input::InputMessage;
use vstd::prelude::*;

verus! {

/// What arrives at the host.
pub enum HostEvent {
    /// Reading failed.
    Failed,
    /// A text message; `None` where it is no input message.
    Text(Option<InputMessage>),
    /// The viewer closes the connection.
    Close,
    /// Any other message.
    Other,
}

/// What the host does with it.
pub enum HostStep {
    /// Passes the input message on to the thread that performs it.
    Forward(InputMessage),
    /// Reads on.
    ReadOn,
    /// Stops reading.
    Stop,
}

/// What the host does with what arrives: input messages are passed on, a failure or the
/// end of the connection stops the reading, and everything else is passed over.
pub fn host_step(event: HostEvent) -> (res: HostStep)
    ensures
        res == (match event {
            HostEvent::Text(Some(message)) => HostStep::Forward(message),
            HostEvent::Failed => HostStep::Stop,
            HostEvent::Close => HostStep::Stop,
            HostEvent::Text(None) => HostStep::ReadOn,
            HostEvent::Other => HostStep::ReadOn,
        }),
{
    match event {
        HostEvent::Failed => HostStep::Stop,
        HostEvent::Text(parsed) => match parsed {
            Some(message) => HostStep::Forward(message),
            None => HostStep::ReadOn,
        },
        HostEvent::Close => HostStep::Stop,
        HostEvent::Other => HostStep::ReadOn,
    }
}

/// What the viewer's side of the socket comes to.
pub enum ViewerEvent {
    /// The connection has ended.
    Ended,
    /// Reading failed.
    Failed,
    /// A binary message.
    Binary(Vec<u8>),
    /// Any other message.
    Other,
}

/// What the viewer does with it.
pub enum ViewerStep {
    /// Ends, as the connection did.
    Finish,
    /// Ends with an error.
    Fail,
    /// Passes the bytes on to the window.
    Show(Vec<u8>),
    /// Reads on.
    ReadOn,
}

/// What the viewer does with what arrives: binary messages go to the window, the end of
/// the connection or a failure ends it, and everything else is passed over.
pub fn viewer_step(event: ViewerEvent) -> (res: ViewerStep)
    ensures
        res == (match event {
            ViewerEvent::Ended => ViewerStep::Finish,
            ViewerEvent::Failed => ViewerStep::Fail,
            ViewerEvent::Binary(bytes) => ViewerStep::Show(bytes),
            ViewerEvent::Other => ViewerStep::ReadOn,
        }),
{
    match event {
        ViewerEvent::Ended => ViewerStep::Finish,
        ViewerEvent::Failed => ViewerStep::Fail,
        ViewerEvent::Binary(bytes) => ViewerStep::Show(bytes),
        ViewerEvent::Other => ViewerStep::ReadOn,
    }
}

} // verus!
