//! Message types exchanged between clients and the environment.

use vstd::prelude::*;
use arrayvec::ArrayString;
use crate::inclination::Inclination;

verus! {

/// The longest window title a request can carry, in bytes.
pub const WINDOW_TITLE_MAX: usize = 64;

/// A fixed-capacity string, as carried by a window request.
#[verifier::external_type_specification]
#[verifier::external_body]
pub struct ExArrayString<const CAP: usize>(ArrayString<CAP>);

#[derive(Debug)]
pub struct Message {
    pub code: [u8; 4],
    pub sender: u32,
    pub data: MessageData,
}

#[derive(Debug)]
pub enum MessageData {
    Info,
    Warning,
    Error,
}

/// A request is a [message](crate::message::Message) that expects a response.
///
/// Because of this need for a synchronous response from the environment, they are sent across a
/// different channel from the normal messages.
#[derive(Debug)]
pub struct Request {
    pub code: [u8; 4],
    pub sender: u32,
    pub data: RequestData,
}

#[derive(Debug)]
pub enum RequestData {
    EstablishConnection {},
    CreateWindow { title: ArrayString<WINDOW_TITLE_MAX> },
    CloseWindow { id: u64 },
}

#[derive(Debug)]
pub struct Reply {
    pub success: bool,
    pub data: ReplyData,
}

#[derive(Debug)]
pub enum ReplyData {
    /// Null reply.
    Null,
    WindowCreated(u64),
}

#[derive(Debug)]
pub struct DeviceInput {
    pub source: u32,
    pub device: u32,
    pub code: u32,
    pub state: bool,
}

#[derive(Debug)]
pub enum UserInput {
    Move(Inclination),
}

pub enum WindowInput {
    Closed,
    Device(DeviceInput),
    User(UserInput),
}

} // verus!
