//! The framing that mixes raw serial data with structured messages.

pub mod encode;
pub mod message;
pub mod parser;

pub use encode::{encode_control, encode_data, encode_message, encode_response};
pub use message::{
    ControlMessage, ErrorResponse, EventResponse, ResponseMessage, ServerInfoResponse,
    StatusResponse,
};
pub use parser::{MessageKind, ParseEvent, Parser, MAX_MESSAGE_SIZE};
