//! Client-side engine for a msgpack-rpc style protocol.
//!
//! The crate holds the session engine of an RPC client that talks to one
//! external process over a single byte stream: the structural wire value
//! and its byte codec (with partial-read recovery), the frame rules for
//! requests, responses and notifications, the error taxonomy, the
//! request multiplexer's state (message-id counter and pending-request
//! table), the routing rule of the reading loop, and the ordered
//! delivery lane for redraw notifications. The transport itself — and
//! everything asynchronous around it — stays with the application, which
//! drives these verified pieces.
pub mod compat;
pub mod encode;
pub mod error;
pub mod model;
pub mod parse;
pub mod redraw;
pub mod roundtrip;
pub mod session;
pub mod unpack;
pub mod uioptions;
pub mod value;

pub use crate::compat::Compat;
pub use crate::model::{IntoVal, RpcMessage};
pub use crate::unpack::TryUnpack;
pub use crate::uioptions::{UiAttachOptions, UiOption};
pub use crate::value::WireValue;
