//! Transport-level protocol of the Misty RPC framework, together with the schema
//! model and the workspace validator that the code generators build on.
//!
//! The protocol part turns a pair of ordered byte streams into a typed exchange:
//! `Head, Data*, Tail` frames, a length-prefixed codec, and a router that performs
//! the handshake and dispatches to a registered handler.
pub mod ast;
pub mod codec;
pub mod error;
pub mod frame;
pub mod router;
pub mod status;
pub mod validator;
pub mod wire;

pub use ast::{ContainerType, DataType, Definition, Enum, Field, File, Function, Interface, Schema};
pub use codec::{MistyCodec, DEFAULT_MAX_FRAME_LENGTH};
pub use error::NetError;
pub use frame::{Frame, HeadFrame, TailFrame};
pub use router::{handshake, tail_frame, Handshake, RouteAction, Router};
pub use status::Status;
pub use validator::{attest_imports, resolve_data_type, Modules, ValidationError, Workspace};
