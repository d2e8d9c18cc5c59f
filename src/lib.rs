//! Core of a native event loop bridged to a managed host with isolates: the
//! run loop's queues, the registry tying native resources to the host's
//! garbage collector, and the routing of messages to isolates.
use vstd::prelude::*;

pub mod context;
pub mod event_channel;
pub mod finalizable_handle;
mod keyed;
pub mod message_channel;
pub mod run_loop;
pub mod task;
pub mod value;

pub use context::{Attachment, AttachmentRegistry};
pub use event_channel::{
    EventChannelAction, EventChannelState, EventHandler, EventSink, RegisteredEventChannel,
};
pub use finalizable_handle::{
    finalize_handle, AttachOutcome, FinalizableHandle, FinalizableObjectState, HandleRegistry,
};
pub use message_channel::{
    encode_method_call, encode_method_result, unpack_result, FunctionResult, MessageChannel,
    MessageChannelDelegate, MethodCallError, MockIsolate, MockMethodCall, PlatformError,
    PlatformResult, PostMessageError, RegisteredMockIsolate, SendMessageError,
};
pub use run_loop::{PendingExecution, RunLoopState, Timer, INVALID_HANDLE};
pub use task::{send_and_wait_mode, SendMode, TaskSlot};
pub use value::Value;

verus! {

/// Identifier the host assigns to an isolate.
pub type IsolateId = i64;

} // verus!
