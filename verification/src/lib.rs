//! A multiple-producer, single-consumer message channel built on a
//! shared-memory ring buffer.
//!
//! The heart of the crate is the verified model of the ring protocol:
//! length-prefixed frames, a wrap sentinel, the read and write cursors,
//! and the deferred cursor advance used for zero-copy receives.

pub mod codec;
pub mod context;
pub mod error;
pub mod ring;
pub mod step;
pub mod yuv;

pub use context::ZeroCopyContext;
pub use error::{AlreadyReceived, MessageTooLarge, SendError, ZeroSizedMessage};
pub use ring::{RingBuffer, SendStatus, BEGINNING};
pub use step::{recv_step, send_step, RecvStep, SendStep};
pub use yuv::{OwnedYuvFrame, YuvFrame, YuvFrameInfo};
