//! An in-process, type-erased publish/subscribe message dispatcher.
//!
//! Consumers register observers interested in specific message kinds, and
//! publishing a message synchronously invokes every matching observer.
//! An observer may, while handling one message, emit further messages,
//! which are dispatched breadth-first before the originating publish call
//! returns.

pub mod context;
pub mod message;
pub mod model;
pub mod observer;
pub mod system;
pub mod wrapper;
