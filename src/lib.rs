//! A fixed-capacity queue that many threads can share through cloneable handles.
//!
//! [`RingBuffer`] is the circular store; [`Channel`] is a handle that shares one store among
//! all of its clones and every thread that holds one. [`laws`] states what any order of
//! insertion and removal attempts does to a store.

pub mod channel;
pub mod laws;
pub mod ring_buffer;

pub use channel::Channel;
pub use ring_buffer::RingBuffer;
