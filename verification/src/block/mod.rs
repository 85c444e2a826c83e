//! The block layer.

pub mod bio;
pub mod device;
pub mod id;
pub mod request_queue;
