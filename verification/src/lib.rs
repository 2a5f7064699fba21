//! Virtio memory-balloon device: the queue data path, the device's
//! configuration register and the control commands, with their contracts.

pub mod command;
pub mod device;
pub mod ledger;
pub mod outside;
pub mod pfn;
pub mod queue_handler;
pub mod simple_handler;
