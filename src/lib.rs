//! Reconstruction of an execution timeline from decoded ITM / DWT trace packets.
//!
//! Packets are coalesced, grouped into batches by local timestamps, and each batch
//! is interpreted into duration and instant events on priority lanes.

pub mod packet;
pub mod coalesce;
pub mod device;
pub mod event;
pub mod tracer;
