//! A typed request/response protocol for querying the block-storage topology
//! of a host: disks, loopback devices, partitions and filesystem superblocks.
//!
//! [`schema`] holds the wire-level data model, [`source`] the plain-value
//! picture of what device enumeration and superblock probing report,
//! [`translate`] the total mapping from the second to the first, [`wire`] a
//! length-framed binary encoding of requests and responses, and [`dispatch`]
//! the two-state machine that pairs every request it processes with one
//! response.
//!
//! Every contract is stated over the mathematical views of the values
//! involved and is proved by Verus. The one exception is the conversion of
//! bytes into a `String` during decoding, whose contract restates the
//! documentation of the standard library.
pub mod schema;
pub mod source;
pub mod translate;
pub mod wire;
pub mod dispatch;

pub use crate::dispatch::{Action, Dispatcher, DispatcherState};
pub use crate::schema::{BlockDevice, BlockDeviceKind, Partition, Request, Response, Superblock};
pub use crate::source::{Device, Disk, FieldRead, Loopback, ProbedSuperblock, SourcePartition};
