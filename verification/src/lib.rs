//! Driver core for an RTL8139-class Ethernet controller.
//!
//! The controller is exposed as a multiplexed, file-like channel: several
//! independent open handles share one physical device. Received frames are
//! fanned out to every attached channel; outbound frames are drained from the
//! channels into the four hardware transmit slots in round-robin order.
//!
//! All hardware access (port I/O, interrupt masking, physical allocation and
//! the cooperative scheduler) happens outside this crate. The functions here
//! take register values and ring-buffer contents as plain data and return the
//! register writes and transmit submissions to perform, so the whole decision
//! logic of the driver is verified. Callers in kernel context must run every
//! operation that touches a device under the interrupt-disabling critical
//! section, exactly as the contracts assume a single uninterrupted mutation.
#![verifier::loop_isolation(false)]

pub mod frames;
pub mod registry;
pub mod ring;
pub mod device;
pub mod regs;
pub mod resource;
pub mod tx;

pub use device::RTL8139;
pub use frames::FrameQueue;
pub use regs::{MacAddr, RegWrite};
pub use registry::{Channel, ChannelView, Registry, RegistryView};
pub use resource::{ResourceSeek, ResourceType, RTL8139Resource};
pub use tx::TxSend;
