//! The Focus protocol: a line-oriented request/reply exchange with a
//! keyboard over a serial link. The library frames requests, plans their paced
//! transmission, decides each step of collecting a reply, and normalizes the
//! reply text; the caller performs the transport's side of every step.

pub mod collect;
pub mod device;
pub mod exchange;
pub mod frame;
pub mod reply;
pub mod send;
pub mod session;

pub use collect::{Phase, ReadAction, ReadEvent, ReplyCollector};
pub use device::{find_device, supported_devices, DeviceDescriptor, PortEntry};
pub use exchange::{Exchange, ExchangeAction, Outcome, Stage};
pub use frame::encode_frame;
pub use reply::{cleanup_reply, normalize_reply};
pub use send::{send_plan, split_chunks, SendStep};
pub use session::Focus;
