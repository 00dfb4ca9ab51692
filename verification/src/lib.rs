//! ADB transport and session core, verified with Verus: packet framing, the
//! authentication handshake, stream multiplexing, the `sync:` sub-protocol
//! and the directory mirror that drives them.
//!
//! The contracts of the functions that talk to a device are stated over a
//! model of the exchange: [`session::DeviceView`] holds what the link has
//! pending and what was sent, and for each exchange a function of the model
//! says what it does to that state. [`walk::WalkView`] does the same for a
//! whole sync request. The laws that hold of the model stand beside it as
//! proof functions.

pub mod auth;
pub mod bignum;
pub mod device;
pub mod dirs;
pub mod driver;
pub mod error;
pub mod message;
pub mod paths;
pub mod rsa;
pub mod session;
pub mod sync;
pub mod text;
pub mod totals;
pub mod traffic;
pub mod transport;
pub mod tree;
pub mod usb;
pub mod walk;
pub mod wire;
