//! Decisions of a Bluetooth applet: how devices are named, ordered and
//! reconnected, how requests run, and what the user is told.
//!
//! The library does no I/O. It takes what BlueZ, the `rfkill` tool and the
//! channels of the applet delivered, and says what to do next.

pub mod active;
pub mod address;
pub mod agent;
pub mod backoff;
pub mod changes;
pub mod device;
pub mod event;
pub mod listening;
pub mod listing;
pub mod order;
pub mod passkey;
pub mod places;
pub mod power;
pub mod property;
pub mod request;
pub mod rfkill;
pub mod session;
pub mod state;
pub mod text;
