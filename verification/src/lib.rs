//! [Netlink](https://www.man7.org/linux/man-pages/man7/netlink.7.html) `NETLINK_KOBJECT_UEVENT`
//! packet parser.
//!
//! The [uevents](https://www.kernel.org/doc/html/latest/core-api/kobject.html#uevents) are
//! triggered by `kobject_uevent` and `kobject_uevent_env` to signal a change in the referred
//! kobject.
//!
//! [`UEvent::from_netlink_packet`] reads an event from a packet, [`UEvent::from_sysfs_path`] from
//! what a sysfs directory holds. [`laws`] states what holds of them as a whole, and [`outside`]
//! what is believed of `compact_str` and `std`.

pub mod action;
pub mod error;
pub mod fields;
pub mod laws;
pub mod outside;
pub mod path;
pub mod text;
pub mod uevent;

pub use action::Action;
pub use error::Error;
pub use uevent::{SysfsReads, UEvent};
