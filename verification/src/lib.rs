//! Verified core of an X-Plane plugin that streams GDL90 position data to
//! electronic flight bags: the bookkeeping of broadcast targets, the send
//! schedule, the settings that the window edits and the dataref browser.
//! Drawing, sockets, the simulator and the encoders live around it.

pub mod addr;
pub mod socket;
pub mod targets;
pub mod state;
pub mod input;
pub mod viewer;
