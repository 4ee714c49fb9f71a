//! Battery reporting logic for the Attack Shark R11 Ultra mouse: the HID
//! battery protocol, device selection, icon rendering, tray display state and
//! the small text helpers of the tray application.

pub mod protocol;
pub mod text;
pub mod device;
pub mod icon;
pub mod tray;
pub mod startup;
pub mod logging;
