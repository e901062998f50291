//! Input-state bookkeeping, controller mapping rules and event routing
//! for a gamepad testing tool.

pub mod controls;
pub mod text;
pub mod device;
pub mod keyed;
pub mod messages;
pub mod app;
pub mod mappings;
pub mod routing;
pub mod palette;
