//! Verified core of a USB drive-emulation appliance.

pub mod action;
pub mod dispatch;
pub mod gadget;
pub mod piso;
pub mod strutil;
pub mod vdrive;
pub mod volume;
