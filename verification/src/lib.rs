//! LED control logic for the HyperX QuadCast 2S microphone: the USB frame
//! encoding, color math, animation generators, lighting profiles and the
//! state of the control panel.

pub mod protocol;
pub mod float;
pub mod color;
pub mod animations;
pub mod text;
pub mod config;
pub mod presets;
pub mod hex;
pub mod engine;
pub mod panel;
pub mod tray;
pub mod dbus_service;
pub mod audio;
