//! Streaming audio to AirPlay receivers: the protocol's rules as verified code.

pub mod audio;
pub mod bridge;
pub mod headers;
pub mod outside;
pub mod requests;
pub mod response;
pub mod rtp;
pub mod session;
pub mod text;
pub mod timing;

pub use audio::AudioEncoder;
pub use bridge::{AirPlayBridge, SessionInfo};
pub use session::{AirPlayDevice, AirPlaySession, AudioCommand};
