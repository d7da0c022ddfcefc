//! Bridge Hikvision ISAPI fire-detection events into UniFi Protect Alarm
//! Manager incoming webhooks.

pub mod camera;
pub mod clock;
pub mod config;
pub mod event;
pub mod framing;
pub mod health;
pub mod lifecycle;
pub mod pipeline;
pub mod probe;
pub mod state;
pub mod status;
pub mod text;
pub mod webhook;
pub mod weburl;
pub mod xml;
