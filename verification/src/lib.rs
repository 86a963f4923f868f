//! Gateway daemon core: short-message transport codecs, device status
//! resolution, tunnel lifecycle management and command dispatch for a
//! cellular-connected device that is driven remotely over text messages.
pub mod application;
pub mod common;
pub mod email_utils;
pub mod init;
pub mod request;
pub mod sms_utils;
pub mod ssh_utils;
pub mod status;
pub mod strutil;
pub mod user;
