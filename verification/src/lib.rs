//! The input side of a terminal multiplexer's client: keys come in from the
//! terminal, and what they ask for goes to the server.
//!
//! [`input_handler`] holds the loop, [`session`] what it does, [`pixel_report`] the reports that a terminal
//! emulator gives of its pixel geometry, [`messages`] what is said to the server,
//! [`keys`] what comes in, [`commands`] the bytes of the known keys, and
//! [`os_api`] a record of what the client did to the world around it.
pub mod commands;
pub mod input_handler;
pub mod keys;
pub mod messages;
pub mod os_api;
pub mod pixel_report;
pub mod session;
