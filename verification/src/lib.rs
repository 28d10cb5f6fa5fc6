//! Firmware images, Teensy board identification and the upload protocol,
//! with the decisions of the desktop front end.

pub mod session;
pub mod text;
pub mod tnc_rs;
pub mod tycmd;
pub mod view;
