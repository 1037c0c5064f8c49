//! The logic the app core runs on a device, between the domain and the
//! screens: minting identifiers, who this device is, and the amounts a
//! person types and reads.

pub mod app;
pub mod command;
pub mod error;
pub mod id;
pub mod library;
pub mod number;
pub mod platform;
pub mod project;
pub mod sync;
pub mod tags;
pub mod view;
