//! The decisions, formats and state machines of AirCard, a tool that customises
//! the card artwork of a paired iPhone.
//!
//! Everything in this crate is verified. Sockets, files, TLS, the Apple
//! libraries and the window live in the application around it, which performs
//! what the library decides and hands back what happened.
pub mod afc;
pub mod afc_files;
pub mod afc_trees;
pub mod airlift;
pub mod airtraffic;
pub mod app_state;
pub mod certificates;
pub mod dates;
pub mod device;
pub mod failure;
pub mod i18n;
pub mod lines;
pub mod markup;
pub mod native_stream;
pub mod native_sync;
pub mod pairing;
pub mod phrases;
pub mod scanner;
pub mod service_protocol;
pub mod text;
pub mod usb_opening;
pub mod usbmux;
pub mod value;
pub mod wallet_backup;
pub mod wallet_connection;
pub mod wire;
pub mod zip;
