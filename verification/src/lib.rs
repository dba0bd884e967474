//! A software KVM: one keyboard and mouse shared between machines.

use vstd::prelude::*;

pub mod text;
pub mod transfer;
pub mod transfer_laws;
pub mod upkeep_laws;
pub mod windows;
pub mod windows_drag;
pub mod words_laws;
pub mod xdnd;
pub mod barrier;
pub mod barrier_laws;
pub mod bytes;
pub mod carrying_laws;
pub mod client;
pub mod clipboard;
pub mod command;
pub mod config;
pub mod control;
pub mod copy_laws;
pub mod daemon;
pub mod daemon_laws;
pub mod display_laws;
pub mod exchange;
pub mod exchange_laws;
pub mod files;
pub mod files_laws;
pub mod forms_laws;
pub mod hello;
pub mod html;
pub mod image;
pub mod image_laws;
pub mod ini;
pub mod input_laws;
pub mod keeper;
pub mod landing;
pub mod landing_laws;
pub mod layout;
pub mod message_laws;
pub mod order;
pub mod owner;
pub mod paste_laws;
pub mod paths;
pub mod platform;
pub mod pointer_laws;
pub mod proto;
pub mod selection;
pub mod server;
pub mod server_laws;
pub mod service;
pub mod settings_laws;
pub mod sharing;
pub mod sharing_laws;
pub mod status;
pub mod survey;
pub mod table;

verus! {

} // verus!
