//! Python platform, version and interpreter logic of the PEX runtime controller.

pub mod text;
pub mod version;
pub mod error;
pub mod implementation;
pub mod arch;
pub mod mac;
pub mod linux;
pub mod windows;
pub mod os;
pub mod platform;
pub mod tags;
pub mod markers;
pub mod platform_details;
pub mod terminal;
pub mod output;
pub mod constraints;
pub mod pex_info;
pub mod tools;
pub mod fingerprint;
pub mod interpreter;
pub mod wheel;
pub mod script;
pub mod resolver;
pub mod exe_search;
pub mod install_paths;
pub mod pyenv;
pub mod selection;
