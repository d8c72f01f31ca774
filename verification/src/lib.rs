//! The core of a small X11 window manager: the configuration and keybinding
//! engine, the window registry with its workspaces, and the decisions of
//! start-up and of the event loop. The library talks to no display and
//! reads no file: it is handed events and texts, and answers with requests.

pub mod ascension;
pub mod command;
pub mod config;
pub mod display;
pub mod error;
pub mod grammar;
pub mod keybind;
pub mod laws;
pub mod logger;
pub mod machine;
pub mod paths;
pub mod roundtrip;
pub mod text;
pub mod wm;
