//! Decisions and text handling of a Hyprland status bar, kept apart from the
//! toolkit and the sockets so that each can be stated and proved.

pub mod text;
pub mod workspaces;
pub mod hypr;
pub mod window;
pub mod clock;
pub mod command;
pub mod bar;
