//! The logic of a desktop blob that can be thrown from one screen to another.

pub mod address;
pub mod blob;
pub mod blob_laws;
pub mod bytes;
pub mod desk;
pub mod echo;
pub mod frame;
pub mod groups;
pub mod naming;
pub mod net;
pub mod net_laws;
pub mod options;
pub mod overlay;
pub mod overlay_mac;
pub mod overlay_win;
pub mod overlay_x11;
pub mod peers;
pub mod peers_laws;
pub mod physics;
pub mod receipt;
pub mod region;
pub mod selftest;
pub mod shell;
pub mod shell_laws;
pub mod stream_laws;
pub mod single;
pub mod text;
pub mod wire;
pub mod wire_laws;
