//! Board profiles, LED topology, and the Colorful 0x88 framebuffer protocol
//! for motherboard RGB controllers.

pub mod backend;
pub mod drivers;
pub mod effects;
pub mod lighting;
pub mod protocol;
pub mod scheduler;
pub mod smbios;
pub mod text;
pub mod board;
pub mod color_arg;
pub mod config;
