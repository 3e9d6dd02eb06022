//! The rules of Bad Spaceship: what the game decides, apart from how it is drawn.

pub mod bot;
pub mod buoyancy;
pub mod chance;
pub mod client;
pub mod geom;
pub mod lists;
pub mod playground;
pub mod text;
