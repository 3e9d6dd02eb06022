//! What differs between the desktop and the browser.

pub mod native;
pub mod web;
