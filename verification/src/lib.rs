//! Clipboard logic for a Wayland client and for a browser.
//!
//! The library decides what a clipboard read returns, what a write hands over and in
//! which order payloads are asked for. Talking to a compositor or to a browser is left to
//! the caller, who passes plain values in and gets plain values back.

pub mod convert;
pub mod item;
pub mod offer;
pub mod reader;
pub mod text;
pub mod transfer;
pub mod wayland;
pub mod web;
pub mod web_items;
