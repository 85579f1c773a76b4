//! Bog: interoperable building blocks for interactive applications.
//!
//! This crate holds the integer, state and table logic of the toolkit, with its behaviour stated
//! as contracts and proved.

pub mod inclination;
pub mod color;
pub mod packed_color;
pub mod key;
pub mod text;
pub mod env;
pub mod input;
pub mod pointer;
pub mod message;
pub mod events;
pub mod kinds;
pub mod app;
pub mod layer;
pub mod buffer;
pub mod atlas;
pub mod image_cache;
pub mod type_map;
pub mod tree;
pub mod layout;
pub mod nohash;
pub mod view_model;
