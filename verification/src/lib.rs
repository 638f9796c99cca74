//! Scene-description types, configuration enums, built-in mesh topology and
//! the network synchronisation protocol of the Gloss renderer, with their
//! behaviour stated and proved.

pub mod camera_input;
pub mod components;
pub mod config;
pub mod geometry;
pub mod messages;
pub mod receiver;
pub mod receiver_laws;
pub mod render;
pub mod scene_names;
pub mod selector;
pub mod sender;
pub mod sender_laws;
pub mod serializable;
pub mod transport;
pub mod window;
