//! A verified core of a Media over QUIC (MoQ) stack: the wire coding; the
//! announce, origin, broadcast, track and frame state machines; reading and
//! writing media tracks; token and key checks; relay authentication and
//! routing; and the choices an endpoint makes when a connection starts.

pub mod text;
pub mod table;
pub mod announce;
pub mod coding;
pub mod message;
pub mod error;
pub mod track;
pub mod publisher;
pub mod frame;
pub mod token;
pub mod auth;
pub mod media;
pub mod native;
pub mod relay;
pub mod catalog;
pub mod broadcast;
pub mod origin;
pub mod session;
pub mod room;
