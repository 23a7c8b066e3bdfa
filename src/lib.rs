//! The data side of a game-server panel: the server's `key=value`
//! configuration, the attribute manifests of Java archives, and the rules
//! that turn a mod package's manifests into mod descriptors; with the
//! access-token rules and the player listing that the panel serves.
pub mod auth;
pub mod decode;
pub mod encode;
pub mod forge;
pub mod manifest;
pub mod players;
pub mod properties;
pub mod server;
pub mod table;
pub mod text;
