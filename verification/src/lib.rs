//! Protocol data types, world storage and server-side rules of BWS, a
//! light-weight Minecraft server, with their contracts proved by Verus.

pub mod datatypes;
pub mod world;
pub mod lobby;
pub mod text;
pub mod legacy_ping;
pub mod fluids;
pub mod placement;
pub mod chat;
pub mod editing;
pub mod cmd;
pub mod graceful_shutdown;
pub mod shutdown;
pub mod serverbase;
pub mod server;
pub mod safe_types;
pub mod plugin;
pub mod connection;
pub mod packets;
pub mod commands;
pub mod events;
pub mod moderation;
pub mod dependencies;
pub mod login;
pub mod chunks;
pub mod map_file;
