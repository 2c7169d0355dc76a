//! The decision-making core of a chat logging bot.
pub mod backfill;
pub mod bot;
pub mod claims;
pub mod command;
pub mod identity;
pub mod irc;
pub mod lookups;
pub mod message;
pub mod number;
pub mod recent_messages;
pub mod text;
pub mod url;
