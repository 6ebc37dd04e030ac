//! A verified core for a chat-ops reminder bot.
//!
//! The library holds the bot's logic: a proleptic-Gregorian calendar model,
//! a forgiving human-phrased datetime parser, the reminder store semantics,
//! the address book, the long-poll sync state machine, the command handler,
//! the reminder dispatcher's decisions, and the cancellation flag's state.
//! The surrounding transports (HTTP, SMS, the database file) live outside
//! the library and hand it plain values.

pub mod address_book;
pub mod calendar;
pub mod config;
pub mod matrix;
pub mod date;
pub mod event_handler;
pub mod flag;
pub mod reminder_handler;
pub mod reminders;
pub mod text;
