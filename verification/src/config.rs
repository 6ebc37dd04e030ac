//! The bot's configuration: the chat server, the SMS provider's account,
//! and the database path. Reading and decoding the configuration file is
//! the surrounding program's work; the library only carries the values.

use vstd::prelude::*;

verus! {

#[derive(Debug)]
pub struct MatrixConfig {
    /// Origin of the chat server: scheme and authority.
    pub host: String,
    /// Bearer token for the chat server.
    pub access_token: String,
}

#[derive(Debug)]
pub struct TwilioConfig {
    pub account_sid: String,
    pub auth_token: String,
    /// The SMS sender number.
    pub from_num: String,
}

#[derive(Debug)]
pub struct Config {
    pub matrix: MatrixConfig,
    pub twilio: TwilioConfig,
    /// Filesystem path of the reminder database.
    pub database: String,
}

} // verus!
