//! Packets that the server sends in the status and login states.
use crate::datatypes::{Chat, VarInt};
use vstd::prelude::*;

verus! {

/// Sent from the server to the client. Packets of the play state are built
/// and sent outside the library.
#[derive(Debug, Clone)]
pub enum ClientBound {
    /// No packets are sent from the server in the HandShake state
    HandShake,
    Status(StatusClientBound),
    Login(LoginClientBound),
}

#[derive(Debug, Clone)]
pub enum StatusClientBound {
    /// the JSON of the status response
    Response(String),
    Pong(i64),
}

#[derive(Debug, Clone)]
pub enum LoginClientBound {
    Disconnect(Chat),
    EncryptionRequest {
        /// Up to 20 characters
        server_id: String,
        public_key: Vec<u8>,
        verify_token: Vec<u8>,
    },
    LoginSuccess { uuid: u128, username: String },
    SetCompression { treshold: VarInt },
    PluginRequest {
        message_id: VarInt,
        channel: String,
        /// the client figures out the length based on the packet size
        data: Vec<u8>,
    },
}

impl StatusClientBound {
    pub fn cb(self) -> (res: ClientBound)
        ensures
            res == ClientBound::Status(self),
    {
        ClientBound::Status(self)
    }
}

impl LoginClientBound {
    pub fn cb(self) -> (res: ClientBound)
        ensures
            res == ClientBound::Login(self),
    {
        ClientBound::Login(self)
    }

    /// Whether the packet may be sent in the compressed format: only the
    /// login success, of the login packets.
    pub fn compressible(&self) -> (res: bool)
        ensures
            res == (self is LoginSuccess),
    {
        matches!(self, LoginClientBound::LoginSuccess { .. })
    }
}

} // verus!
