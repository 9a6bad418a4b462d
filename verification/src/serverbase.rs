//! What a base server keeps, and how it answers a legacy ping by default.
use crate::graceful_shutdown::ShutdownSystem;
use crate::legacy_ping::{LegacyPing, LegacyPingResponse};
use vstd::prelude::*;

verus! {

/// Data storage required to operate a base server
#[derive(Debug)]
pub struct ServerBaseStore {
    pub shutdown: ShutdownSystem,
}

impl ServerBaseStore {
    pub fn new() -> (res: Self)
        ensures
            res.shutdown.guards == 0,
            !res.shutdown.initiated,
            !res.shutdown.timed_out,
    {
        Self { shutdown: ShutdownSystem::new() }
    }
}

/// The response to a legacy ping of a server that does not choose its own.
pub fn default_legacy_ping(_packet: &LegacyPing) -> (res: Option<LegacyPingResponse>)
    ensures
        res matches Some(r) && r.motd@ == "A BWS server"@ && r.online@ == "0"@ && r.max_players@
            == "1400"@ && r.protocol@ == "127"@ && r.version@ == "BWS"@,
{
    Some(
        LegacyPingResponse {
            motd: String::from_str("A BWS server"),
            online: String::from_str("0"),
            max_players: String::from_str("1400"),
            protocol: String::from_str("127"),
            version: String::from_str("BWS"),
        },
    )
}

} // verus!
