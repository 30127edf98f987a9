use vstd::prelude::*;

verus! {

/// Messages a client sends to the server.
#[derive(Clone, Debug, PartialEq, Eq)]
pub enum ServerBoundPackets {
    ChoosePack {},
    JoinGame { code: String },
    CreateGame { code: String, password: String, max_players: u8 },
}

/// Messages the server sends to a client.
#[derive(Clone, Copy, Debug, PartialEq, Eq, Structural)]
pub enum ClientBoundPackets {
    PackResponse { accepted: bool },
    RegisterPack,
}

} // verus!
