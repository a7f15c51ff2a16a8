//! Server-side handling: routing a decoded packet by its command, updating
//! the player's nick, consulting the matchmaking registry, and building the
//! response frame.  Writing the frame to the socket is the caller's part.

use vstd::prelude::*;
use crate::error::{ConnectError, HandlingError};
use crate::game_manager::{spec_assign, GameManager, ServerPlayer};
use crate::tcp_protocol::{
    wire_text, BodyView, ConnectRespBody, Packet, PacketBody, ProtocolCommand, Ready,
};

verus! {

/// A packet with an unknown command asks for nothing: it is ignored.
pub fn handle_unknown() -> (r: Result<(), ConnectError>)
    ensures
        r is Ok,
{
    Ok(())
}

/// Handle a connect command: assign the player to a game and build the
/// response frame reporting whether an opponent was present and which game
/// was joined.
pub fn handle_connect_cmd(game_manager: &mut GameManager, player: &ServerPlayer) -> (r: Result<
    Vec<u8>,
    ConnectError,
>)
    requires
        old(game_manager)@.len() < u32::MAX,
    ensures
        final(game_manager)@ == spec_assign(old(game_manager)@, player@).0,
        r matches Ok(bytes) && bytes@ == vstd::utf8::encode_utf8(
            wire_text(
                ProtocolCommand::ConnectResp,
                BodyView::ConnectResp {
                    opponent: spec_assign(old(game_manager)@, player@).1,
                    game_id: spec_assign(old(game_manager)@, player@).2 as u32,
                },
            ),
        ),
{
    let (opponent, game_id) = game_manager.assign_player(player.clone());
    let body = ConnectRespBody::new(opponent, game_id);
    let response = Packet::new(ProtocolCommand::ConnectResp).load_body(
        PacketBody::ConnectResp(body),
    );
    match response {
        Ok(p) => Ok(p.as_bytes()),
        Err(_) => {
            proof {
                assert(false);
            }
            Err(ConnectError::new("Wrong body type"))
        },
    }
}

/// Route one decoded packet: a connect packet sets the player's nick,
/// assigns them to a game and yields the response frame to write back; a
/// test or unknown packet asks for nothing and changes nothing.
pub fn decode_handler(
    packet: &Packet<Ready>,
    game_manager: &mut GameManager,
    player: &mut ServerPlayer,
) -> (r: Result<Option<Vec<u8>>, HandlingError>)
    requires
        packet.ready_wf(),
        old(game_manager)@.len() < u32::MAX,
    ensures
        match packet@.body {
            Some(BodyView::Connect { nick }) => {
                &&& final(player)@ == nick
                &&& final(game_manager)@ == spec_assign(old(game_manager)@, nick).0
                &&& r matches Ok(o) && o matches Some(bytes) && bytes@ == vstd::utf8::encode_utf8(
                    wire_text(
                        ProtocolCommand::ConnectResp,
                        BodyView::ConnectResp {
                            opponent: spec_assign(old(game_manager)@, nick).1,
                            game_id: spec_assign(old(game_manager)@, nick).2 as u32,
                        },
                    ),
                )
            },
            _ => {
                &&& r matches Ok(o) && o is None
                &&& final(game_manager)@ == old(game_manager)@
                &&& final(player)@ == old(player)@
            },
        },
{
    match *packet.get_cmd() {
        ProtocolCommand::Connect => {
            let body = match packet.get_body() {
                Ok(b) => b,
                Err(_) => {
                    proof {
                        assert(false);
                    }
                    return Err(HandlingError::new("There is no body"));
                },
            };
            let nick = match body.get_nick() {
                Ok(n) => n,
                Err(_) => {
                    proof {
                        assert(false);
                    }
                    return Err(HandlingError::new("No such field on this type of body"));
                },
            };
            player.set_nick(nick);
            match handle_connect_cmd(game_manager, player) {
                Ok(bytes) => Ok(Some(bytes)),
                Err(e) => {
                    proof {
                        assert(false);
                    }
                    Err(HandlingError::new(e.message()))
                },
            }
        },
        ProtocolCommand::Test => Ok(None),
        _ => Ok(None),
    }
}

} // verus!
