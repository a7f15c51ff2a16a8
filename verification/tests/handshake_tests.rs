use bslib::game_manager::{GameManager, ServerPlayer};
use bslib::handlers::{decode_handler, handle_connect_cmd, handle_unknown};
use bslib::packet_reader::read_packet;
use bslib::tcp_protocol::ProtocolCommand;

#[test]
fn handle_unknown_is_ok() {
    assert!(handle_unknown().is_ok());
}

#[test]
fn handle_connect_cmd_builds_response() {
    let mut manager = GameManager::new();
    let mut player = ServerPlayer::new();
    player.set_nick("alice");
    let bytes = handle_connect_cmd(&mut manager, &player).expect("handler succeeds");
    assert_eq!(
        String::from_utf8(bytes).unwrap(),
        "#bs connect_resp\n{\"opponent\":false,\"game_id\":1}\n#end\n"
    );
    assert_eq!(manager.games_count(), 1);
}

#[test]
fn connect_handshake_end_to_end() {
    let mut manager = GameManager::new();

    // first client connects
    let packet = read_packet("#bs connect\n{\"nick\":\"alice\"}\n#end\n")
        .expect("decodes")
        .expect("one frame");
    let mut player = ServerPlayer::new();
    let response = decode_handler(&packet, &mut manager, &mut player)
        .expect("handled")
        .expect("a connect packet gets a response");
    assert_eq!(
        String::from_utf8(response).unwrap(),
        "#bs connect_resp\n{\"opponent\":false,\"game_id\":1}\n#end\n"
    );
    assert_eq!(player.get_nick(), "alice");

    // second client connects before any third
    let packet = read_packet("#bs connect\n{\"nick\":\"bob\"}\n#end\n")
        .expect("decodes")
        .expect("one frame");
    let mut player = ServerPlayer::new();
    let response = decode_handler(&packet, &mut manager, &mut player)
        .expect("handled")
        .expect("a connect packet gets a response");
    assert_eq!(
        String::from_utf8(response).unwrap(),
        "#bs connect_resp\n{\"opponent\":true,\"game_id\":1}\n#end\n"
    );
    assert_eq!(player.get_nick(), "bob");

    // the response decodes on the client side
    let resp = read_packet("#bs connect_resp\n{\"opponent\":true,\"game_id\":1}\n#end\n")
        .expect("decodes")
        .expect("one frame");
    assert_eq!(*resp.get_cmd(), ProtocolCommand::ConnectResp);
}

#[test]
fn test_packet_asks_for_nothing() {
    let mut manager = GameManager::new();
    let mut player = ServerPlayer::new();
    let packet = read_packet("#bs test\n{}\n#end\n").expect("decodes").expect("one frame");
    let r = decode_handler(&packet, &mut manager, &mut player).expect("handled");
    assert!(r.is_none());
    assert_eq!(manager.games_count(), 0);
}

#[test]
fn unknown_packet_asks_for_nothing() {
    let mut manager = GameManager::new();
    let mut player = ServerPlayer::new();
    let packet =
        read_packet("#bs shoot\n{\"x\":3}\n#end\n").expect("decodes").expect("one frame");
    let r = decode_handler(&packet, &mut manager, &mut player).expect("handled");
    assert!(r.is_none());
    assert_eq!(manager.games_count(), 0);
}
