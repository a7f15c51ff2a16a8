use bslib::packet_reader::{decode_frame, read_packet};
use bslib::tcp_protocol::{
    ConnectBody, ConnectRespBody, Packet, PacketBody, ProtocolCommand, TestBody,
};

#[test]
fn command_tokens() {
    assert_eq!(ProtocolCommand::Connect.get_str(), Some("connect"));
    assert_eq!(ProtocolCommand::ConnectResp.get_str(), Some("connect_resp"));
    assert_eq!(ProtocolCommand::Test.get_str(), Some("test"));
    assert_eq!(ProtocolCommand::Unknown.get_str(), None);
    assert_eq!(ProtocolCommand::from_cmd("connect"), Some(ProtocolCommand::Connect));
    assert_eq!(ProtocolCommand::from_cmd("connect_resp"), Some(ProtocolCommand::ConnectResp));
    assert_eq!(ProtocolCommand::from_cmd("test"), Some(ProtocolCommand::Test));
    assert_eq!(ProtocolCommand::from_cmd("shoot"), None);
    assert_eq!(ProtocolCommand::from_cmd(""), None);
}

#[test]
fn load_body_matching_tag() {
    let body = PacketBody::Connect(ConnectBody::new(String::from("alice")));
    let packet = Packet::new(ProtocolCommand::Connect)
        .load_body(body)
        .expect("matching body must attach");
    assert_eq!(*packet.get_cmd(), ProtocolCommand::Connect);
    let body = packet.get_body().expect("a ready packet has a body");
    assert_eq!(body.get_nick().expect("a connect body has a nick"), "alice");
}

#[test]
fn load_body_mismatched_tag_always_fails() {
    let r = Packet::new(ProtocolCommand::Connect).load_body(PacketBody::Test(TestBody {}));
    assert!(r.is_err());
    let r = Packet::new(ProtocolCommand::Test)
        .load_body(PacketBody::ConnectResp(ConnectRespBody::new(true, 3)));
    assert!(r.is_err());
    let r = Packet::new(ProtocolCommand::ConnectResp)
        .load_body(PacketBody::Connect(ConnectBody::new(String::from("bob"))));
    assert!(r.is_err());
}

#[test]
fn encode_connect_frame() {
    let packet = Packet::new(ProtocolCommand::Connect)
        .load_body(PacketBody::Connect(ConnectBody::new(String::from("alice"))))
        .unwrap();
    assert_eq!(packet.encode(), "#bs connect\n{\"nick\":\"alice\"}\n#end\n");
    assert_eq!(packet.as_bytes(), b"#bs connect\n{\"nick\":\"alice\"}\n#end\n".to_vec());
}

#[test]
fn encode_connect_resp_frame() {
    let packet = Packet::new(ProtocolCommand::ConnectResp)
        .load_body(PacketBody::ConnectResp(ConnectRespBody::new(false, 1)))
        .unwrap();
    assert_eq!(packet.encode(), "#bs connect_resp\n{\"opponent\":false,\"game_id\":1}\n#end\n");
}

#[test]
fn encode_test_frame() {
    let packet =
        Packet::new(ProtocolCommand::Test).load_body(PacketBody::Test(TestBody {})).unwrap();
    assert_eq!(packet.encode(), "#bs test\n{}\n#end\n");
}

#[test]
fn round_trip_connect() {
    let packet = Packet::new(ProtocolCommand::Connect)
        .load_body(PacketBody::Connect(ConnectBody::new(String::from("alice"))))
        .unwrap();
    let wire = packet.encode();
    let back = read_packet(&wire).expect("decodes").expect("one frame");
    assert_eq!(*back.get_cmd(), ProtocolCommand::Connect);
    assert_eq!(back.get_body().unwrap().get_nick().unwrap(), "alice");
}

#[test]
fn round_trip_connect_escaped_nick() {
    let nick = "a\"b\\c\nd\te";
    let packet = Packet::new(ProtocolCommand::Connect)
        .load_body(PacketBody::Connect(ConnectBody::new(String::from(nick))))
        .unwrap();
    let wire = packet.encode();
    let back = read_packet(&wire).expect("decodes").expect("one frame");
    assert_eq!(back.get_body().unwrap().get_nick().unwrap(), nick);
}

#[test]
fn round_trip_connect_resp() {
    let packet = Packet::new(ProtocolCommand::ConnectResp)
        .load_body(PacketBody::ConnectResp(ConnectRespBody::new(true, 4294967295)))
        .unwrap();
    let wire = packet.encode();
    let back = read_packet(&wire).expect("decodes").expect("one frame");
    assert_eq!(*back.get_cmd(), ProtocolCommand::ConnectResp);
    match back.get_body().unwrap() {
        PacketBody::ConnectResp(b) => {
            assert!(b.opponent());
            assert_eq!(b.game_id(), 4294967295);
        },
        _ => panic!("wrong body variant"),
    }
}

#[test]
fn round_trip_test_packet() {
    let packet =
        Packet::new(ProtocolCommand::Test).load_body(PacketBody::Test(TestBody {})).unwrap();
    let wire = packet.encode();
    let back = read_packet(&wire).expect("decodes").expect("one frame");
    assert_eq!(*back.get_cmd(), ProtocolCommand::Test);
}

#[test]
fn empty_stream_is_clean_end() {
    let r = read_packet("").expect("an empty stream is not an error");
    assert!(r.is_none());
}

#[test]
fn wrong_header_is_framing_error() {
    let e = read_packet("#bX connect\n{\"nick\":\"alice\"}\n#end\n").unwrap_err();
    assert_eq!(e.message(), "Wrong packet header");
    let e = read_packet("nonsense connect\n{}\n#end\n").unwrap_err();
    assert_eq!(e.message(), "Wrong packet header");
    let e = read_packet("#bsconnect\n{}\n#end\n").unwrap_err();
    assert_eq!(e.message(), "Wrong packet header");
}

#[test]
fn missing_end_marker_is_framing_error() {
    let e = read_packet("#bs connect\n{\"nick\":\"alice\"}\n").unwrap_err();
    assert_eq!(e.message(), "Stream ended before the end marker");
    let e = read_packet("#bs connect\n{\"nick\":\"alice\"}\n#end").unwrap_err();
    assert_eq!(e.message(), "Stream ended before the end marker");
}

#[test]
fn unknown_command_decodes_without_error() {
    let p = read_packet("#bs shoot\n{\"x\":1}\n#end\n").expect("decodes").expect("one frame");
    assert_eq!(*p.get_cmd(), ProtocolCommand::Unknown);
    match p.get_body().unwrap() {
        PacketBody::Unknown(raw) => assert_eq!(raw, "{\"x\":1}\n"),
        _ => panic!("wrong body variant"),
    }
    assert!(p.get_body().unwrap().get_nick().is_err());
}

#[test]
fn bad_body_is_body_error() {
    let e = read_packet("#bs connect\n{\"nick\":5}\n#end\n").unwrap_err();
    assert_eq!(e.message(), "Wrong body");
    let e = read_packet("#bs connect_resp\n{\"opponent\":false}\n#end\n").unwrap_err();
    assert_eq!(e.message(), "Wrong body");
    let e = read_packet("#bs test\n{\"extra\":1}\n#end\n").unwrap_err();
    assert_eq!(e.message(), "Wrong body");
}

#[test]
fn game_id_overflow_is_body_error() {
    let e = read_packet("#bs connect_resp\n{\"opponent\":true,\"game_id\":4294967296}\n#end\n")
        .unwrap_err();
    assert_eq!(e.message(), "Wrong body");
}

#[test]
fn decode_frame_from_parts() {
    let p = decode_frame("#bs connect", "{\"nick\":\"carol\"}\n").expect("decodes");
    assert_eq!(*p.get_cmd(), ProtocolCommand::Connect);
    assert_eq!(p.get_body().unwrap().get_nick().unwrap(), "carol");
    let e = decode_frame("#bz connect", "{}\n").unwrap_err();
    assert_eq!(e.message(), "Wrong packet header");
}

#[test]
fn body_to_string_forms() {
    assert_eq!(PacketBody::Test(TestBody {}).to_string(), "{}");
    assert_eq!(
        PacketBody::Connect(ConnectBody::new(String::from("a\"b"))).to_string(),
        "{\"nick\":\"a\\\"b\"}"
    );
    assert_eq!(
        PacketBody::ConnectResp(ConnectRespBody::new(true, 42)).to_string(),
        "{\"opponent\":true,\"game_id\":42}"
    );
}

#[test]
fn body_get_cmd() {
    assert_eq!(PacketBody::Test(TestBody {}).get_cmd(), ProtocolCommand::Test);
    assert_eq!(
        PacketBody::Connect(ConnectBody::new(String::new())).get_cmd(),
        ProtocolCommand::Connect
    );
    assert_eq!(
        PacketBody::ConnectResp(ConnectRespBody::new(false, 0)).get_cmd(),
        ProtocolCommand::ConnectResp
    );
    assert_eq!(PacketBody::Unknown(String::from("x")).get_cmd(), ProtocolCommand::Unknown);
}
