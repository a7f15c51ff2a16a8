//! The packet model: the command enumeration, the tagged body variants, and
//! the two-phase packet builder that cannot serialize a bodyless or
//! mismatched packet.  Encoding to the wire format lives here as well.

use vstd::prelude::*;
use vstd::string::*;
use crate::body_json::{connect_json, connect_resp_json};
use crate::error::PacketError;

verus! {

/// Fixed literal that opens every frame.
pub const PACKET_HEADER: &'static str = "#bs";

/// Literal that closes every frame: a newline ending the body line, the end
/// marker, and its newline.
pub const PACKET_END: &'static str = "\n#end\n";

// ---------------------------------------------------------------------------
// Commands
// ---------------------------------------------------------------------------

/// The closed set of protocol commands.  `Unknown` is never transmitted: it
/// is assigned locally when a received token matches no known command.
#[derive(PartialEq, Eq, Structural, Debug, Clone, Copy)]
pub enum ProtocolCommand {
    Test,
    Connect,
    ConnectResp,
    Unknown,
}

impl ProtocolCommand {
    /// The wire token of a known command; the unknown command has none.
    pub open spec fn token(self) -> Seq<char> {
        match self {
            ProtocolCommand::Test => "test"@,
            ProtocolCommand::Connect => "connect"@,
            ProtocolCommand::ConnectResp => "connect_resp"@,
            ProtocolCommand::Unknown => Seq::empty(),
        }
    }

    /// The wire token of a known command; `None` for the unknown command.
    pub fn get_str(&self) -> (r: Option<&str>)
        ensures
            match self {
                ProtocolCommand::Unknown => r is None,
                _ => r matches Some(s) && s@ == self.token(),
            },
    {
        match self {
            ProtocolCommand::Test => Some("test"),
            ProtocolCommand::Connect => Some("connect"),
            ProtocolCommand::ConnectResp => Some("connect_resp"),
            ProtocolCommand::Unknown => None,
        }
    }

    /// The command a wire token names, if any.
    pub fn from_cmd(cmd: &str) -> (r: Option<ProtocolCommand>)
        ensures
            r == spec_from_cmd(cmd@),
    {
        let v = crate::text::str_to_chars(cmd);
        cmd_from_chars(v.as_slice())
    }
}

/// The command a wire token names, if any.
pub open spec fn spec_from_cmd(s: Seq<char>) -> Option<ProtocolCommand> {
    if s == "connect"@ {
        Some(ProtocolCommand::Connect)
    } else if s == "connect_resp"@ {
        Some(ProtocolCommand::ConnectResp)
    } else if s == "test"@ {
        Some(ProtocolCommand::Test)
    } else {
        None
    }
}

/// The command a wire token names, over the token's characters.
pub fn cmd_from_chars(v: &[char]) -> (r: Option<ProtocolCommand>)
    ensures
        r == spec_from_cmd(v@),
{
    if crate::text::chars_eq_str(v, "connect") {
        Some(ProtocolCommand::Connect)
    } else if crate::text::chars_eq_str(v, "connect_resp") {
        Some(ProtocolCommand::ConnectResp)
    } else if crate::text::chars_eq_str(v, "test") {
        Some(ProtocolCommand::Test)
    } else {
        None
    }
}

// ---------------------------------------------------------------------------
// Bodies
// ---------------------------------------------------------------------------

/// Body of a test packet: carries nothing.
#[derive(Debug)]
pub struct TestBody {}

/// Body of a connect packet: the player's nick.
#[derive(Debug)]
pub struct ConnectBody {
    nick: String,
}

impl ConnectBody {
    /// The nick, as the text it spells.
    pub closed spec fn nick_spec(&self) -> Seq<char> {
        self.nick@
    }

    pub fn new(nick: String) -> (r: Self)
        ensures
            r.nick_spec() == nick@,
    {
        Self { nick }
    }

    /// The nick carried by this body.
    pub fn get_nick(&self) -> (r: &str)
        ensures
            r@ == self.nick_spec(),
    {
        self.nick.as_str()
    }
}

/// Body of a connect response packet: whether an opponent was already
/// present, and the game joined.
#[derive(Debug)]
pub struct ConnectRespBody {
    opponent: bool,
    game_id: u32,
}

impl ConnectRespBody {
    /// Whether the body reports an opponent already present.
    pub closed spec fn opponent_spec(&self) -> bool {
        self.opponent
    }

    /// The game identifier the body carries.
    pub closed spec fn game_id_spec(&self) -> u32 {
        self.game_id
    }

    pub fn new(opponent: bool, game_id: u32) -> (r: Self)
        ensures
            r.opponent_spec() == opponent,
            r.game_id_spec() == game_id,
    {
        Self { opponent, game_id }
    }

    /// Whether an opponent was already waiting in the game.
    pub fn opponent(&self) -> (r: bool)
        ensures
            r == self.opponent_spec(),
    {
        self.opponent
    }

    /// The identifier of the game joined.
    pub fn game_id(&self) -> (r: u32)
        ensures
            r == self.game_id_spec(),
    {
        self.game_id
    }
}

/// The mathematical content of a packet body.
pub enum BodyView {
    Test,
    Connect { nick: Seq<char> },
    ConnectResp { opponent: bool, game_id: u32 },
    Unknown { raw: Seq<char> },
}

/// The command a body belongs to.
pub open spec fn cmd_of_body(b: BodyView) -> ProtocolCommand {
    match b {
        BodyView::Test => ProtocolCommand::Test,
        BodyView::Connect { .. } => ProtocolCommand::Connect,
        BodyView::ConnectResp { .. } => ProtocolCommand::ConnectResp,
        BodyView::Unknown { .. } => ProtocolCommand::Unknown,
    }
}

/// The body line a body is written as.  An unknown body is kept as the raw
/// text it arrived with.
pub open spec fn json_of(b: BodyView) -> Seq<char> {
    match b {
        BodyView::Test => crate::body_json::test_json(),
        BodyView::Connect { nick } => connect_json(nick),
        BodyView::ConnectResp { opponent, game_id } => connect_resp_json(opponent, game_id),
        BodyView::Unknown { raw } => raw,
    }
}

/// A packet body: one variant per command that carries data, and the raw
/// text of a body whose command was not recognized.
#[derive(Debug)]
pub enum PacketBody {
    Test(TestBody),
    Connect(ConnectBody),
    ConnectResp(ConnectRespBody),
    Unknown(String),
}

impl View for PacketBody {
    type V = BodyView;

    open spec fn view(&self) -> BodyView {
        match self {
            PacketBody::Test(_) => BodyView::Test,
            PacketBody::Connect(b) => BodyView::Connect { nick: b.nick_spec() },
            PacketBody::ConnectResp(b) => BodyView::ConnectResp {
                opponent: b.opponent_spec(),
                game_id: b.game_id_spec(),
            },
            PacketBody::Unknown(raw) => BodyView::Unknown { raw: raw@ },
        }
    }
}

impl PacketBody {
    /// The command this body belongs to.
    pub fn get_cmd(&self) -> (r: ProtocolCommand)
        ensures
            r == cmd_of_body(self@),
    {
        match self {
            PacketBody::Test(_) => ProtocolCommand::Test,
            PacketBody::Connect(_) => ProtocolCommand::Connect,
            PacketBody::ConnectResp(_) => ProtocolCommand::ConnectResp,
            PacketBody::Unknown(_) => ProtocolCommand::Unknown,
        }
    }

    /// The body line this body is written as.
    pub fn to_string(&self) -> (r: String)
        ensures
            r@ == json_of(self@),
    {
        match self {
            PacketBody::Test(_) => {
                let mut s = String::new();
                s.append("{}");
                proof {
                    assert(s@ =~= crate::body_json::test_json());
                }
                s
            },
            PacketBody::Connect(b) => {
                let mut s = String::new();
                s.append("{\"nick\":\"");
                crate::body_json::append_escaped(&mut s, b.get_nick());
                s.append("\"}");
                proof {
                    assert(s@ =~= connect_json(b.nick_spec()));
                }
                s
            },
            PacketBody::ConnectResp(b) => {
                let mut s = String::new();
                s.append("{\"opponent\":");
                crate::body_json::append_bool(&mut s, b.opponent());
                s.append(",\"game_id\":");
                crate::text::append_u32(&mut s, b.game_id());
                s.append("}");
                proof {
                    assert(s@ =~= connect_resp_json(b.opponent_spec(), b.game_id_spec()));
                }
                s
            },
            PacketBody::Unknown(raw) => {
                let s = raw.clone();
                s
            },
        }
    }

    /// The nick, if this is a connect body.
    pub fn get_nick(&self) -> (r: Result<&str, PacketError>)
        ensures
            match self@ {
                BodyView::Connect { nick } => r matches Ok(s) && s@ == nick,
                _ => r is Err,
            },
    {
        match self {
            PacketBody::Connect(body) => Ok(body.get_nick()),
            _ => Err(PacketError::new("No such field on this type of body")),
        }
    }
}

/// Acknowledgement that a request got its reply.
#[derive(Debug)]
pub struct Response {}

// ---------------------------------------------------------------------------
// Packets
// ---------------------------------------------------------------------------

/// Construction state of a packet.
pub trait BodyState {
}

/// A packet still without its body.
#[derive(Debug)]
pub struct NotReady;

impl BodyState for NotReady {

}

/// A packet whose body has been attached; only these reach the wire.
#[derive(Debug)]
pub struct Ready;

impl BodyState for Ready {

}

/// The mathematical content of a packet.
pub struct PacketView {
    pub cmd: ProtocolCommand,
    pub body: Option<BodyView>,
}

/// A protocol packet: a command, and a body once one was attached.
#[derive(Debug)]
pub struct Packet<S: BodyState> {
    command: ProtocolCommand,
    body: Option<PacketBody>,
    _marker: core::marker::PhantomData<S>,
}

impl<S: BodyState> View for Packet<S> {
    type V = PacketView;

    closed spec fn view(&self) -> PacketView {
        PacketView {
            cmd: self.command,
            body: match self.body {
                Some(b) => Some(b@),
                None => None,
            },
        }
    }
}

/// The full wire text of a frame carrying the given command and body.
pub open spec fn wire_text(cmd: ProtocolCommand, b: BodyView) -> Seq<char> {
    "#bs"@ + " "@ + cmd.token() + "\n"@ + json_of(b) + "\n#end\n"@
}

impl<S: BodyState> Packet<S> {
    /// The packet's command.
    pub fn get_cmd(&self) -> (r: &ProtocolCommand)
        ensures
            *r == self@.cmd,
    {
        &self.command
    }
}

impl Packet<NotReady> {
    /// A packet under construction: the command alone, no body yet.
    pub fn new(cmd: ProtocolCommand) -> (r: Packet<NotReady>)
        ensures
            r@.cmd == cmd,
            r@.body is None,
    {
        Packet { command: cmd, body: None, _marker: core::marker::PhantomData }
    }

    /// Attach a body.  Succeeds exactly when the body's tag equals the
    /// packet's command; a mismatched body never yields a ready packet.
    pub fn load_body(self, body: PacketBody) -> (r: Result<Packet<Ready>, PacketError>)
        ensures
            cmd_of_body(body@) == self@.cmd ==> (r matches Ok(p) && p@.cmd == self@.cmd && p@.body
                == Some(body@) && p.ready_wf()),
            cmd_of_body(body@) != self@.cmd ==> r is Err,
    {
        let body_type = body.get_cmd();
        if body_type == self.command {
            Ok(Packet { command: self.command, body: Some(body), _marker: core::marker::PhantomData })
        } else {
            Err(PacketError::new("Wrong body type"))
        }
    }
}

impl Packet<Ready> {
    /// A ready packet is well formed: it has a body, whose tag equals its
    /// command.
    pub open spec fn ready_wf(self) -> bool {
        self@.body matches Some(b) && cmd_of_body(b) == self@.cmd
    }

    /// The attached body.
    pub fn get_body(&self) -> (r: Result<&PacketBody, PacketError>)
        ensures
            match self@.body {
                Some(bv) => r matches Ok(b) && b@ == bv,
                None => r is Err,
            },
    {
        match &self.body {
            Some(body) => Ok(body),
            None => Err(PacketError::new("There is no body")),
        }
    }

    /// The full wire text of this packet's frame.
    pub fn encode(&self) -> (r: String)
        requires
            self.ready_wf(),
            self@.cmd != ProtocolCommand::Unknown,
        ensures
            r@ == wire_text(self@.cmd, self@.body.unwrap()),
    {
        let mut s = String::new();
        s.append("#bs");
        s.append(" ");
        match self.command.get_str() {
            Some(tok) => s.append(tok),
            None => {
                proof {
                    assert(false);
                }
            },
        }
        s.append("\n");
        match &self.body {
            Some(b) => {
                let bj = b.to_string();
                s.append(bj.as_str());
            },
            None => {
                proof {
                    assert(false);
                }
            },
        }
        s.append("\n#end\n");
        proof {
            assert(s@ =~= wire_text(self@.cmd, self@.body.unwrap()));
        }
        s
    }

    /// The frame as bytes, ready to be written to a stream.
    pub fn as_bytes(&self) -> (r: Vec<u8>)
        requires
            self.ready_wf(),
            self@.cmd != ProtocolCommand::Unknown,
        ensures
            r@ == vstd::utf8::encode_utf8(wire_text(self@.cmd, self@.body.unwrap())),
    {
        let s = self.encode();
        s.as_str().as_bytes_vec()
    }
}

} // verus!
