//! Decoding frames from a byte stream's text: the first line names the
//! command, the following lines up to the end-marker line are the body, and
//! the body is read as the shape the command implies.  A stream with no more
//! text is a clean end, not an error.

use vstd::prelude::*;
use crate::body_json::{parse_connect, parse_connect_resp, parse_test};
use crate::error::PacketReaderError;
use crate::tcp_protocol::{
    cmd_of_body, spec_from_cmd, wire_text, BodyView, ConnectBody, ConnectRespBody, Packet,
    PacketBody, PacketView, ProtocolCommand, Ready, TestBody,
};
use crate::text::{split_first_at, split_first_line};

verus! {

/// What decoding one frame from the front of a text can yield.
pub enum DecodeOutcome {
    /// No text at all: a clean end of the stream.
    End,
    /// A decoded packet.
    Frame(PacketView),
    /// The first line does not carry the expected header.
    HeaderError,
    /// The text ran out before the end-marker line.
    Truncated,
    /// The body does not parse as the shape the command implies.
    BodyError,
}

/// The body text: all lines after the first, each with its newline, up to
/// (and not including) the end-marker line.  `None` when the text runs out
/// before that line.
pub open spec fn collect_body(s: Seq<char>) -> Option<Seq<char>>
    decreases s.len(),
{
    if !s.contains('\n') {
        None
    } else {
        let r = split_first_line(s);
        if r.0 == "#end"@ {
            Some(Seq::empty())
        } else {
            proof {
                let i = choose|i: int| 0 <= i < s.len() && s[i] == '\n';
                crate::text::lemma_split_line_shrinks(s);
            }
            match collect_body(r.1) {
                None => None,
                Some(b) => Some(r.0 + seq!['\n'] + b),
            }
        }
    }
}

/// The body a command implies, read from the body text.
pub open spec fn spec_parse_body(cmd: ProtocolCommand, body: Seq<char>) -> Option<BodyView> {
    match cmd {
        ProtocolCommand::Test => if parse_test(body) {
            Some(BodyView::Test)
        } else {
            None
        },
        ProtocolCommand::Connect => match parse_connect(body) {
            Some(nick) => Some(BodyView::Connect { nick }),
            None => None,
        },
        ProtocolCommand::ConnectResp => match parse_connect_resp(body) {
            Some(r) => Some(BodyView::ConnectResp { opponent: r.0, game_id: r.1 }),
            None => None,
        },
        ProtocolCommand::Unknown => None,
    }
}

/// Decode one frame from its header line and its body text.
pub open spec fn spec_decode_frame(line: Seq<char>, body: Seq<char>) -> DecodeOutcome {
    match split_first_at(line, ' ') {
        None => DecodeOutcome::HeaderError,
        Some(r) => {
            if r.0 != "#bs"@ {
                DecodeOutcome::HeaderError
            } else {
                match spec_from_cmd(r.1) {
                    None => DecodeOutcome::Frame(
                        PacketView {
                            cmd: ProtocolCommand::Unknown,
                            body: Some(BodyView::Unknown { raw: body }),
                        },
                    ),
                    Some(cmd) => match spec_parse_body(cmd, body) {
                        Some(bv) => DecodeOutcome::Frame(PacketView { cmd, body: Some(bv) }),
                        None => DecodeOutcome::BodyError,
                    },
                }
            }
        },
    }
}

/// Decode one frame from the front of a text standing for the rest of the
/// stream.
pub open spec fn spec_read_packet(s: Seq<char>) -> DecodeOutcome {
    if s.len() == 0 {
        DecodeOutcome::End
    } else {
        let r = split_first_line(s);
        match collect_body(r.1) {
            None => DecodeOutcome::Truncated,
            Some(body) => spec_decode_frame(r.0, body),
        }
    }
}

// ---------------------------------------------------------------------------
// Laws of the codec
// ---------------------------------------------------------------------------

/// The full wire text of a frame carrying the given token and body line.
pub open spec fn frame_text(token: Seq<char>, body_line: Seq<char>) -> Seq<char> {
    "#bs"@ + " "@ + token + "\n"@ + body_line + "\n#end\n"@
}

proof fn lemma_no_newline_concat(a: Seq<char>, b: Seq<char>)
    requires
        !a.contains('\n'),
        !b.contains('\n'),
    ensures
        !(a + b).contains('\n'),
{
    if (a + b).contains('\n') {
        let i = choose|i: int| 0 <= i < (a + b).len() && (a + b)[i] == '\n';
        if i < a.len() {
            assert(a[i] == '\n');
            assert(a.contains('\n'));
        } else {
            assert(b[i - a.len()] == '\n');
            assert(b.contains('\n'));
        }
    }
}

/// The body line of a known body holds no newline and opens with a brace.
proof fn lemma_json_line(b: BodyView)
    requires
        !(b is Unknown),
    ensures
        !crate::tcp_protocol::json_of(b).contains('\n'),
        crate::tcp_protocol::json_of(b).len() >= 1,
        crate::tcp_protocol::json_of(b)[0] == '{',
{
    match b {
        BodyView::Test => {
            reveal_strlit("{}");
            assert(!"{}"@.contains('\n')) by {
                if "{}"@.contains('\n') {
                    let i = choose|i: int| 0 <= i < "{}"@.len() && "{}"@[i] == '\n';
                }
            }
        },
        BodyView::Connect { nick } => {
            reveal_strlit("{\"nick\":\"");
            reveal_strlit("\"}");
            let lit = "{\"nick\":\""@;
            let close = "\"}"@;
            assert(!lit.contains('\n')) by {
                if lit.contains('\n') {
                    let i = choose|i: int| 0 <= i < lit.len() && lit[i] == '\n';
                }
            }
            assert(!close.contains('\n')) by {
                if close.contains('\n') {
                    let i = choose|i: int| 0 <= i < close.len() && close[i] == '\n';
                }
            }
            crate::body_json::lemma_esc_no_newline(nick);
            lemma_no_newline_concat(lit, crate::body_json::esc(nick));
            lemma_no_newline_concat(lit + crate::body_json::esc(nick), close);
            assert(crate::tcp_protocol::json_of(b)[0] == lit[0]);
        },
        BodyView::ConnectResp { opponent, game_id } => {
            reveal_strlit("{\"opponent\":");
            reveal_strlit(",\"game_id\":");
            reveal_strlit("}");
            reveal_strlit("true");
            reveal_strlit("false");
            let lit1 = "{\"opponent\":"@;
            let lit2 = ",\"game_id\":"@;
            let close = "}"@;
            let bt = crate::body_json::bool_text(opponent);
            let ds = crate::text::dec_digits(game_id as nat);
            assert(!lit1.contains('\n')) by {
                if lit1.contains('\n') {
                    let i = choose|i: int| 0 <= i < lit1.len() && lit1[i] == '\n';
                }
            }
            assert(!lit2.contains('\n')) by {
                if lit2.contains('\n') {
                    let i = choose|i: int| 0 <= i < lit2.len() && lit2[i] == '\n';
                }
            }
            assert(!close.contains('\n')) by {
                if close.contains('\n') {
                    let i = choose|i: int| 0 <= i < close.len() && close[i] == '\n';
                }
            }
            assert(!bt.contains('\n')) by {
                if bt.contains('\n') {
                    let i = choose|i: int| 0 <= i < bt.len() && bt[i] == '\n';
                }
            }
            assert(!ds.contains('\n')) by {
                crate::text::lemma_dec_digits(game_id as nat);
                if ds.contains('\n') {
                    let i = choose|i: int| 0 <= i < ds.len() && ds[i] == '\n';
                    assert(crate::text::digit_of(ds[i]) is Some);
                }
            }
            lemma_no_newline_concat(lit1, bt);
            lemma_no_newline_concat(lit1 + bt, lit2);
            lemma_no_newline_concat(lit1 + bt + lit2, ds);
            lemma_no_newline_concat(lit1 + bt + lit2 + ds, close);
            assert(crate::tcp_protocol::json_of(b)[0] == lit1[0]);
        },
        BodyView::Unknown { .. } => {
            assert(false);
        },
    }
}

/// Collecting the body of a canonical frame remainder — one body line, then
/// the end-marker line — yields the body line with its newline.
proof fn lemma_collect_canonical(body_line: Seq<char>)
    requires
        !body_line.contains('\n'),
        body_line != "#end"@,
    ensures
        collect_body(body_line + seq!['\n'] + ("#end"@ + seq!['\n'])) == Some(
            body_line.push('\n'),
        ),
{
    reveal_strlit("#end");
    let tail = "#end"@ + seq!['\n'];
    let s = body_line + seq!['\n'] + tail;
    assert(s[body_line.len() as int] == '\n');
    assert(s.contains('\n'));
    crate::text::lemma_split_line_concat(body_line, tail);
    assert(!"#end"@.contains('\n')) by {
        if "#end"@.contains('\n') {
            let i = choose|i: int| 0 <= i < "#end"@.len() && "#end"@[i] == '\n';
        }
    }
    assert(tail["#end"@.len() as int] == '\n');
    assert(tail.contains('\n'));
    assert(tail =~= "#end"@ + seq!['\n'] + Seq::<char>::empty());
    crate::text::lemma_split_line_concat("#end"@, Seq::<char>::empty());
    assert(split_first_line(tail).0 =~= "#end"@);
    assert(collect_body(tail) == Some(Seq::<char>::empty()));
    assert(split_first_line(s).0 =~= body_line);
    assert(split_first_line(s).1 =~= tail);
    assert(collect_body(s) == Some(body_line + seq!['\n'] + Seq::<char>::empty()));
    assert(body_line + seq!['\n'] + Seq::<char>::empty() =~= body_line.push('\n'));
}

/// Reading a whole canonical frame reduces to decoding its header line and
/// its body line (the latter with its newline).
proof fn lemma_read_frame(token: Seq<char>, body_line: Seq<char>)
    requires
        !token.contains('\n'),
        !body_line.contains('\n'),
        body_line != "#end"@,
    ensures
        spec_read_packet(frame_text(token, body_line)) == spec_decode_frame(
            "#bs"@ + " "@ + token,
            body_line.push('\n'),
        ),
{
    reveal_strlit("#bs");
    reveal_strlit(" ");
    reveal_strlit("\n");
    reveal_strlit("\n#end\n");
    reveal_strlit("#end");
    let line0 = "#bs"@ + " "@ + token;
    let s = frame_text(token, body_line);
    let rest0 = body_line + seq!['\n'] + ("#end"@ + seq!['\n']);
    assert(!"#bs"@.contains('\n')) by {
        if "#bs"@.contains('\n') {
            let i = choose|i: int| 0 <= i < "#bs"@.len() && "#bs"@[i] == '\n';
        }
    }
    assert(!" "@.contains('\n')) by {
        if " "@.contains('\n') {
            let i = choose|i: int| 0 <= i < " "@.len() && " "@[i] == '\n';
        }
    }
    lemma_no_newline_concat("#bs"@, " "@);
    lemma_no_newline_concat("#bs"@ + " "@, token);
    assert("\n#end\n"@ =~= seq!['\n'] + ("#end"@ + seq!['\n']));
    assert(s =~= line0 + seq!['\n'] + rest0);
    crate::text::lemma_split_line_concat(line0, rest0);
    assert(split_first_line(s).0 =~= line0);
    assert(split_first_line(s).1 =~= rest0);
    lemma_collect_canonical(body_line);
    assert(s.len() > 0);
}

/// Decoding a frame whose header is the expected constant goes by the token:
/// a known token's body is parsed, an unknown token keeps the raw body.
proof fn lemma_decode_frame_header(token: Seq<char>, body: Seq<char>)
    requires
        !token.contains(' '),
    ensures
        spec_decode_frame("#bs"@ + " "@ + token, body) == (match spec_from_cmd(token) {
            None => DecodeOutcome::Frame(
                PacketView {
                    cmd: ProtocolCommand::Unknown,
                    body: Some(BodyView::Unknown { raw: body }),
                },
            ),
            Some(cmd) => match spec_parse_body(cmd, body) {
                Some(bv) => DecodeOutcome::Frame(PacketView { cmd, body: Some(bv) }),
                None => DecodeOutcome::BodyError,
            },
        }),
{
    reveal_strlit("#bs");
    reveal_strlit(" ");
    let line0 = "#bs"@ + " "@ + token;
    assert(line0 =~= "#bs"@ + seq![' '] + token);
    assert(!"#bs"@.contains(' ')) by {
        if "#bs"@.contains(' ') {
            let i = choose|i: int| 0 <= i < "#bs"@.len() && "#bs"@[i] == ' ';
        }
    }
    crate::text::lemma_split_at_concat("#bs"@, ' ', token);
    assert(split_first_at(line0, ' ') matches Some(r) && r.0 =~= "#bs"@ && r.1 =~= token);
}

/// No frame token of a known command holds a newline or a space, and each
/// maps back to its command.
proof fn lemma_token_facts(cmd: ProtocolCommand)
    requires
        cmd != ProtocolCommand::Unknown,
    ensures
        !cmd.token().contains('\n'),
        !cmd.token().contains(' '),
        spec_from_cmd(cmd.token()) == Some(cmd),
{
    reveal_strlit("test");
    reveal_strlit("connect");
    reveal_strlit("connect_resp");
    let t = cmd.token();
    assert(!t.contains('\n')) by {
        if t.contains('\n') {
            let i = choose|i: int| 0 <= i < t.len() && t[i] == '\n';
        }
    }
    assert(!t.contains(' ')) by {
        if t.contains(' ') {
            let i = choose|i: int| 0 <= i < t.len() && t[i] == ' ';
        }
    }
    assert("test"@.len() == 4);
    assert("connect"@.len() == 7);
    assert("connect_resp"@.len() == 12);
    match cmd {
        ProtocolCommand::Test => {
            assert("test"@ != "connect"@);
            assert("test"@ != "connect_resp"@);
        },
        ProtocolCommand::ConnectResp => {
            assert("connect_resp"@ != "connect"@);
        },
        _ => {
        },
    }
}

/// Round trip: the wire text of any ready packet with a known command reads
/// back to a packet with the same command and an equal body.
pub proof fn lemma_round_trip(cmd: ProtocolCommand, b: BodyView)
    requires
        cmd != ProtocolCommand::Unknown,
        cmd_of_body(b) == cmd,
    ensures
        spec_read_packet(wire_text(cmd, b)) == DecodeOutcome::Frame(
            PacketView { cmd, body: Some(b) },
        ),
{
    let token = cmd.token();
    let body_line = crate::tcp_protocol::json_of(b);
    lemma_token_facts(cmd);
    assert(!(b is Unknown));
    lemma_json_line(b);
    assert(body_line != "#end"@) by {
        reveal_strlit("#end");
        assert("#end"@[0] == '#');
        assert(body_line[0] == '{');
    }
    assert(wire_text(cmd, b) == frame_text(token, body_line));
    lemma_read_frame(token, body_line);
    lemma_decode_frame_header(token, body_line.push('\n'));
    let body = body_line.push('\n');
    assert(crate::body_json::all_ws(seq!['\n'])) by {
        assert forall|i: int| 0 <= i < seq!['\n'].len() implies crate::body_json::is_ws(
            #[trigger] seq!['\n'][i],
        ) by {
            assert(seq!['\n'][i] == '\n');
        }
    }
    match b {
        BodyView::Test => {
            crate::body_json::lemma_parse_test_json(seq!['\n']);
            assert(body =~= crate::body_json::test_json() + seq!['\n']);
            assert(crate::body_json::parse_test(body));
        },
        BodyView::Connect { nick } => {
            crate::body_json::lemma_parse_connect_json(nick, seq!['\n']);
            assert(body =~= crate::body_json::connect_json(nick) + seq!['\n']);
            assert(crate::body_json::parse_connect(body) matches Some(n) && n =~= nick);
        },
        BodyView::ConnectResp { opponent, game_id } => {
            crate::body_json::lemma_parse_connect_resp_json(opponent, game_id, seq!['\n']);
            assert(body =~= crate::body_json::connect_resp_json(opponent, game_id)
                + seq!['\n']);
            assert(crate::body_json::parse_connect_resp(body) matches Some(r) && r.0 == opponent
                && r.1 == game_id);
        },
        BodyView::Unknown { .. } => {
            assert(false);
        },
    }
}

/// Framing: a non-empty stream whose first line does not open with the
/// expected header constant never yields a packet, only a framing error —
/// the header error when the end-marker line is there, truncation when the
/// stream runs out first.
pub proof fn lemma_wrong_header(s: Seq<char>)
    requires
        s.len() > 0,
        split_first_at(split_first_line(s).0, ' ') matches Some(p) ==> p.0 != "#bs"@,
    ensures
        spec_read_packet(s) == DecodeOutcome::HeaderError || spec_read_packet(s)
            == DecodeOutcome::Truncated,
        collect_body(split_first_line(s).1) is Some ==> spec_read_packet(s)
            == DecodeOutcome::HeaderError,
{
}

/// Unknown command: a well-formed frame whose token names no known command
/// decodes without error, to a packet tagged unknown that keeps the raw body
/// text.
pub proof fn lemma_unknown_command(token: Seq<char>, body_line: Seq<char>)
    requires
        !token.contains('\n'),
        !token.contains(' '),
        spec_from_cmd(token) is None,
        !body_line.contains('\n'),
        body_line != "#end"@,
    ensures
        spec_read_packet(frame_text(token, body_line)) == DecodeOutcome::Frame(
            PacketView {
                cmd: ProtocolCommand::Unknown,
                body: Some(BodyView::Unknown { raw: body_line.push('\n') }),
            },
        ),
{
    lemma_read_frame(token, body_line);
    lemma_decode_frame_header(token, body_line.push('\n'));
}

// ---------------------------------------------------------------------------
// Executable decoding
// ---------------------------------------------------------------------------

/// Build a ready packet from a command and a matching body.
fn make_packet(cmd: ProtocolCommand, body: PacketBody) -> (p: Packet<Ready>)
    requires
        cmd_of_body(body@) == cmd,
    ensures
        p@.cmd == cmd,
        p@.body == Some(body@),
        p.ready_wf(),
{
    match Packet::new(cmd).load_body(body) {
        Ok(p) => p,
        Err(_) => {
            proof {
                assert(false);
            }
            vstd::pervasive::unreached()
        },
    }
}

/// The body text starting at the front of `v`, as `collect_body` describes.
fn collect_body_chars(v: &[char]) -> (r: Option<Vec<char>>)
    ensures
        match collect_body(v@) {
            Some(b) => r matches Some(c) && c@ == b,
            None => r is None,
        },
    decreases v@.len(),
{
    let (line, next, found) = crate::text::take_line(v);
    if !found {
        return None;
    }
    if crate::text::chars_eq_str(line.as_slice(), "#end") {
        return Some(Vec::new());
    }
    let tail = vstd::slice::slice_subrange(v, next, v.len());
    match collect_body_chars(tail) {
        None => None,
        Some(mut sub) => {
            let mut out = line;
            out.push('\n');
            out.append(&mut sub);
            proof {
                assert(out@ =~= split_first_line(v@).0 + seq!['\n'] + collect_body(
                    v@.skip(next as int),
                ).unwrap());
            }
            Some(out)
        },
    }
}

/// The position of the first space in `v`, if it has one.
fn find_space(v: &[char]) -> (r: Option<usize>)
    ensures
        match split_first_at(v@, ' ') {
            Some(p) => {
                &&& r matches Some(i)
                &&& i < v@.len()
                &&& p.0 == v@.take(i as int)
                &&& p.1 == v@.skip(i as int + 1)
            },
            None => r is None,
        },
{
    let n = v.len();
    let mut i: usize = 0;
    while i < n
        invariant
            i <= n,
            n == v@.len(),
            forall|j: int| 0 <= j < i ==> v@[j] != ' ',
        decreases n - i,
    {
        if *vstd::slice::slice_index_get(v, i) == ' ' {
            proof {
                assert(v@ =~= v@.take(i as int) + seq![' '] + v@.skip(i as int + 1));
                assert(!v@.take(i as int).contains(' ')) by {
                    if v@.take(i as int).contains(' ') {
                        let k = choose|k: int| 0 <= k < i && v@.take(i as int)[k] == ' ';
                        assert(v@[k] == ' ');
                    }
                }
                crate::text::lemma_split_at_concat(v@.take(i as int), ' ', v@.skip(i as int + 1));
            }
            return Some(i);
        }
        i = i + 1;
    }
    proof {
        assert(!v@.contains(' ')) by {
            if v@.contains(' ') {
                let k = choose|k: int| 0 <= k < v@.len() && v@[k] == ' ';
            }
        }
        crate::text::lemma_split_at_none(v@, ' ');
    }
    None
}

/// Decode one frame from its header line and its body text, both given as
/// characters.
fn decode_frame_chars(line: &[char], body: &[char]) -> (r: Result<
    Packet<Ready>,
    PacketReaderError,
>)
    ensures
        match spec_decode_frame(line@, body@) {
            DecodeOutcome::Frame(pv) => r matches Ok(p) && p@ == pv && p.ready_wf(),
            DecodeOutcome::HeaderError => r matches Err(e) && e@ == "Wrong packet header"@,
            DecodeOutcome::BodyError => r matches Err(e) && e@ == "Wrong body"@,
            _ => false,
        },
{
    let sp = match find_space(line) {
        Some(i) => i,
        None => {
            return Err(PacketReaderError::new("Wrong packet header".to_owned()));
        },
    };
    let n = line.len();
    proof {
        assert(sp < n);
    }
    let hdr = vstd::slice::slice_subrange(line, 0, sp);
    let tok = vstd::slice::slice_subrange(line, sp + 1, n);
    if !crate::text::chars_eq_str(hdr, "#bs") {
        return Err(PacketReaderError::new("Wrong packet header".to_owned()));
    }
    match crate::tcp_protocol::cmd_from_chars(tok) {
        None => {
            let mut raw = String::new();
            crate::text::append_chars(&mut raw, body);
            let p = make_packet(ProtocolCommand::Unknown, PacketBody::Unknown(raw));
            Ok(p)
        },
        Some(cmd) => match cmd {
            ProtocolCommand::Test => {
                if crate::body_json::parse_test_body(body) {
                    Ok(make_packet(ProtocolCommand::Test, PacketBody::Test(TestBody {})))
                } else {
                    Err(PacketReaderError::new("Wrong body".to_owned()))
                }
            },
            ProtocolCommand::Connect => {
                match crate::body_json::parse_connect_body(body) {
                    Some(nick) => Ok(
                        make_packet(
                            ProtocolCommand::Connect,
                            PacketBody::Connect(ConnectBody::new(nick)),
                        ),
                    ),
                    None => Err(PacketReaderError::new("Wrong body".to_owned())),
                }
            },
            ProtocolCommand::ConnectResp => {
                match crate::body_json::parse_connect_resp_body(body) {
                    Some((opponent, game_id)) => Ok(
                        make_packet(
                            ProtocolCommand::ConnectResp,
                            PacketBody::ConnectResp(ConnectRespBody::new(opponent, game_id)),
                        ),
                    ),
                    None => Err(PacketReaderError::new("Wrong body".to_owned())),
                }
            },
            ProtocolCommand::Unknown => {
                proof {
                    assert(false);
                }
                vstd::pervasive::unreached()
            },
        },
    }
}

/// Decode one frame from its header line (without its newline) and its
/// accumulated body text (each line with its newline).
pub fn decode_frame(header_line: &str, body_text: &str) -> (r: Result<
    Packet<Ready>,
    PacketReaderError,
>)
    ensures
        match spec_decode_frame(header_line@, body_text@) {
            DecodeOutcome::Frame(pv) => r matches Ok(p) && p@ == pv && p.ready_wf(),
            DecodeOutcome::HeaderError => r matches Err(e) && e@ == "Wrong packet header"@,
            DecodeOutcome::BodyError => r matches Err(e) && e@ == "Wrong body"@,
            _ => false,
        },
{
    let line = crate::text::str_to_chars(header_line);
    let body = crate::text::str_to_chars(body_text);
    decode_frame_chars(line.as_slice(), body.as_slice())
}

/// Decode one frame from the front of `input`, which stands for the rest of
/// the stream.  An empty input is a clean end of stream, `Ok(None)`.
pub fn read_packet(input: &str) -> (r: Result<Option<Packet<Ready>>, PacketReaderError>)
    ensures
        match spec_read_packet(input@) {
            DecodeOutcome::End => r matches Ok(o) && o is None,
            DecodeOutcome::Frame(pv) => r matches Ok(o) && o matches Some(p) && p@ == pv
                && p.ready_wf(),
            DecodeOutcome::HeaderError => r matches Err(e) && e@ == "Wrong packet header"@,
            DecodeOutcome::Truncated => r matches Err(e) && e@
                == "Stream ended before the end marker"@,
            DecodeOutcome::BodyError => r matches Err(e) && e@ == "Wrong body"@,
        },
{
    let chars = crate::text::str_to_chars(input);
    let v = chars.as_slice();
    if v.len() == 0 {
        return Ok(None);
    }
    let (line, next, _found) = crate::text::take_line(v);
    let tail = vstd::slice::slice_subrange(v, next, v.len());
    match collect_body_chars(tail) {
        None => Err(PacketReaderError::new("Stream ended before the end marker".to_owned())),
        Some(body) => match decode_frame_chars(line.as_slice(), body.as_slice()) {
            Ok(p) => Ok(Some(p)),
            Err(e) => Err(e),
        },
    }
}

} // verus!
