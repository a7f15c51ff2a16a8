//! The body line of a frame: a small JSON grammar, one object shape per
//! command.  The codec always writes the canonical form (no spaces, fields in
//! declaration order, strings escaped) and reads that form back, allowing
//! trailing whitespace such as the newline that ends the body line.

use vstd::prelude::*;
use crate::text::{all_digits, dec_digits, digit_of, digit_prefix_len, digits_val};

verus! {

// ---------------------------------------------------------------------------
// Strings: escaping and reading back
// ---------------------------------------------------------------------------

/// How one character is written inside a JSON string.
pub open spec fn esc_char(c: char) -> Seq<char> {
    if c == '"' {
        seq!['\\', '"']
    } else if c == '\\' {
        seq!['\\', '\\']
    } else if c == '\n' {
        seq!['\\', 'n']
    } else if c == '\r' {
        seq!['\\', 'r']
    } else if c == '\t' {
        seq!['\\', 't']
    } else {
        seq![c]
    }
}

/// How a whole text is written inside a JSON string.
pub open spec fn esc(s: Seq<char>) -> Seq<char>
    decreases s.len(),
{
    if s.len() == 0 {
        Seq::empty()
    } else {
        esc_char(s[0]) + esc(s.drop_first())
    }
}

/// The character named by an escape code, if the code is known.
pub open spec fn unesc_char(c: char) -> Option<char> {
    if c == '"' {
        Some('"')
    } else if c == '\\' {
        Some('\\')
    } else if c == '/' {
        Some('/')
    } else if c == 'n' {
        Some('\n')
    } else if c == 'r' {
        Some('\r')
    } else if c == 't' {
        Some('\t')
    } else {
        None
    }
}

/// Escaping distributes over concatenation.
pub proof fn lemma_esc_concat(a: Seq<char>, b: Seq<char>)
    ensures
        esc(a + b) =~= esc(a) + esc(b),
    decreases a.len(),
{
    if a.len() == 0 {
        assert(a + b =~= b);
    } else {
        assert((a + b).drop_first() =~= a.drop_first() + b);
        lemma_esc_concat(a.drop_first(), b);
    }
}

/// Escaped text never holds a raw newline: the escape of a newline is the
/// two characters `\` `n`.
pub proof fn lemma_esc_no_newline(s: Seq<char>)
    ensures
        !esc(s).contains('\n'),
    decreases s.len(),
{
    if s.len() > 0 {
        lemma_esc_no_newline(s.drop_first());
        assert forall|i: int| 0 <= i < esc(s).len() implies esc(s)[i] != '\n' by {
            let head = esc_char(s[0]);
            assert(esc(s) == head + esc(s.drop_first()));
            if i < head.len() {
                assert(head[i] != '\n');
            } else {
                assert(esc(s)[i] == esc(s.drop_first())[i - head.len()]);
                assert(!esc(s.drop_first()).contains('\n'));
            }
        }
        if esc(s).contains('\n') {
            let i = choose|i: int| 0 <= i < esc(s).len() && esc(s)[i] == '\n';
        }
    }
}

/// Read the contents of a JSON string, the opening quote already consumed:
/// the text up to the closing quote, unescaped, and what follows the quote.
pub open spec fn parse_jstring(s: Seq<char>) -> Option<(Seq<char>, Seq<char>)>
    decreases s.len(),
{
    if s.len() == 0 {
        None
    } else if s[0] == '"' {
        Some((Seq::empty(), s.drop_first()))
    } else if s[0] == '\\' {
        if s.len() < 2 {
            None
        } else {
            match unesc_char(s[1]) {
                None => None,
                Some(c) => match parse_jstring(s.skip(2)) {
                    None => None,
                    Some(r) => Some((seq![c] + r.0, r.1)),
                },
            }
        }
    } else {
        match parse_jstring(s.drop_first()) {
            None => None,
            Some(r) => Some((seq![s[0]] + r.0, r.1)),
        }
    }
}

/// Reading back an escaped text followed by its closing quote yields the text
/// and what follows the quote.
pub proof fn lemma_parse_esc(content: Seq<char>, rest: Seq<char>)
    ensures
        parse_jstring(esc(content) + seq!['"'] + rest) matches Some(r) && r.0 =~= content && r.1
            =~= rest,
    decreases content.len(),
{
    let s = esc(content) + seq!['"'] + rest;
    if content.len() == 0 {
        assert(s[0] == '"');
        assert(s.drop_first() =~= rest);
    } else {
        let c = content[0];
        let tail = content.drop_first();
        assert(esc(content) =~= esc_char(c) + esc(tail));
        lemma_parse_esc(tail, rest);
        if c == '"' || c == '\\' || c == '\n' || c == '\r' || c == '\t' {
            assert(s[0] == '\\');
            assert(s.len() >= 2);
            assert(unesc_char(s[1]) == Some(c));
            assert(s.skip(2) =~= esc(tail) + seq!['"'] + rest);
        } else {
            assert(s[0] == c);
            assert(c != '"' && c != '\\');
            assert(s.drop_first() =~= esc(tail) + seq!['"'] + rest);
        }
    }
}

// ---------------------------------------------------------------------------
// Numbers and booleans
// ---------------------------------------------------------------------------

/// `s` begins with `prefix`.
pub open spec fn starts_with(s: Seq<char>, prefix: Seq<char>) -> bool {
    s.len() >= prefix.len() && s.take(prefix.len() as int) == prefix
}

/// Read an unsigned decimal number: its value and what follows the digits.
/// A value that does not fit a `u32` is refused.
pub open spec fn parse_u32(s: Seq<char>) -> Option<(u32, Seq<char>)> {
    let k = digit_prefix_len(s);
    if k == 0 {
        None
    } else {
        let v = digits_val(s.take(k));
        if v > u32::MAX {
            None
        } else {
            Some((v as u32, s.skip(k)))
        }
    }
}

/// Reading back the decimal rendering of `n`, followed by text that does not
/// start with a digit, yields `n` and that text.
pub proof fn lemma_parse_u32_dec(n: u32, rest: Seq<char>)
    requires
        rest.len() == 0 || digit_of(rest[0]) is None,
    ensures
        parse_u32(dec_digits(n as nat) + rest) matches Some(r) && r.0 == n && r.1 =~= rest,
{
    crate::text::lemma_dec_digits(n as nat);
    crate::text::lemma_digit_prefix_concat(dec_digits(n as nat), rest);
}

/// The wire text of a boolean.
pub open spec fn bool_text(b: bool) -> Seq<char> {
    if b {
        "true"@
    } else {
        "false"@
    }
}

/// Read a boolean literal: its value and what follows it.
pub open spec fn parse_bool(s: Seq<char>) -> Option<(bool, Seq<char>)> {
    if starts_with(s, "true"@) {
        Some((true, s.skip("true"@.len() as int)))
    } else if starts_with(s, "false"@) {
        Some((false, s.skip("false"@.len() as int)))
    } else {
        None
    }
}

/// Reading back the wire text of a boolean yields that boolean.
pub proof fn lemma_parse_bool_text(b: bool, rest: Seq<char>)
    requires
        rest.len() == 0 || rest[0] != 'r',
    ensures
        parse_bool(bool_text(b) + rest) matches Some(r) && r.0 == b && r.1 =~= rest,
{
    reveal_strlit("true");
    reveal_strlit("false");
    let s = bool_text(b) + rest;
    if b {
        assert(s.take(4) =~= "true"@);
        assert(s.skip(4) =~= rest);
    } else {
        assert(s.take(5) =~= "false"@);
        assert(s.skip(5) =~= rest);
        assert(!starts_with(s, "true"@)) by {
            if starts_with(s, "true"@) {
                assert(s.take(4)[1] == 'r');
                assert(s[1] == 'a');
            }
        }
    }
}

// ---------------------------------------------------------------------------
// Whitespace
// ---------------------------------------------------------------------------

/// A JSON whitespace character.
pub open spec fn is_ws(c: char) -> bool {
    c == ' ' || c == '\t' || c == '\n' || c == '\r'
}

/// Every character of `s` is whitespace.
pub open spec fn all_ws(s: Seq<char>) -> bool {
    forall|i: int| 0 <= i < s.len() ==> is_ws(#[trigger] s[i])
}

// ---------------------------------------------------------------------------
// The three body shapes
// ---------------------------------------------------------------------------

/// Canonical body of a test packet.
pub open spec fn test_json() -> Seq<char> {
    "{}"@
}

/// Canonical body of a connect packet.
pub open spec fn connect_json(nick: Seq<char>) -> Seq<char> {
    "{\"nick\":\""@ + esc(nick) + "\"}"@
}

/// Canonical body of a connect response packet.
pub open spec fn connect_resp_json(opponent: bool, game_id: u32) -> Seq<char> {
    "{\"opponent\":"@ + bool_text(opponent) + ",\"game_id\":"@ + dec_digits(game_id as nat)
        + "}"@
}

/// Whether `s` is a test body: the empty object, then only whitespace.
pub open spec fn parse_test(s: Seq<char>) -> bool {
    starts_with(s, "{}"@) && all_ws(s.skip("{}"@.len() as int))
}

/// Read a connect body: the nick, if `s` is the canonical connect object
/// followed only by whitespace.
pub open spec fn parse_connect(s: Seq<char>) -> Option<Seq<char>> {
    if !starts_with(s, "{\"nick\":\""@) {
        None
    } else {
        match parse_jstring(s.skip("{\"nick\":\""@.len() as int)) {
            None => None,
            Some(r) => {
                if r.1.len() >= 1 && r.1[0] == '}' && all_ws(r.1.skip(1)) {
                    Some(r.0)
                } else {
                    None
                }
            },
        }
    }
}

/// Read a connect response body: the opponent flag and game id, if `s` is the
/// canonical connect response object followed only by whitespace.
pub open spec fn parse_connect_resp(s: Seq<char>) -> Option<(bool, u32)> {
    if !starts_with(s, "{\"opponent\":"@) {
        None
    } else {
        match parse_bool(s.skip("{\"opponent\":"@.len() as int)) {
            None => None,
            Some(r1) => {
                if !starts_with(r1.1, ",\"game_id\":"@) {
                    None
                } else {
                    match parse_u32(r1.1.skip(",\"game_id\":"@.len() as int)) {
                        None => None,
                        Some(r2) => {
                            if r2.1.len() >= 1 && r2.1[0] == '}' && all_ws(r2.1.skip(1)) {
                                Some((r1.0, r2.0))
                            } else {
                                None
                            }
                        },
                    }
                }
            },
        }
    }
}

// ---------------------------------------------------------------------------
// Round trips: each canonical body reads back to what was written
// ---------------------------------------------------------------------------

/// A canonical test body, with trailing whitespace, reads back as one.
pub proof fn lemma_parse_test_json(ws: Seq<char>)
    requires
        all_ws(ws),
    ensures
        parse_test(test_json() + ws),
{
    reveal_strlit("{}");
    let s = test_json() + ws;
    assert(s.take(2) =~= "{}"@);
    assert(s.skip(2) =~= ws);
}

/// A canonical connect body, with trailing whitespace, reads back to its
/// nick.
pub proof fn lemma_parse_connect_json(nick: Seq<char>, ws: Seq<char>)
    requires
        all_ws(ws),
    ensures
        parse_connect(connect_json(nick) + ws) matches Some(n) && n =~= nick,
{
    reveal_strlit("{\"nick\":\"");
    reveal_strlit("\"}");
    let lit = "{\"nick\":\""@;
    let close = "\"}"@;
    let s = connect_json(nick) + ws;
    assert(s.take(lit.len() as int) =~= lit);
    assert(close[0] == '"');
    assert(s.skip(lit.len() as int) =~= esc(nick) + seq!['"'] + (seq!['}'] + ws)) by {
        assert(close =~= seq!['"'] + seq!['}']);
        assert(s =~= lit + (esc(nick) + seq!['"'] + (seq!['}'] + ws)));
    }
    lemma_parse_esc(nick, seq!['}'] + ws);
    let r = parse_jstring(s.skip(lit.len() as int)).unwrap();
    assert(r.1 =~= seq!['}'] + ws);
    assert(r.1[0] == '}');
    assert(r.1.skip(1) =~= ws);
}

/// A canonical connect response body, with trailing whitespace, reads back to
/// its flag and game id.
pub proof fn lemma_parse_connect_resp_json(opponent: bool, game_id: u32, ws: Seq<char>)
    requires
        all_ws(ws),
    ensures
        parse_connect_resp(connect_resp_json(opponent, game_id) + ws) matches Some(r) && r.0
            == opponent && r.1 == game_id,
{
    reveal_strlit("{\"opponent\":");
    reveal_strlit(",\"game_id\":");
    reveal_strlit("}");
    let lit1 = "{\"opponent\":"@;
    let lit2 = ",\"game_id\":"@;
    let s = connect_resp_json(opponent, game_id) + ws;
    let after_num: Seq<char> = seq!['}'] + ws;
    assert(s =~= lit1 + (bool_text(opponent) + (lit2 + (dec_digits(game_id as nat)
        + after_num))));
    assert(s.take(lit1.len() as int) =~= lit1);
    assert(s.skip(lit1.len() as int) =~= bool_text(opponent) + (lit2 + (dec_digits(
        game_id as nat,
    ) + after_num)));
    let rest1 = lit2 + (dec_digits(game_id as nat) + after_num);
    assert(rest1[0] == ',');
    lemma_parse_bool_text(opponent, rest1);
    let r1 = parse_bool(s.skip(lit1.len() as int)).unwrap();
    assert(r1.1 =~= rest1);
    assert(r1.1.take(lit2.len() as int) =~= lit2);
    assert(r1.1.skip(lit2.len() as int) =~= dec_digits(game_id as nat) + after_num);
    assert(after_num[0] == '}');
    assert(digit_of('}') is None);
    lemma_parse_u32_dec(game_id, after_num);
    let r2 = parse_u32(r1.1.skip(lit2.len() as int)).unwrap();
    assert(r2.1 =~= after_num);
    assert(r2.1[0] == '}');
    assert(r2.1.skip(1) =~= ws);
}

// ---------------------------------------------------------------------------
// Executable encoding
// ---------------------------------------------------------------------------

/// Append one character to a string in its escaped form.
pub fn push_escaped(s: &mut String, c: char)
    ensures
        final(s)@ == old(s)@ + esc_char(c),
{
    if c == '"' {
        crate::text::push_char(s, '\\');
        crate::text::push_char(s, '"');
    } else if c == '\\' {
        crate::text::push_char(s, '\\');
        crate::text::push_char(s, '\\');
    } else if c == '\n' {
        crate::text::push_char(s, '\\');
        crate::text::push_char(s, 'n');
    } else if c == '\r' {
        crate::text::push_char(s, '\\');
        crate::text::push_char(s, 'r');
    } else if c == '\t' {
        crate::text::push_char(s, '\\');
        crate::text::push_char(s, 't');
    } else {
        crate::text::push_char(s, c);
    }
    proof {
        assert(final(s)@ =~= old(s)@ + esc_char(c));
    }
}

/// Append a whole text to a string in its escaped form.
pub fn append_escaped(s: &mut String, t: &str)
    ensures
        final(s)@ == old(s)@ + esc(t@),
{
    let n = t.unicode_len();
    let mut i: usize = 0;
    while i < n
        invariant
            i <= n,
            n == t@.len(),
            s@ == old(s)@ + esc(t@.take(i as int)),
        decreases n - i,
    {
        let c = t.get_char(i);
        push_escaped(s, c);
        proof {
            lemma_esc_concat(t@.take(i as int), seq![c]);
            assert(t@.take(i + 1) =~= t@.take(i as int) + seq![c]);
            assert(esc(seq![c]) =~= esc_char(c)) by {
                assert(seq![c][0] == c);
                assert(seq![c].drop_first() =~= Seq::<char>::empty());
                assert(esc(Seq::<char>::empty()) == Seq::<char>::empty());
                assert(esc(seq![c]) =~= esc_char(c) + Seq::<char>::empty());
            }
            assert(s@ =~= old(s)@ + esc(t@.take(i + 1)));
        }
        i = i + 1;
    }
    proof {
        assert(t@.take(n as int) =~= t@);
    }
}

/// Append the wire text of a boolean to a string.
pub fn append_bool(s: &mut String, b: bool)
    ensures
        final(s)@ == old(s)@ + bool_text(b),
{
    if b {
        s.append("true");
    } else {
        s.append("false");
    }
}

// ---------------------------------------------------------------------------
// Executable parsing
// ---------------------------------------------------------------------------

/// Whether a character is JSON whitespace.
pub fn is_ws_char(c: char) -> (b: bool)
    ensures
        b == is_ws(c),
{
    c == ' ' || c == '\t' || c == '\n' || c == '\r'
}

/// Whether everything at or after position `i` is whitespace.
pub fn all_ws_from(v: &[char], i: usize) -> (b: bool)
    requires
        i <= v@.len(),
    ensures
        b == all_ws(v@.skip(i as int)),
{
    let n = v.len();
    let mut j: usize = i;
    while j < n
        invariant
            i <= j <= n,
            n == v@.len(),
            forall|k: int| i <= k < j ==> is_ws(#[trigger] v@[k]),
        decreases n - j,
    {
        let c = *vstd::slice::slice_index_get(v, j);
        if !is_ws_char(c) {
            proof {
                assert(v@.skip(i as int)[j - i] == v@[j as int]);
                assert(!all_ws(v@.skip(i as int)));
            }
            return false;
        }
        j = j + 1;
    }
    proof {
        assert forall|k: int| 0 <= k < v@.skip(i as int).len() implies is_ws(
            #[trigger] v@.skip(i as int)[k],
        ) by {
            assert(v@.skip(i as int)[k] == v@[k + i]);
        }
    }
    true
}

/// Whether the text at position `i` begins with the given literal.
pub fn starts_with_lit(v: &[char], i: usize, lit: &str) -> (b: bool)
    requires
        i <= v@.len(),
    ensures
        b == starts_with(v@.skip(i as int), lit@),
{
    let n = lit.unicode_len();
    if v.len() - i < n {
        proof {
            assert(v@.skip(i as int).len() < lit@.len());
        }
        return false;
    }
    let sub = vstd::slice::slice_subrange(v, i, i + n);
    let b = crate::text::chars_eq_str(sub, lit);
    proof {
        assert(sub@ =~= v@.skip(i as int).take(lit@.len() as int));
    }
    b
}

/// The character named by an escape code, if the code is known.
pub fn unescape_char(c: char) -> (r: Option<char>)
    ensures
        r == unesc_char(c),
{
    match c {
        '"' => Some('"'),
        '\\' => Some('\\'),
        '/' => Some('/'),
        'n' => Some('\n'),
        'r' => Some('\r'),
        't' => Some('\t'),
        _ => None,
    }
}

/// Read a JSON string's contents starting at position `i`, the opening quote
/// already consumed: the unescaped text and the position after the closing
/// quote.
pub fn parse_jstring_at(v: &[char], i: usize) -> (r: Option<(String, usize)>)
    requires
        i <= v@.len(),
    ensures
        match parse_jstring(v@.skip(i as int)) {
            Some(p) => {
                &&& r matches Some(q)
                &&& q.0@ == p.0
                &&& i <= q.1 <= v@.len()
                &&& v@.skip(q.1 as int) == p.1
            },
            None => r is None,
        },
{
    let n = v.len();
    let mut out = String::new();
    let mut j: usize = i;
    loop
        invariant
            i <= j <= n,
            n == v@.len(),
            parse_jstring(v@.skip(j as int)) matches Some(p2) ==> parse_jstring(
                v@.skip(i as int),
            ) matches Some(p) && p.0 == out@ + p2.0 && p.1 == p2.1,
            parse_jstring(v@.skip(j as int)) is None ==> parse_jstring(v@.skip(i as int)) is None,
        decreases n - j,
    {
        if j >= n {
            proof {
                assert(v@.skip(j as int).len() == 0);
            }
            return None;
        }
        let c = *vstd::slice::slice_index_get(v, j);
        proof {
            assert(v@.skip(j as int)[0] == c);
        }
        if c == '"' {
            proof {
                let s = v@.skip(j as int);
                assert(parse_jstring(s) == Some((Seq::<char>::empty(), s.drop_first())));
                assert(s.drop_first() =~= v@.skip(j + 1));
                assert(out@ + Seq::<char>::empty() =~= out@);
            }
            return Some((out, j + 1));
        } else if c == '\\' {
            if j + 1 >= n {
                proof {
                    assert(v@.skip(j as int).len() < 2);
                }
                return None;
            }
            let code = *vstd::slice::slice_index_get(v, j + 1);
            proof {
                assert(v@.skip(j as int)[1] == code);
            }
            match unescape_char(code) {
                None => {
                    return None;
                },
                Some(c2) => {
                    crate::text::push_char(&mut out, c2);
                    proof {
                        let s = v@.skip(j as int);
                        assert(s.skip(2) =~= v@.skip(j + 2));
                        if parse_jstring(v@.skip(j + 2)) is Some {
                            let p3 = parse_jstring(v@.skip(j + 2)).unwrap();
                            assert(parse_jstring(s) == Some((seq![c2] + p3.0, p3.1)));
                        }
                    }
                    j = j + 2;
                },
            }
        } else {
            crate::text::push_char(&mut out, c);
            proof {
                let s = v@.skip(j as int);
                assert(s.drop_first() =~= v@.skip(j + 1));
                if parse_jstring(v@.skip(j + 1)) is Some {
                    let p3 = parse_jstring(v@.skip(j + 1)).unwrap();
                    assert(parse_jstring(s) == Some((seq![c] + p3.0, p3.1)));
                }
            }
            j = j + 1;
        }
    }
}

/// Read a boolean literal at position `i`: its value and the position after
/// it.
pub fn parse_bool_at(v: &[char], i: usize) -> (r: Option<(bool, usize)>)
    requires
        i <= v@.len(),
    ensures
        match parse_bool(v@.skip(i as int)) {
            Some(p) => {
                &&& r matches Some(q)
                &&& q.0 == p.0
                &&& i <= q.1 <= v@.len()
                &&& v@.skip(q.1 as int) == p.1
            },
            None => r is None,
        },
{
    let n = v.len();
    if starts_with_lit(v, i, "true") {
        let k = "true".unicode_len();
        proof {
            assert(v@.skip(i as int).len() >= "true"@.len());
            assert(i + k <= n);
            assert(v@.skip(i as int).skip("true"@.len() as int) =~= v@.skip(
                i + "true"@.len(),
            ));
        }
        Some((true, i + k))
    } else if starts_with_lit(v, i, "false") {
        let k = "false".unicode_len();
        proof {
            assert(v@.skip(i as int).len() >= "false"@.len());
            assert(i + k <= n);
            assert(v@.skip(i as int).skip("false"@.len() as int) =~= v@.skip(
                i + "false"@.len(),
            ));
        }
        Some((false, i + k))
    } else {
        None
    }
}

/// Read an unsigned decimal number at position `i`: its value and the
/// position after the digits.  A value that does not fit a `u32` is refused.
pub fn parse_u32_at(v: &[char], i: usize) -> (r: Option<(u32, usize)>)
    requires
        i <= v@.len(),
    ensures
        match parse_u32(v@.skip(i as int)) {
            Some(p) => {
                &&& r matches Some(q)
                &&& q.0 == p.0
                &&& i <= q.1 <= v@.len()
                &&& v@.skip(q.1 as int) == p.1
            },
            None => r is None,
        },
{
    let n = v.len();
    let s = Ghost(v@.skip(i as int));
    // Find the end of the digit prefix.
    let mut j: usize = i;
    while j < n && crate::text::char_to_digit(*vstd::slice::slice_index_get(v, j)).is_some()
        invariant
            i <= j <= n,
            n == v@.len(),
            forall|m: int| i <= m < j ==> digit_of(#[trigger] v@[m]) is Some,
        decreases n - j,
    {
        j = j + 1;
    }
    proof {
        let ds = v@.subrange(i as int, j as int);
        assert(all_digits(ds)) by {
            assert forall|m: int| 0 <= m < ds.len() implies #[trigger] digit_of(ds[m]) is Some by {
                assert(ds[m] == v@[m + i]);
            }
        }
        assert(s@ =~= ds + v@.skip(j as int));
        if j < n {
            assert(v@.skip(j as int)[0] == v@[j as int]);
        }
        crate::text::lemma_digit_prefix_concat(ds, v@.skip(j as int));
        assert(digit_prefix_len(s@) == j - i);
    }
    if j == i {
        return None;
    }
    // Accumulate the value, watching for overflow.
    let ghost k: int = j - i;
    let mut acc: u32 = 0;
    let mut m: usize = i;
    while m < j
        invariant
            i <= m <= j <= n,
            n == v@.len(),
            k == j - i,
            s@ == v@.skip(i as int),
            digit_prefix_len(s@) == k,
            s@ =~= v@.subrange(i as int, j as int) + v@.skip(j as int),
            forall|t: int| i <= t < j ==> digit_of(#[trigger] v@[t]) is Some,
            acc == digits_val(s@.take(m - i)),
        decreases j - m,
    {
        let c = *vstd::slice::slice_index_get(v, m);
        let d: u32 = match crate::text::char_to_digit(c) {
            Some(d) => d as u32,
            None => {
                proof {
                    assert(false);
                }
                0
            },
        };
        proof {
            assert(s@.take(m + 1 - i).drop_last() =~= s@.take(m - i));
            assert(s@.take(m + 1 - i).last() == v@[m as int]);
        }
        if acc > u32::MAX / 10 || (acc == u32::MAX / 10 && d > u32::MAX % 10) {
            proof {
                assert(digits_val(s@.take(m + 1 - i)) == acc * 10 + d);
                assert(acc * 10 + d > u32::MAX);
                crate::text::lemma_digits_val_mono(s@, m + 1 - i, k);
                assert(digits_val(s@.take(k)) > u32::MAX);
                assert(digit_prefix_len(s@) == k && k != 0);
                assert(parse_u32(s@) is None);
                assert(parse_u32(v@.skip(i as int)) is None);
            }
            return None;
        }
        acc = acc * 10 + d;
        m = m + 1;
    }
    proof {
        assert(s@.take(k) =~= v@.subrange(i as int, j as int));
        assert(digits_val(s@.take(k)) == acc);
        assert(s@.skip(k) =~= v@.skip(j as int));
    }
    Some((acc, j))
}

/// Whether the body text is a test body.
pub fn parse_test_body(v: &[char]) -> (b: bool)
    ensures
        b == parse_test(v@),
{
    if !starts_with_lit(v, 0, "{}") {
        proof {
            assert(v@.skip(0) =~= v@);
        }
        return false;
    }
    let k = "{}".unicode_len();
    proof {
        assert(v@.skip(0) =~= v@);
        assert(k <= v@.len());
    }
    all_ws_from(v, k)
}

/// Read a connect body: the nick, if the text is the canonical connect
/// object followed only by whitespace.
pub fn parse_connect_body(v: &[char]) -> (r: Option<String>)
    ensures
        match parse_connect(v@) {
            Some(nick) => r matches Some(s) && s@ == nick,
            None => r is None,
        },
{
    proof {
        assert(v@.skip(0) =~= v@);
    }
    if !starts_with_lit(v, 0, "{\"nick\":\"") {
        return None;
    }
    let k = "{\"nick\":\"".unicode_len();
    proof {
        assert(v@.skip(0).skip("{\"nick\":\""@.len() as int) =~= v@.skip(
            "{\"nick\":\""@.len() as int,
        ));
    }
    match parse_jstring_at(v, k) {
        None => None,
        Some((nick, j)) => {
            if j < v.len() && *vstd::slice::slice_index_get(v, j) == '}' && all_ws_from(v, j + 1) {
                proof {
                    let tail = v@.skip(j as int);
                    assert(tail[0] == '}');
                    assert(tail.skip(1) =~= v@.skip(j + 1));
                }
                Some(nick)
            } else {
                proof {
                    let tail = v@.skip(j as int);
                    if tail.len() >= 1 {
                        assert(tail[0] == v@[j as int]);
                        assert(tail.skip(1) =~= v@.skip(j + 1));
                    }
                }
                None
            }
        },
    }
}

/// Read a connect response body: the opponent flag and game id, if the text
/// is the canonical connect response object followed only by whitespace.
pub fn parse_connect_resp_body(v: &[char]) -> (r: Option<(bool, u32)>)
    ensures
        match parse_connect_resp(v@) {
            Some(p) => r matches Some(q) && q.0 == p.0 && q.1 == p.1,
            None => r is None,
        },
{
    proof {
        assert(v@.skip(0) =~= v@);
    }
    if !starts_with_lit(v, 0, "{\"opponent\":") {
        return None;
    }
    let k1 = "{\"opponent\":".unicode_len();
    proof {
        assert(v@.skip(0).skip("{\"opponent\":"@.len() as int) =~= v@.skip(
            "{\"opponent\":"@.len() as int,
        ));
    }
    match parse_bool_at(v, k1) {
        None => None,
        Some((opponent, j1)) => {
            if !starts_with_lit(v, j1, ",\"game_id\":") {
                return None;
            }
            let n = v.len();
            let k2 = ",\"game_id\":".unicode_len();
            proof {
                assert(v@.skip(j1 as int).len() >= ",\"game_id\":"@.len());
                assert(j1 + k2 <= n);
                assert(v@.skip(j1 as int).skip(",\"game_id\":"@.len() as int) =~= v@.skip(
                    j1 + ",\"game_id\":"@.len(),
                ));
            }
            match parse_u32_at(v, j1 + k2) {
                None => None,
                Some((game_id, j2)) => {
                    if j2 < v.len() && *vstd::slice::slice_index_get(v, j2) == '}' && all_ws_from(
                        v,
                        j2 + 1,
                    ) {
                        proof {
                            let tail = v@.skip(j2 as int);
                            assert(tail[0] == '}');
                            assert(tail.skip(1) =~= v@.skip(j2 + 1));
                        }
                        Some((opponent, game_id))
                    } else {
                        proof {
                            let tail = v@.skip(j2 as int);
                            if tail.len() >= 1 {
                                assert(tail[0] == v@[j2 as int]);
                                assert(tail.skip(1) =~= v@.skip(j2 + 1));
                            }
                        }
                        None
                    }
                },
            }
        },
    }
}

} // verus!
