//! The control-channel message grammar: one JSON value per line, the
//! tagged-union convention of the wire (`{"Hello":9000}`,
//! `{"Challenge":"<id>"}`, `"Heartbeat"`), with verified encoders and
//! decoders and the encode-then-decode round-trip laws.

use vstd::prelude::*;

verus! {

use crate::digits::{
    dec_ascii, lemma_dec_ascii_shape, spec_parse_u16, parse_dec_u16, u16_to_dec,
};
use crate::escape::{escape_bytes, escape_into, lemma_escape_roundtrip, unescape_bytes,
    unescape_exec};
use crate::ids::{format_uuid, lemma_uuid_roundtrip, parse_uuid_bytes, spec_parse_uuid,
    uuid_ascii};
use crate::msg::{ClientMessage, ClientMsgV, ServerMessage, ServerMsgV, SessionId};
use vstd::slice::slice_subrange;
use vstd::utf8::{decode_utf8, encode_utf8, valid_utf8};

pub open spec fn key_hello() -> Seq<u8> {
    seq![72u8, 101u8, 108u8, 108u8, 111u8]
}

pub open spec fn key_challenge() -> Seq<u8> {
    seq![67u8, 104u8, 97u8, 108u8, 108u8, 101u8, 110u8, 103u8, 101u8]
}

pub open spec fn key_connection() -> Seq<u8> {
    seq![67u8, 111u8, 110u8, 110u8, 101u8, 99u8, 116u8, 105u8, 111u8, 110u8]
}

pub open spec fn key_heartbeat() -> Seq<u8> {
    seq![72u8, 101u8, 97u8, 114u8, 116u8, 98u8, 101u8, 97u8, 116u8]
}

pub open spec fn key_error() -> Seq<u8> {
    seq![69u8, 114u8, 114u8, 111u8, 114u8]
}

pub open spec fn key_authenticate() -> Seq<u8> {
    seq![65u8, 117u8, 116u8, 104u8, 101u8, 110u8, 116u8, 105u8, 99u8, 97u8, 116u8, 101u8]
}

pub open spec fn key_accept() -> Seq<u8> {
    seq![65u8, 99u8, 99u8, 101u8, 112u8, 116u8]
}

/// `{"key":payload}`
pub open spec fn json_obj(key: Seq<u8>, payload: Seq<u8>) -> Seq<u8> {
    seq![123u8, 34u8] + key + seq![34u8, 58u8] + payload + seq![125u8]
}

/// `"inner"`
pub open spec fn json_quoted(inner: Seq<u8>) -> Seq<u8> {
    seq![34u8] + inner + seq![34u8]
}

pub open spec fn spec_encode_server(m: ServerMsgV) -> Seq<u8> {
    match m {
        ServerMsgV::Hello(p) => json_obj(key_hello(), dec_ascii(p as nat)),
        ServerMsgV::Challenge(id) => json_obj(key_challenge(), json_quoted(uuid_ascii(id))),
        ServerMsgV::Connection(id) => json_obj(key_connection(), json_quoted(uuid_ascii(id))),
        ServerMsgV::Heartbeat => json_quoted(key_heartbeat()),
        ServerMsgV::Error(t) => json_obj(key_error(), json_quoted(escape_bytes(encode_utf8(t)))),
    }
}

pub open spec fn spec_encode_client(m: ClientMsgV) -> Seq<u8> {
    match m {
        ClientMsgV::Authenticate(t) => json_obj(
            key_authenticate(),
            json_quoted(escape_bytes(encode_utf8(t))),
        ),
        ClientMsgV::Hello(p) => json_obj(key_hello(), dec_ascii(p as nat)),
        ClientMsgV::Accept(id) => json_obj(key_accept(), json_quoted(uuid_ascii(id))),
    }
}

/// Does `s` have the shape `{"key":...}` for this exact key?
pub open spec fn has_key(s: Seq<u8>, key: Seq<u8>) -> bool {
    let l = key.len() as int;
    s.len() >= l + 5 && s[0] == 123 && s[1] == 34 && s.subrange(2, 2 + l) == key
        && s[2 + l] == 34 && s[3 + l] == 58 && s.last() == 125
}

pub open spec fn obj_payload(s: Seq<u8>, key: Seq<u8>) -> Seq<u8> {
    s.subrange(key.len() as int + 4, s.len() as int - 1)
}

pub open spec fn parse_quoted_uuid(p: Seq<u8>) -> Option<u128> {
    if p.len() == 38 && p[0] == 34 && p.last() == 34 {
        spec_parse_uuid(p.subrange(1, 37))
    } else {
        None
    }
}

pub open spec fn parse_quoted_text(p: Seq<u8>) -> Option<Seq<char>> {
    if p.len() >= 2 && p[0] == 34 && p.last() == 34 {
        match unescape_bytes(p.subrange(1, p.len() - 1)) {
            Some(bs) => if valid_utf8(bs) {
                Some(decode_utf8(bs))
            } else {
                None
            },
            None => None,
        }
    } else {
        None
    }
}

pub open spec fn spec_decode_server(s: Seq<u8>) -> Option<ServerMsgV> {
    if s == json_quoted(key_heartbeat()) {
        Some(ServerMsgV::Heartbeat)
    } else if has_key(s, key_hello()) {
        match spec_parse_u16(obj_payload(s, key_hello())) {
            Some(p) => Some(ServerMsgV::Hello(p)),
            None => None,
        }
    } else if has_key(s, key_challenge()) {
        match parse_quoted_uuid(obj_payload(s, key_challenge())) {
            Some(id) => Some(ServerMsgV::Challenge(id)),
            None => None,
        }
    } else if has_key(s, key_connection()) {
        match parse_quoted_uuid(obj_payload(s, key_connection())) {
            Some(id) => Some(ServerMsgV::Connection(id)),
            None => None,
        }
    } else if has_key(s, key_error()) {
        match parse_quoted_text(obj_payload(s, key_error())) {
            Some(t) => Some(ServerMsgV::Error(t)),
            None => None,
        }
    } else {
        None
    }
}

pub open spec fn spec_decode_client(s: Seq<u8>) -> Option<ClientMsgV> {
    if has_key(s, key_hello()) {
        match spec_parse_u16(obj_payload(s, key_hello())) {
            Some(p) => Some(ClientMsgV::Hello(p)),
            None => None,
        }
    } else if has_key(s, key_authenticate()) {
        match parse_quoted_text(obj_payload(s, key_authenticate())) {
            Some(t) => Some(ClientMsgV::Authenticate(t)),
            None => None,
        }
    } else if has_key(s, key_accept()) {
        match parse_quoted_uuid(obj_payload(s, key_accept())) {
            Some(id) => Some(ClientMsgV::Accept(id)),
            None => None,
        }
    } else {
        None
    }
}

fn key_hello_vec() -> (r: Vec<u8>)
    ensures
        r@ == key_hello(),
{
    let mut r: Vec<u8> = Vec::new();
    r.push(72);
    r.push(101);
    r.push(108);
    r.push(108);
    r.push(111);
    proof {
        assert(r@ =~= key_hello());
    }
    r
}

fn key_challenge_vec() -> (r: Vec<u8>)
    ensures
        r@ == key_challenge(),
{
    let mut r: Vec<u8> = Vec::new();
    r.push(67);
    r.push(104);
    r.push(97);
    r.push(108);
    r.push(108);
    r.push(101);
    r.push(110);
    r.push(103);
    r.push(101);
    proof {
        assert(r@ =~= key_challenge());
    }
    r
}

fn key_connection_vec() -> (r: Vec<u8>)
    ensures
        r@ == key_connection(),
{
    let mut r: Vec<u8> = Vec::new();
    r.push(67);
    r.push(111);
    r.push(110);
    r.push(110);
    r.push(101);
    r.push(99);
    r.push(116);
    r.push(105);
    r.push(111);
    r.push(110);
    proof {
        assert(r@ =~= key_connection());
    }
    r
}

fn key_heartbeat_vec() -> (r: Vec<u8>)
    ensures
        r@ == key_heartbeat(),
{
    let mut r: Vec<u8> = Vec::new();
    r.push(72);
    r.push(101);
    r.push(97);
    r.push(114);
    r.push(116);
    r.push(98);
    r.push(101);
    r.push(97);
    r.push(116);
    proof {
        assert(r@ =~= key_heartbeat());
    }
    r
}

fn key_error_vec() -> (r: Vec<u8>)
    ensures
        r@ == key_error(),
{
    let mut r: Vec<u8> = Vec::new();
    r.push(69);
    r.push(114);
    r.push(114);
    r.push(111);
    r.push(114);
    proof {
        assert(r@ =~= key_error());
    }
    r
}

fn key_authenticate_vec() -> (r: Vec<u8>)
    ensures
        r@ == key_authenticate(),
{
    let mut r: Vec<u8> = Vec::new();
    r.push(65);
    r.push(117);
    r.push(116);
    r.push(104);
    r.push(101);
    r.push(110);
    r.push(116);
    r.push(105);
    r.push(99);
    r.push(97);
    r.push(116);
    r.push(101);
    proof {
        assert(r@ =~= key_authenticate());
    }
    r
}

fn key_accept_vec() -> (r: Vec<u8>)
    ensures
        r@ == key_accept(),
{
    let mut r: Vec<u8> = Vec::new();
    r.push(65);
    r.push(99);
    r.push(99);
    r.push(101);
    r.push(112);
    r.push(116);
    proof {
        assert(r@ =~= key_accept());
    }
    r
}

pub(crate) fn obj_from(key: Vec<u8>, payload: Vec<u8>) -> (r: Vec<u8>)
    ensures
        r@ == json_obj(key@, payload@),
{
    let ghost k0 = key@;
    let ghost p0 = payload@;
    let mut r: Vec<u8> = Vec::new();
    r.push(123);
    r.push(34);
    let mut k = key;
    r.append(&mut k);
    r.push(34);
    r.push(58);
    let mut p = payload;
    r.append(&mut p);
    r.push(125);
    proof {
        assert(r@ =~= json_obj(k0, p0));
    }
    r
}

fn quoted_uuid_vec(id: u128) -> (r: Vec<u8>)
    ensures
        r@ == json_quoted(uuid_ascii(id)),
{
    let mut r: Vec<u8> = Vec::new();
    r.push(34);
    let mut u = format_uuid(id);
    r.append(&mut u);
    r.push(34);
    proof {
        assert(r@ =~= json_quoted(uuid_ascii(id)));
    }
    r
}

pub(crate) fn quoted_text_vec(t: &str) -> (r: Vec<u8>)
    ensures
        r@ == json_quoted(escape_bytes(encode_utf8(t@))),
{
    let mut r: Vec<u8> = Vec::new();
    r.push(34);
    escape_into(&mut r, t.as_bytes());
    r.push(34);
    proof {
        assert(r@ =~= json_quoted(escape_bytes(encode_utf8(t@))));
    }
    r
}

/// Encode one server message as its JSON line (without the newline).
pub fn encode_server(m: &ServerMessage) -> (r: Vec<u8>)
    ensures
        r@ == spec_encode_server(m@),
{
    match m {
        ServerMessage::Hello(p) => obj_from(key_hello_vec(), u16_to_dec(*p)),
        ServerMessage::Challenge(c) => obj_from(key_challenge_vec(), quoted_uuid_vec(c.id)),
        ServerMessage::Connection(c) => obj_from(key_connection_vec(), quoted_uuid_vec(c.id)),
        ServerMessage::Heartbeat => {
            let mut r: Vec<u8> = Vec::new();
            r.push(34);
            let mut k = key_heartbeat_vec();
            r.append(&mut k);
            r.push(34);
            proof {
                assert(r@ =~= json_quoted(key_heartbeat()));
            }
            r
        },
        ServerMessage::Error(t) => obj_from(key_error_vec(), quoted_text_vec(t.as_str())),
    }
}

/// Encode one client message as its JSON line (without the newline).
pub fn encode_client(m: &ClientMessage) -> (r: Vec<u8>)
    ensures
        r@ == spec_encode_client(m@),
{
    match m {
        ClientMessage::Authenticate(t) => obj_from(
            key_authenticate_vec(),
            quoted_text_vec(t.as_str()),
        ),
        ClientMessage::Hello(p) => obj_from(key_hello_vec(), u16_to_dec(*p)),
        ClientMessage::Accept(c) => obj_from(key_accept_vec(), quoted_uuid_vec(c.id)),
    }
}

/// Encode one server message followed by the newline terminator.
pub fn encode_server_line(m: &ServerMessage) -> (r: Vec<u8>)
    ensures
        r@ == spec_encode_server(m@) + seq![10u8],
{
    let mut r = encode_server(m);
    r.push(10);
    proof {
        assert(r@ =~= spec_encode_server(m@) + seq![10u8]);
    }
    r
}

/// Encode one client message followed by the newline terminator.
pub fn encode_client_line(m: &ClientMessage) -> (r: Vec<u8>)
    ensures
        r@ == spec_encode_client(m@) + seq![10u8],
{
    let mut r = encode_client(m);
    r.push(10);
    proof {
        assert(r@ =~= spec_encode_client(m@) + seq![10u8]);
    }
    r
}

fn bytes_eq(a: &[u8], b: &[u8]) -> (r: bool)
    ensures
        r == (a@ == b@),
{
    if a.len() != b.len() {
        proof {
            assert(a@ != b@);
        }
        return false;
    }
    let mut i: usize = 0;
    while i < a.len()
        invariant
            i <= a@.len(),
            a@.len() == b@.len(),
            forall|t: int| 0 <= t < i ==> a@[t] == #[trigger] b@[t],
        decreases a@.len() - i,
    {
        if a[i] != b[i] {
            proof {
                assert(a@[i as int] != b@[i as int]);
            }
            return false;
        }
        i += 1;
    }
    proof {
        assert(a@ =~= b@);
    }
    true
}

fn match_key(line: &[u8], key: &[u8]) -> (b: bool)
    requires
        key@.len() <= 64,
    ensures
        b == has_key(line@, key@),
{
    let l = key.len();
    if line.len() < l + 5 {
        return false;
    }
    if line[0] != 123 || line[1] != 34 {
        return false;
    }
    let mut t: usize = 0;
    while t < l
        invariant
            t <= l,
            l == key@.len() <= 64,
            line@.len() >= l + 5,
            forall|u: int| 0 <= u < t ==> line@[2 + u] == #[trigger] key@[u],
        decreases l - t,
    {
        if line[2 + t] != key[t] {
            proof {
                assert(!has_key(line@, key@)) by {
                    if has_key(line@, key@) {
                        assert(line@.subrange(2, 2 + l as int)[t as int] == key@[t as int]);
                    }
                }
            }
            return false;
        }
        t += 1;
    }
    if line[2 + l] != 34 || line[3 + l] != 58 {
        proof {
            assert(!has_key(line@, key@));
        }
        return false;
    }
    if line[line.len() - 1] != 125 {
        proof {
            assert(!has_key(line@, key@));
        }
        return false;
    }
    proof {
        assert(line@.subrange(2, 2 + l as int) =~= key@);
    }
    true
}

fn parse_quoted_uuid_exec(p: &[u8]) -> (r: Option<u128>)
    ensures
        r == parse_quoted_uuid(p@),
{
    if p.len() != 38 {
        return None;
    }
    if p[0] != 34 || p[37] != 34 {
        return None;
    }
    let inner = slice_subrange(p, 1, 37);
    parse_uuid_bytes(inner)
}

/// Relies on String::from_utf8: it succeeds exactly on valid UTF-8
/// input, and the returned string's UTF-8 encoding is the input.
#[verifier::external_body]
fn bytes_to_string(v: Vec<u8>) -> (r: Option<String>)
    ensures
        match r {
            Some(s) => encode_utf8(s@) == v@,
            None => !valid_utf8(v@),
        },
{
    match String::from_utf8(v) {
        Ok(s) => Some(s),
        Err(_) => None,
    }
}

fn parse_quoted_text_exec(p: &[u8]) -> (r: Option<String>)
    ensures
        match r {
            Some(s) => parse_quoted_text(p@) == Some(s@),
            None => parse_quoted_text(p@) is None,
        },
{
    if p.len() < 2 {
        return None;
    }
    if p[0] != 34 || p[p.len() - 1] != 34 {
        return None;
    }
    let inner = slice_subrange(p, 1, p.len() - 1);
    let bs = match unescape_exec(inner) {
        Some(b) => b,
        None => {
            return None;
        },
    };
    let ghost bsv = bs@;
    match bytes_to_string(bs) {
        Some(s) => {
            proof {
                broadcast use vstd::utf8::encode_utf8_decode_utf8;
                broadcast use vstd::utf8::encode_utf8_valid_utf8;

                assert(valid_utf8(bsv));
                assert(decode_utf8(bsv) == s@);
            }
            Some(s)
        },
        None => None,
    }
}

/// Decode one server-to-client line; `None` exactly where the grammar
/// rejects it.
pub fn decode_server(line: &[u8]) -> (r: Option<ServerMessage>)
    ensures
        match r {
            Some(m) => spec_decode_server(line@) == Some(m@),
            None => spec_decode_server(line@) is None,
        },
{
    let mut hb: Vec<u8> = Vec::new();
    hb.push(34);
    let mut hk = key_heartbeat_vec();
    hb.append(&mut hk);
    hb.push(34);
    proof {
        assert(hb@ =~= json_quoted(key_heartbeat()));
    }
    if bytes_eq(line, hb.as_slice()) {
        return Some(ServerMessage::Heartbeat);
    }
    let khello = key_hello_vec();
    if match_key(line, khello.as_slice()) {
        let payload = slice_subrange(line, khello.len() + 4, line.len() - 1);
        proof {
            assert(payload@ =~= obj_payload(line@, key_hello()));
        }
        return match parse_dec_u16(payload) {
            Some(p) => Some(ServerMessage::Hello(p)),
            None => None,
        };
    }
    let kchal = key_challenge_vec();
    if match_key(line, kchal.as_slice()) {
        let payload = slice_subrange(line, kchal.len() + 4, line.len() - 1);
        proof {
            assert(payload@ =~= obj_payload(line@, key_challenge()));
        }
        return match parse_quoted_uuid_exec(payload) {
            Some(id) => Some(ServerMessage::Challenge(SessionId { id })),
            None => None,
        };
    }
    let kconn = key_connection_vec();
    if match_key(line, kconn.as_slice()) {
        let payload = slice_subrange(line, kconn.len() + 4, line.len() - 1);
        proof {
            assert(payload@ =~= obj_payload(line@, key_connection()));
        }
        return match parse_quoted_uuid_exec(payload) {
            Some(id) => Some(ServerMessage::Connection(SessionId { id })),
            None => None,
        };
    }
    let kerr = key_error_vec();
    if match_key(line, kerr.as_slice()) {
        let payload = slice_subrange(line, kerr.len() + 4, line.len() - 1);
        proof {
            assert(payload@ =~= obj_payload(line@, key_error()));
        }
        return match parse_quoted_text_exec(payload) {
            Some(t) => Some(ServerMessage::Error(t)),
            None => None,
        };
    }
    None
}

/// Decode one client-to-server line; `None` exactly where the grammar
/// rejects it.
pub fn decode_client(line: &[u8]) -> (r: Option<ClientMessage>)
    ensures
        match r {
            Some(m) => spec_decode_client(line@) == Some(m@),
            None => spec_decode_client(line@) is None,
        },
{
    let khello = key_hello_vec();
    if match_key(line, khello.as_slice()) {
        let payload = slice_subrange(line, khello.len() + 4, line.len() - 1);
        proof {
            assert(payload@ =~= obj_payload(line@, key_hello()));
        }
        return match parse_dec_u16(payload) {
            Some(p) => Some(ClientMessage::Hello(p)),
            None => None,
        };
    }
    let kauth = key_authenticate_vec();
    if match_key(line, kauth.as_slice()) {
        let payload = slice_subrange(line, kauth.len() + 4, line.len() - 1);
        proof {
            assert(payload@ =~= obj_payload(line@, key_authenticate()));
        }
        return match parse_quoted_text_exec(payload) {
            Some(t) => Some(ClientMessage::Authenticate(t)),
            None => None,
        };
    }
    let kacc = key_accept_vec();
    if match_key(line, kacc.as_slice()) {
        let payload = slice_subrange(line, kacc.len() + 4, line.len() - 1);
        proof {
            assert(payload@ =~= obj_payload(line@, key_accept()));
        }
        return match parse_quoted_uuid_exec(payload) {
            Some(id) => Some(ClientMessage::Accept(SessionId { id })),
            None => None,
        };
    }
    None
}

proof fn lemma_obj_shape(key: Seq<u8>, payload: Seq<u8>)
    requires
        key.len() >= 1,
    ensures
        has_key(json_obj(key, payload), key),
        obj_payload(json_obj(key, payload), key) == payload,
        json_obj(key, payload)[0] == 123,
{
    let s = json_obj(key, payload);
    assert(s.len() == key.len() + 5 + payload.len());
    assert(s.subrange(2, 2 + key.len() as int) =~= key);
    assert(s[0] == 123 && s[1] == 34);
    assert(s[2 + key.len() as int] == 34);
    assert(s[3 + key.len() as int] == 58);
    assert(s.last() == 125);
    assert(obj_payload(s, key) =~= payload);
}

proof fn lemma_not_key(s: Seq<u8>, k1: Seq<u8>, k2: Seq<u8>, i: int)
    requires
        0 <= i < k1.len(),
        i < k2.len(),
        k1[i] != k2[i],
        has_key(s, k1),
    ensures
        !has_key(s, k2),
{
    if has_key(s, k2) {
        assert(s.subrange(2, 2 + k1.len() as int)[i] == s[2 + i]);
        assert(s.subrange(2, 2 + k2.len() as int)[i] == s[2 + i]);
        assert(k1[i] == s[2 + i] && k2[i] == s[2 + i]);
    }
}

proof fn lemma_obj_not_quoted(s: Seq<u8>, inner: Seq<u8>)
    requires
        s.len() > 0,
        s[0] == 123,
    ensures
        s != json_quoted(inner),
{
    assert(json_quoted(inner)[0] == 34);
}

proof fn lemma_quoted_uuid_parses(id: u128)
    ensures
        parse_quoted_uuid(json_quoted(uuid_ascii(id))) == Some(id),
{
    lemma_uuid_roundtrip(id);
    let p = json_quoted(uuid_ascii(id));
    assert(p.len() == 38);
    assert(p[0] == 34 && p.last() == 34);
    assert(p.subrange(1, 37) =~= uuid_ascii(id));
}

proof fn lemma_quoted_text_parses(t: Seq<char>)
    ensures
        parse_quoted_text(json_quoted(escape_bytes(encode_utf8(t)))) == Some(t),
{
    broadcast use vstd::utf8::encode_utf8_decode_utf8;
    broadcast use vstd::utf8::encode_utf8_valid_utf8;

    let eu = encode_utf8(t);
    lemma_escape_roundtrip(eu);
    let p = json_quoted(escape_bytes(eu));
    assert(p.len() >= 2);
    assert(p[0] == 34 && p.last() == 34);
    assert(p.subrange(1, p.len() as int - 1) =~= escape_bytes(eu));
}

proof fn lemma_dec_payload_parses(p: u16)
    ensures
        spec_parse_u16(dec_ascii(p as nat)) == Some(p),
{
    lemma_dec_ascii_shape(p as nat);
    crate::digits::lemma_dec_ascii_len(p as nat);
}

proof fn lemma_no_newline_parts(key: Seq<u8>, payload: Seq<u8>)
    requires
        forall|i: int| 0 <= i < key.len() ==> #[trigger] key[i] != 10,
        forall|i: int| 0 <= i < payload.len() ==> #[trigger] payload[i] != 10,
    ensures
        forall|i: int|
            0 <= i < json_obj(key, payload).len() ==> #[trigger] json_obj(key, payload)[i] != 10,
        forall|i: int|
            0 <= i < json_quoted(payload).len() ==> #[trigger] json_quoted(payload)[i] != 10,
{
    let s = json_obj(key, payload);
    assert forall|i: int| 0 <= i < s.len() implies #[trigger] s[i] != 10 by {
        if 2 <= i < 2 + key.len() {
            assert(s[i] == key[i - 2]);
        } else if 4 + key.len() <= i < s.len() - 1 {
            assert(s[i] == payload[i - 4 - key.len()]);
        }
    }
    let q = json_quoted(payload);
    assert forall|i: int| 0 <= i < q.len() implies #[trigger] q[i] != 10 by {
        if 1 <= i < 1 + payload.len() {
            assert(q[i] == payload[i - 1]);
        }
    }
}

proof fn lemma_quoted_no_newline(inner: Seq<u8>)
    requires
        forall|i: int| 0 <= i < inner.len() ==> #[trigger] inner[i] != 10,
    ensures
        forall|i: int|
            0 <= i < json_quoted(inner).len() ==> #[trigger] json_quoted(inner)[i] != 10,
{
    let q = json_quoted(inner);
    assert forall|i: int| 0 <= i < q.len() implies #[trigger] q[i] != 10 by {
        if 1 <= i < 1 + inner.len() {
            assert(q[i] == inner[i - 1]);
        }
    }
}

/// No encoded message contains a raw newline, so the newline framing
/// of the wire never splits a message.
pub proof fn lemma_encode_server_no_newline(v: ServerMsgV)
    ensures
        forall|i: int|
            0 <= i < spec_encode_server(v).len() ==> #[trigger] spec_encode_server(v)[i] != 10,
{
    match v {
        ServerMsgV::Hello(p) => {
            lemma_dec_ascii_shape(p as nat);
            lemma_no_newline_parts(key_hello(), dec_ascii(p as nat));
        },
        ServerMsgV::Challenge(id) => {
            crate::ids::lemma_uuid_no_newline(id);
            lemma_quoted_no_newline(uuid_ascii(id));
            lemma_no_newline_parts(key_challenge(), json_quoted(uuid_ascii(id)));
        },
        ServerMsgV::Connection(id) => {
            crate::ids::lemma_uuid_no_newline(id);
            lemma_quoted_no_newline(uuid_ascii(id));
            lemma_no_newline_parts(key_connection(), json_quoted(uuid_ascii(id)));
        },
        ServerMsgV::Heartbeat => {
            lemma_quoted_no_newline(key_heartbeat());
        },
        ServerMsgV::Error(t) => {
            crate::escape::lemma_escape_no_newline(encode_utf8(t));
            lemma_quoted_no_newline(escape_bytes(encode_utf8(t)));
            lemma_no_newline_parts(key_error(), json_quoted(escape_bytes(encode_utf8(t))));
        },
    }
}

/// The client-side counterpart of [`lemma_encode_server_no_newline`].
pub proof fn lemma_encode_client_no_newline(v: ClientMsgV)
    ensures
        forall|i: int|
            0 <= i < spec_encode_client(v).len() ==> #[trigger] spec_encode_client(v)[i] != 10,
{
    match v {
        ClientMsgV::Hello(p) => {
            lemma_dec_ascii_shape(p as nat);
            lemma_no_newline_parts(key_hello(), dec_ascii(p as nat));
        },
        ClientMsgV::Accept(id) => {
            crate::ids::lemma_uuid_no_newline(id);
            lemma_quoted_no_newline(uuid_ascii(id));
            lemma_no_newline_parts(key_accept(), json_quoted(uuid_ascii(id)));
        },
        ClientMsgV::Authenticate(t) => {
            crate::escape::lemma_escape_no_newline(encode_utf8(t));
            lemma_quoted_no_newline(escape_bytes(encode_utf8(t)));
            lemma_no_newline_parts(key_authenticate(), json_quoted(escape_bytes(encode_utf8(t))));
        },
    }
}

/// Encode-then-decode of any server message yields the original.
pub proof fn lemma_server_roundtrip(v: ServerMsgV)
    ensures
        spec_decode_server(spec_encode_server(v)) == Some(v),
{
    let s = spec_encode_server(v);
    match v {
        ServerMsgV::Heartbeat => {
        },
        ServerMsgV::Hello(p) => {
            lemma_obj_shape(key_hello(), dec_ascii(p as nat));
            lemma_obj_not_quoted(s, key_heartbeat());
            lemma_dec_payload_parses(p);
        },
        ServerMsgV::Challenge(id) => {
            lemma_obj_shape(key_challenge(), json_quoted(uuid_ascii(id)));
            lemma_obj_not_quoted(s, key_heartbeat());
            lemma_not_key(s, key_challenge(), key_hello(), 0);
            lemma_quoted_uuid_parses(id);
        },
        ServerMsgV::Connection(id) => {
            lemma_obj_shape(key_connection(), json_quoted(uuid_ascii(id)));
            lemma_obj_not_quoted(s, key_heartbeat());
            lemma_not_key(s, key_connection(), key_hello(), 0);
            lemma_not_key(s, key_connection(), key_challenge(), 1);
            lemma_quoted_uuid_parses(id);
        },
        ServerMsgV::Error(t) => {
            lemma_obj_shape(key_error(), json_quoted(escape_bytes(encode_utf8(t))));
            lemma_obj_not_quoted(s, key_heartbeat());
            lemma_not_key(s, key_error(), key_hello(), 0);
            lemma_not_key(s, key_error(), key_challenge(), 0);
            lemma_not_key(s, key_error(), key_connection(), 0);
            lemma_quoted_text_parses(t);
        },
    }
}

/// Encode-then-decode of any client message yields the original.
pub proof fn lemma_client_roundtrip(v: ClientMsgV)
    ensures
        spec_decode_client(spec_encode_client(v)) == Some(v),
{
    let s = spec_encode_client(v);
    match v {
        ClientMsgV::Hello(p) => {
            lemma_obj_shape(key_hello(), dec_ascii(p as nat));
            lemma_dec_payload_parses(p);
        },
        ClientMsgV::Authenticate(t) => {
            lemma_obj_shape(key_authenticate(), json_quoted(escape_bytes(encode_utf8(t))));
            lemma_not_key(s, key_authenticate(), key_hello(), 0);
            lemma_quoted_text_parses(t);
        },
        ClientMsgV::Accept(id) => {
            lemma_obj_shape(key_accept(), json_quoted(uuid_ascii(id)));
            lemma_not_key(s, key_accept(), key_hello(), 0);
            lemma_not_key(s, key_accept(), key_authenticate(), 1);
            lemma_quoted_uuid_parses(id);
        },
    }
}

} // verus!
