//! Shared-secret authentication: a keyed HMAC over SHA-256, answering
//! and validating challenges on the control channel. The key is the
//! SHA-256 hash of the user's secret; tags travel hex-encoded.

use vstd::prelude::*;

use hmac::Mac;
use sha2::Digest;

verus! {

use crate::digits::{hex_char, hex_digit_val, is_hex_digit, is_upper_hex};
use crate::ids::id_bytes;
use crate::ids::id_to_bytes;
use crate::msg::SessionId;
use vstd::utf8::{decode_utf8, encode_utf8, valid_utf8, partial_valid_utf8};

/// What SHA-256 returns; a function of the input bytes alone.
pub uninterp spec fn sha256_of(data: Seq<u8>) -> Seq<u8>;

/// What HMAC-SHA-256 returns; a function of key and message alone.
pub uninterp spec fn hmac_sha256_of(key: Seq<u8>, msg: Seq<u8>) -> Seq<u8>;

/// Relies on sha2::Sha256: the digest depends on the input alone and
/// is 32 bytes long.
#[verifier::external_body]
fn sha256(data: &[u8]) -> (r: Vec<u8>)
    ensures
        r@ == sha256_of(data@),
        r@.len() == 32,
{
    sha2::Sha256::digest(data).to_vec()
}

/// Relies on hmac::Hmac<Sha256>: the tag depends on key and message
/// alone and is 32 bytes long; any key length is accepted.
#[verifier::external_body]
fn hmac_sha256(key: &[u8], msg: &[u8]) -> (r: Vec<u8>)
    ensures
        r@ == hmac_sha256_of(key@, msg@),
        r@.len() == 32,
{
    let mut mac = <hmac::Hmac<sha2::Sha256> as Mac>::new_from_slice(key)
        .expect("HMAC accepts any key length");
    mac.update(msg);
    mac.finalize().into_bytes().to_vec()
}

/// Relies on hmac's Mac::verify_slice: it succeeds exactly when the
/// slice equals the computed tag (compared in constant time), and
/// that tag is 32 bytes long, so no other length ever verifies.
#[verifier::external_body]
fn hmac_sha256_verify(key: &[u8], msg: &[u8], tag: &[u8]) -> (r: bool)
    ensures
        r == (tag@ == hmac_sha256_of(key@, msg@)),
        r ==> tag@.len() == 32,
{
    let mut mac = <hmac::Hmac<sha2::Sha256> as Mac>::new_from_slice(key)
        .expect("HMAC accepts any key length");
    mac.update(msg);
    mac.verify_slice(tag).is_ok()
}

/// Lowercase hex of a byte string, two digits per byte.
pub open spec fn hex_of(b: Seq<u8>) -> Seq<u8>
    decreases b.len(),
{
    if b.len() == 0 {
        Seq::empty()
    } else {
        seq![hex_char(b[0] / 16), hex_char(b[0] % 16)] + hex_of(b.drop_first())
    }
}

/// Hex decoding as the hex crate performs it: even length, digits of
/// either case; anything else fails.
pub open spec fn hex_decode_spec(s: Seq<u8>) -> Option<Seq<u8>>
    decreases s.len(),
{
    if s.len() % 2 != 0 {
        None
    } else if s.len() == 0 {
        Some(Seq::empty())
    } else if is_hex_digit(s[0]) && is_hex_digit(s[1]) {
        match hex_decode_spec(s.skip(2)) {
            Some(t) => Some(seq![(hex_digit_val(s[0]) * 16 + hex_digit_val(s[1])) as u8] + t),
            None => None,
        }
    } else {
        None
    }
}

/// Relies on hex::encode: lowercase, two digits per byte, ASCII.
#[verifier::external_body]
fn hex_encode_str(b: &[u8]) -> (r: String)
    ensures
        encode_utf8(r@) == hex_of(b@),
        r@.len() == 2 * b@.len(),
{
    hex::encode(b)
}

/// Relies on hex::decode: even-length digit strings of either case
/// decode to their bytes; everything else is an error.
#[verifier::external_body]
fn hex_decode(s: &[u8]) -> (r: Option<Vec<u8>>)
    ensures
        match r {
            Some(v) => hex_decode_spec(s@) == Some(v@),
            None => hex_decode_spec(s@) is None,
        },
{
    match hex::decode(s) {
        Ok(v) => Some(v),
        Err(_) => None,
    }
}

pub proof fn lemma_hex_of_shape(b: Seq<u8>)
    ensures
        hex_of(b).len() == 2 * b.len(),
        forall|i: int|
            0 <= i < hex_of(b).len() ==> is_hex_digit(#[trigger] hex_of(b)[i]) && !is_upper_hex(
                hex_of(b)[i],
            ) && hex_of(b)[i] < 128,
    decreases b.len(),
{
    if b.len() > 0 {
        lemma_hex_of_shape(b.drop_first());
        let e = seq![hex_char(b[0] / 16), hex_char(b[0] % 16)];
        let rest = hex_of(b.drop_first());
        assert forall|i: int| 0 <= i < hex_of(b).len() implies is_hex_digit(
            #[trigger] hex_of(b)[i],
        ) && !is_upper_hex(hex_of(b)[i]) && hex_of(b)[i] < 128 by {
            assert(hex_of(b) == e + rest);
            if i < 2 {
                assert(hex_of(b)[i] == e[i]);
            } else {
                assert(hex_of(b)[i] == rest[i - 2]);
            }
        }
    }
}

pub proof fn lemma_hex_roundtrip(b: Seq<u8>)
    ensures
        hex_decode_spec(hex_of(b)) == Some(b),
    decreases b.len(),
{
    if b.len() == 0 {
        assert(hex_of(b) =~= Seq::<u8>::empty());
    } else {
        lemma_hex_roundtrip(b.drop_first());
        let s = hex_of(b);
        let c0 = hex_char(b[0] / 16);
        let c1 = hex_char(b[0] % 16);
        assert(s.len() == 2 + hex_of(b.drop_first()).len()) by {
            lemma_hex_of_shape(b.drop_first());
        }
        assert(hex_of(b.drop_first()).len() % 2 == 0) by {
            lemma_hex_of_shape(b.drop_first());
        }
        assert(s[0] == c0 && s[1] == c1);
        assert(is_hex_digit(c0) && hex_digit_val(c0) == b[0] / 16);
        assert(is_hex_digit(c1) && hex_digit_val(c1) == b[0] % 16);
        assert(s.skip(2) =~= hex_of(b.drop_first()));
        assert((b[0] / 16) * 16 + b[0] % 16 == b[0]) by (nonlinear_arith);
        assert(seq![b[0]] + b.drop_first() =~= b);
    }
}

/// Among strings without uppercase digits, decoding is inverted only
/// by the canonical lowercase encoding.
pub proof fn lemma_hex_decode_canonical(s: Seq<u8>)
    requires
        forall|i: int| 0 <= i < s.len() ==> !is_upper_hex(#[trigger] s[i]),
    ensures
        match hex_decode_spec(s) {
            Some(b) => s == hex_of(b),
            None => true,
        },
    decreases s.len(),
{
    if s.len() % 2 == 0 && s.len() > 0 && is_hex_digit(s[0]) && is_hex_digit(s[1]) {
        assert(forall|i: int| 0 <= i < s.skip(2).len() ==> !is_upper_hex(#[trigger] s.skip(2)[i]));
        lemma_hex_decode_canonical(s.skip(2));
        match hex_decode_spec(s.skip(2)) {
            Some(t) => {
                let v = (hex_digit_val(s[0]) * 16 + hex_digit_val(s[1])) as u8;
                assert(hex_digit_val(s[0]) < 16 && hex_digit_val(s[1]) < 16);
                assert(v / 16 == hex_digit_val(s[0]) && v % 16 == hex_digit_val(s[1]))
                    by (nonlinear_arith)
                    requires
                        v == hex_digit_val(s[0]) * 16 + hex_digit_val(s[1]),
                        hex_digit_val(s[0]) < 16,
                        hex_digit_val(s[1]) < 16,
                ;
                assert(hex_char(hex_digit_val(s[0])) == s[0]);
                assert(hex_char(hex_digit_val(s[1])) == s[1]);
                let b = seq![v] + t;
                assert(b[0] == v && b.drop_first() =~= t);
                assert(s =~= seq![hex_char(v / 16), hex_char(v % 16)] + hex_of(t));
            },
            None => {},
        }
    }
}

/// ASCII byte strings are valid UTF-8.
pub proof fn lemma_ascii_valid_utf8(s: Seq<u8>)
    requires
        forall|i: int| 0 <= i < s.len() ==> #[trigger] s[i] < 128,
    ensures
        valid_utf8(s),
{
    assert(partial_valid_utf8(s, 0)) by {
        assert(s.subrange(0, 0) =~= Seq::<u8>::empty());
    }
    assert(forall|i: int|
        0 <= i < s.len() ==> #[trigger] vstd::utf8::is_leading_byte_width_1(s[i]));
    vstd::utf8::partial_valid_utf8_extend_ascii_block(s, 0, s.len() as int);
    assert(s.subrange(0, s.len() as int) =~= s);
}

/// Authenticator for clients that share a secret with the server.
pub struct Authenticator {
    key: Vec<u8>,
}

impl Authenticator {
    /// The HMAC key: the SHA-256 hash of the secret.
    pub closed spec fn key_view(&self) -> Seq<u8> {
        self.key@
    }

    /// What `answer` returns for a challenge under this key.
    pub open spec fn spec_answer(key: Seq<u8>, challenge: u128) -> Seq<char> {
        decode_utf8(hex_of(hmac_sha256_of(key, id_bytes(challenge))))
    }

    /// What `validate` accepts: tags whose hex decoding is the HMAC
    /// of the challenge bytes under this key.
    pub open spec fn spec_validate(key: Seq<u8>, challenge: u128, tag: Seq<char>) -> bool {
        hex_decode_spec(encode_utf8(tag)) == Some(hmac_sha256_of(key, id_bytes(challenge)))
    }

    /// Generate an authenticator from a secret.
    pub fn new(secret: &str) -> (r: Authenticator)
        ensures
            r.key_view() == sha256_of(encode_utf8(secret@)),
    {
        Authenticator { key: sha256(secret.as_bytes()) }
    }

    /// Generate the reply tag for a challenge.
    pub fn answer(&self, challenge: &SessionId) -> (r: String)
        ensures
            r@ == Self::spec_answer(self.key_view(), challenge.id),
    {
        let msg = id_to_bytes(challenge.id);
        let mac = hmac_sha256(self.key.as_slice(), msg.as_slice());
        let r = hex_encode_str(mac.as_slice());
        proof {
            broadcast use vstd::utf8::encode_utf8_decode_utf8;

            assert(decode_utf8(encode_utf8(r@)) == r@);
        }
        r
    }

    /// Validate a reply tag against a challenge.
    pub fn validate(&self, challenge: &SessionId, tag: &str) -> (r: bool)
        ensures
            r == Self::spec_validate(self.key_view(), challenge.id, tag@),
    {
        let tb = tag.as_bytes();
        match hex_decode(tb) {
            Some(raw) => {
                let msg = id_to_bytes(challenge.id);
                hmac_sha256_verify(self.key.as_slice(), msg.as_slice(), raw.as_slice())
            },
            None => false,
        }
    }
}

/// The answer to a challenge always validates under the key that
/// produced it.
pub proof fn lemma_answer_validates(key: Seq<u8>, challenge: u128)
    ensures
        Authenticator::spec_validate(key, challenge, Authenticator::spec_answer(key, challenge)),
{
    broadcast use vstd::utf8::decode_utf8_encode_utf8;

    let mac = hmac_sha256_of(key, id_bytes(challenge));
    let hx = hex_of(mac);
    lemma_hex_roundtrip(mac);
    lemma_hex_of_shape(mac);
    lemma_ascii_valid_utf8(hx);
    assert(encode_utf8(Authenticator::spec_answer(key, challenge)) == hx);
}

/// Among tags written without uppercase hex digits, the answer is the
/// only tag that validates. (The decoder of the hex crate also
/// accepts the uppercase spelling of the same tag, so that spelling
/// is the one exception.)
pub proof fn lemma_validate_only_answer(key: Seq<u8>, challenge: u128, tag: Seq<char>)
    requires
        forall|i: int|
            0 <= i < encode_utf8(tag).len() ==> !is_upper_hex(#[trigger] encode_utf8(tag)[i]),
    ensures
        Authenticator::spec_validate(key, challenge, tag) <==> tag == Authenticator::spec_answer(
            key,
            challenge,
        ),
{
    broadcast use vstd::utf8::encode_utf8_decode_utf8;
    broadcast use vstd::utf8::decode_utf8_encode_utf8;

    let mac = hmac_sha256_of(key, id_bytes(challenge));
    let hx = hex_of(mac);
    lemma_hex_roundtrip(mac);
    lemma_hex_of_shape(mac);
    lemma_ascii_valid_utf8(hx);
    let ans = Authenticator::spec_answer(key, challenge);
    assert(encode_utf8(ans) == hx);
    if Authenticator::spec_validate(key, challenge, tag) {
        lemma_hex_decode_canonical(encode_utf8(tag));
        assert(encode_utf8(tag) == hx);
        assert(tag == decode_utf8(encode_utf8(tag)));
        assert(tag == ans);
    }
}

} // verus!
