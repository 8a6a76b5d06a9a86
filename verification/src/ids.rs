//! The canonical textual form of session identifiers: 36 ASCII bytes,
//! lowercase hex with hyphens after the 8th, 12th, 16th and 20th digit.

use vstd::prelude::*;

verus! {

use crate::digits::{
    hex_char, hex_digit_val, hex_fixed, hex_val, is_hex_digit, is_upper_hex, npow, rseq,
    lemma_hex_fixed_shape, lemma_hex_val_bound, lemma_rseq_push,
};
use vstd::arithmetic::div_mod::lemma_fundamental_div_mod;

/// The 32 lowercase hex digits of a 128-bit id, most significant first.
pub open spec fn uuid_hex(id: u128) -> Seq<u8> {
    hex_fixed(id as nat, 32)
}

/// The canonical hyphenated 36-byte form.
pub open spec fn uuid_ascii(id: u128) -> Seq<u8> {
    let h = uuid_hex(id);
    h.subrange(0, 8) + seq![45u8] + h.subrange(8, 12) + seq![45u8] + h.subrange(12, 16)
        + seq![45u8] + h.subrange(16, 20) + seq![45u8] + h.subrange(20, 32)
}

/// Index in the 36-byte form of the `k`-th of the 32 hex digits.
pub open spec fn nib_pos(k: int) -> int {
    if k < 8 {
        k
    } else if k < 12 {
        k + 1
    } else if k < 16 {
        k + 2
    } else if k < 20 {
        k + 3
    } else {
        k + 4
    }
}

/// The 32 digit positions of a 36-byte hyphenated form.
pub open spec fn uuid_strip(s: Seq<u8>) -> Seq<u8> {
    Seq::new(32, |k: int| s[nib_pos(k)])
}

pub open spec fn is_uuid_ascii(s: Seq<u8>) -> bool {
    s.len() == 36 && s[8] == 45 && s[13] == 45 && s[18] == 45 && s[23] == 45
        && forall|k: int| 0 <= k < 32 ==> is_hex_digit(#[trigger] uuid_strip(s)[k])
}

pub open spec fn spec_parse_uuid(s: Seq<u8>) -> Option<u128> {
    if is_uuid_ascii(s) {
        Some(hex_val(uuid_strip(s)) as u128)
    } else {
        None
    }
}

pub proof fn lemma_npow16_32()
    ensures
        npow(16, 32) == 0x100000000000000000000000000000000nat,
        forall|k: nat| k <= 32 ==> #[trigger] npow(16, k) <= npow(16, 32),
{
    reveal_with_fuel(npow, 33);
    assert forall|k: nat| k <= 32 implies #[trigger] npow(16, k) <= npow(16, 32) by {
        lemma_npow16_mono(k, 32);
    }
}

pub proof fn lemma_npow16_mono(a: nat, b: nat)
    requires
        a <= b,
    ensures
        npow(16, a) <= npow(16, b),
        npow(16, a) >= 1,
    decreases b,
{
    if b > 0 {
        lemma_npow16_mono(if a < b { a } else { (b - 1) as nat }, (b - 1) as nat);
        assert(npow(16, b) == 16 * npow(16, (b - 1) as nat));
    }
}

/// The canonical form of an id parses back to the same id.
pub proof fn lemma_uuid_roundtrip(id: u128)
    ensures
        is_uuid_ascii(uuid_ascii(id)),
        spec_parse_uuid(uuid_ascii(id)) == Some(id),
        forall|i: int|
            0 <= i < uuid_ascii(id).len() ==> !is_upper_hex(#[trigger] uuid_ascii(id)[i]),
{
    lemma_hex_fixed_shape(id as nat, 32);
    lemma_npow16_32();
    let s = uuid_ascii(id);
    let h = uuid_hex(id);
    assert(s.len() == 36);
    assert(uuid_strip(s) =~= h);
    assert forall|i: int| 0 <= i < s.len() implies !is_upper_hex(#[trigger] s[i]) by {
        if i == 8 || i == 13 || i == 18 || i == 23 {
        } else {
            let k = if i < 8 {
                i
            } else if i < 13 {
                i - 1
            } else if i < 18 {
                i - 2
            } else if i < 23 {
                i - 3
            } else {
                i - 4
            };
            assert(nib_pos(k) == i);
            assert(s[i] == uuid_strip(s)[k]);
        }
    }
}

/// The big-endian bytes of `n`, exactly `k` of them; `n` is taken
/// modulo `256^k`.
pub open spec fn be_bytes(n: nat, k: nat) -> Seq<u8>
    decreases k,
{
    if k == 0 {
        Seq::empty()
    } else {
        be_bytes(n / 256, (k - 1) as nat) + seq![(n % 256) as u8]
    }
}

/// The 16 big-endian bytes of a 128-bit id, as a UUID carries them.
pub open spec fn id_bytes(id: u128) -> Seq<u8> {
    be_bytes(id as nat, 16)
}

pub proof fn lemma_be_bytes_len(n: nat, k: nat)
    ensures
        be_bytes(n, k).len() == k,
    decreases k,
{
    if k > 0 {
        lemma_be_bytes_len(n / 256, (k - 1) as nat);
    }
}

/// The big-endian byte string of an id.
pub fn id_to_bytes(id: u128) -> (r: Vec<u8>)
    ensures
        r@ == id_bytes(id),
        r@.len() == 16,
{
    let mut tmp: Vec<u8> = Vec::new();
    let mut cur: u128 = id;
    let mut j: usize = 0;
    while j < 16
        invariant
            j <= 16,
            tmp@.len() == j,
            id_bytes(id) =~= be_bytes(cur as nat, (16 - j) as nat) + rseq(tmp@),
        decreases 16 - j,
    {
        let d: u8 = (cur % 256) as u8;
        proof {
            assert(be_bytes(cur as nat, (16 - j) as nat) =~= be_bytes(
                (cur as nat) / 256,
                (16 - j - 1) as nat,
            ) + seq![(cur as nat % 256) as u8]);
            lemma_rseq_push(tmp@, d);
        }
        tmp.push(d);
        cur = cur / 256;
        j += 1;
        proof {
            assert(id_bytes(id) =~= be_bytes(cur as nat, (16 - j) as nat) + rseq(tmp@));
        }
    }
    proof {
        assert(be_bytes(cur as nat, 0) =~= Seq::<u8>::empty());
        assert(id_bytes(id) =~= rseq(tmp@));
    }
    let mut r: Vec<u8> = Vec::new();
    let mut i: usize = 0;
    while i < 16
        invariant
            i <= 16,
            tmp@.len() == 16,
            id_bytes(id) =~= rseq(tmp@),
            r@ =~= id_bytes(id).take(i as int),
        decreases 16 - i,
    {
        proof {
            assert(id_bytes(id).take(i + 1) =~= id_bytes(id).take(i as int).push(
                rseq(tmp@)[i as int]));
        }
        r.push(tmp[15 - i]);
        i += 1;
    }
    proof {
        assert(r@ =~= id_bytes(id));
    }
    r
}

/// The canonical form never holds a newline: hyphens and hex digits
/// only, so framing never splits an id.
pub proof fn lemma_uuid_no_newline(id: u128)
    ensures
        forall|i: int| 0 <= i < uuid_ascii(id).len() ==> #[trigger] uuid_ascii(id)[i] != 10,
{
    lemma_hex_fixed_shape(id as nat, 32);
    let s = uuid_ascii(id);
    let h = uuid_hex(id);
    assert(uuid_strip(s) =~= h);
    assert forall|i: int| 0 <= i < s.len() implies #[trigger] s[i] != 10 by {
        if i == 8 || i == 13 || i == 18 || i == 23 {
            assert(s[i] == 45);
        } else {
            let k = if i < 8 {
                i
            } else if i < 13 {
                i - 1
            } else if i < 18 {
                i - 2
            } else if i < 23 {
                i - 3
            } else {
                i - 4
            };
            assert(nib_pos(k) == i);
            assert(s[i] == uuid_strip(s)[k]);
            assert(is_hex_digit(h[k]));
        }
    }
}

/// Hex digit value of a byte; both letter cases are accepted, as
/// UUID parsers conventionally do.
pub fn hex_val_of(b: u8) -> (r: Option<u8>)
    ensures
        r is Some <==> is_hex_digit(b),
        r is Some ==> r->0 == hex_digit_val(b) && r->0 < 16,
{
    if 48 <= b && b <= 57 {
        Some(b - 48)
    } else if 97 <= b && b <= 102 {
        Some(b - 87)
    } else if 65 <= b && b <= 70 {
        Some(b - 55)
    } else {
        None
    }
}

pub fn hex_char_of(v: u8) -> (r: u8)
    requires
        v < 16,
    ensures
        r == hex_char(v),
{
    if v < 10 {
        v + 48
    } else {
        v + 87
    }
}

/// Format an id in its canonical 36-byte form.
pub fn format_uuid(id: u128) -> (r: Vec<u8>)
    ensures
        r@ == uuid_ascii(id),
{
    let mut tmp: Vec<u8> = Vec::new();
    let mut cur: u128 = id;
    let mut j: usize = 0;
    while j < 32
        invariant
            j <= 32,
            tmp@.len() == j,
            uuid_hex(id) =~= hex_fixed(cur as nat, (32 - j) as nat) + rseq(tmp@),
        decreases 32 - j,
    {
        let d: u8 = (cur % 16) as u8;
        let c: u8 = hex_char_of(d);
        proof {
            assert(hex_fixed(cur as nat, (32 - j) as nat) =~= hex_fixed(
                (cur as nat) / 16,
                (32 - j - 1) as nat,
            ) + seq![hex_char((cur as nat % 16) as u8)]);
            lemma_rseq_push(tmp@, c);
        }
        tmp.push(c);
        cur = cur / 16;
        j += 1;
        proof {
            assert(uuid_hex(id) =~= hex_fixed(cur as nat, (32 - j) as nat) + rseq(tmp@));
        }
    }
    proof {
        assert(hex_fixed(cur as nat, 0) =~= Seq::<u8>::empty());
        assert(uuid_hex(id) =~= rseq(tmp@));
    }
    let mut h: Vec<u8> = Vec::new();
    let mut i: usize = 0;
    while i < 32
        invariant
            i <= 32,
            tmp@.len() == 32,
            uuid_hex(id) =~= rseq(tmp@),
            h@ =~= uuid_hex(id).take(i as int),
        decreases 32 - i,
    {
        proof {
            assert(uuid_hex(id).take(i + 1) =~= uuid_hex(id).take(i as int).push(
                rseq(tmp@)[i as int]));
        }
        h.push(tmp[31 - i]);
        i += 1;
    }
    proof {
        assert(h@ =~= uuid_hex(id));
    }
    let mut r: Vec<u8> = Vec::new();
    let mut i2: usize = 0;
    while i2 < 36
        invariant
            i2 <= 36,
            h@ == uuid_hex(id),
            r@.len() == i2,
            forall|t: int| 0 <= t < i2 ==> #[trigger] r@[t] == uuid_ascii(id)[t],
        decreases 36 - i2,
    {
        proof {
            lemma_hex_fixed_shape(id as nat, 32);
        }
        if i2 == 8 || i2 == 13 || i2 == 18 || i2 == 23 {
            r.push(45);
        } else {
            let k: usize = if i2 < 8 {
                i2
            } else if i2 < 13 {
                i2 - 1
            } else if i2 < 18 {
                i2 - 2
            } else if i2 < 23 {
                i2 - 3
            } else {
                i2 - 4
            };
            proof {
                assert(nib_pos(k as int) == i2 as int);
            }
            r.push(h[k]);
        }
        i2 += 1;
    }
    proof {
        assert(r@ =~= uuid_ascii(id));
    }
    r
}

/// Parse the canonical hyphenated form; both digit cases are accepted.
pub fn parse_uuid_bytes(s: &[u8]) -> (r: Option<u128>)
    ensures
        r == spec_parse_uuid(s@),
{
    if s.len() != 36 {
        return None;
    }
    if !(s[8] == 45 && s[13] == 45 && s[18] == 45 && s[23] == 45) {
        return None;
    }
    let mut acc: u128 = 0;
    let mut k: usize = 0;
    proof {
        lemma_npow16_32();
    }
    while k < 32
        invariant
            k <= 32,
            s@.len() == 36,
            s@[8] == 45 && s@[13] == 45 && s@[18] == 45 && s@[23] == 45,
            forall|t: int| 0 <= t < k ==> is_hex_digit(#[trigger] uuid_strip(s@)[t]),
            acc == hex_val(uuid_strip(s@).take(k as int)),
            acc < npow(16, k as nat),
            npow(16, 32) == 0x100000000000000000000000000000000nat,
            forall|t: nat| t <= 32 ==> #[trigger] npow(16, t) <= npow(16, 32),
        decreases 32 - k,
    {
        let i: usize = if k < 8 {
            k
        } else if k < 12 {
            k + 1
        } else if k < 16 {
            k + 2
        } else {
            if k < 20 {
                k + 3
            } else {
                k + 4
            }
        };
        proof {
            assert(nib_pos(k as int) == i as int);
        }
        let b: u8 = s[i];
        let v: u8 = match hex_val_of(b) {
            Some(v) => v,
            None => {
                proof {
                    assert(uuid_strip(s@)[k as int] == b);
                    assert(!is_uuid_ascii(s@));
                }
                return None;
            },
        };
        proof {
            assert(uuid_strip(s@).take(k + 1).drop_last() =~= uuid_strip(s@).take(k as int));
            assert(uuid_strip(s@).take(k + 1).last() == uuid_strip(s@)[k as int]);
            assert(uuid_strip(s@)[k as int] == b);
            let p = npow(16, k as nat);
            assert(npow(16, (k + 1) as nat) == 16 * p);
            assert(acc * 16 + 15 < 16 * p) by (nonlinear_arith)
                requires
                    acc < p,
            ;
            assert(16 * p <= npow(16, 32));
        }
        acc = acc * 16 + v as u128;
        k += 1;
    }
    proof {
        assert(uuid_strip(s@).take(32) =~= uuid_strip(s@));
        assert(is_uuid_ascii(s@));
    }
    Some(acc)
}

} // verus!
