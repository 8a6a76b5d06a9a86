//! Decimal and hexadecimal digit strings over ASCII bytes: the spec-level
//! printers and values, their round-trip lemmas, and the executable
//! formatters and parsers used by the wire codec.

use vstd::prelude::*;

verus! {

use vstd::arithmetic::div_mod::lemma_fundamental_div_mod;

/// `base^e` over naturals.
pub open spec fn npow(base: nat, e: nat) -> nat
    decreases e,
{
    if e == 0 {
        1
    } else {
        base * npow(base, (e - 1) as nat)
    }
}

/// Reversal of a byte sequence.
pub open spec fn rseq(s: Seq<u8>) -> Seq<u8> {
    Seq::new(s.len(), |i: int| s[s.len() - 1 - i])
}

pub proof fn lemma_rseq_push(s: Seq<u8>, b: u8)
    ensures
        rseq(s.push(b)) =~= seq![b] + rseq(s),
{
}

/// Is `b` the ASCII code of a decimal digit?
pub open spec fn is_dec_digit(b: u8) -> bool {
    48 <= b <= 57
}

/// Is `b` the ASCII code of a hexadecimal digit (either case)?
pub open spec fn is_hex_digit(b: u8) -> bool {
    48 <= b <= 57 || 97 <= b <= 102 || 65 <= b <= 70
}

/// Is `b` an uppercase hexadecimal letter?
pub open spec fn is_upper_hex(b: u8) -> bool {
    65 <= b <= 70
}

/// ASCII code of the lowercase hex digit for value `v < 16`.
pub open spec fn hex_char(v: u8) -> u8 {
    if v < 10 {
        (v + 48) as u8
    } else {
        (v + 87) as u8
    }
}

/// Value of a hex digit byte.
pub open spec fn hex_digit_val(b: u8) -> u8 {
    if 48 <= b <= 57 {
        (b - 48) as u8
    } else if 97 <= b <= 102 {
        (b - 87) as u8
    } else if 65 <= b <= 70 {
        (b - 55) as u8
    } else {
        0
    }
}

/// The decimal digit string of `n`, most significant digit first,
/// with no leading zeros.
pub open spec fn dec_ascii(n: nat) -> Seq<u8>
    decreases n,
{
    if n < 10 {
        seq![(n + 48) as u8]
    } else {
        dec_ascii(n / 10) + seq![(n % 10 + 48) as u8]
    }
}

/// Value of a big-endian decimal ASCII digit string.
pub open spec fn dec_val(s: Seq<u8>) -> nat
    decreases s.len(),
{
    if s.len() == 0 {
        0
    } else {
        dec_val(s.drop_last()) * 10 + (s.last() - 48) as nat
    }
}

/// The hex digit string of `n`, exactly `k` lowercase digits,
/// most significant first; `n` is taken modulo `16^k`.
pub open spec fn hex_fixed(n: nat, k: nat) -> Seq<u8>
    decreases k,
{
    if k == 0 {
        Seq::empty()
    } else {
        hex_fixed(n / 16, (k - 1) as nat) + seq![hex_char((n % 16) as u8)]
    }
}

/// Value of a big-endian hex ASCII digit string.
pub open spec fn hex_val(s: Seq<u8>) -> nat
    decreases s.len(),
{
    if s.len() == 0 {
        0
    } else {
        hex_val(s.drop_last()) * 16 + hex_digit_val(s.last()) as nat
    }
}

pub open spec fn all_dec_digits(s: Seq<u8>) -> bool {
    forall|i: int| 0 <= i < s.len() ==> is_dec_digit(#[trigger] s[i])
}

pub open spec fn all_hex_digits(s: Seq<u8>) -> bool {
    forall|i: int| 0 <= i < s.len() ==> is_hex_digit(#[trigger] s[i])
}

pub proof fn lemma_dec_ascii_shape(n: nat)
    ensures
        1 <= dec_ascii(n).len(),
        all_dec_digits(dec_ascii(n)),
        n < npow(10, dec_ascii(n).len()),
        dec_val(dec_ascii(n)) == n,
    decreases n,
{
    if n < 10 {
        reveal_with_fuel(dec_val, 3);
        reveal_with_fuel(npow, 3);
        assert(dec_ascii(n) =~= seq![(n + 48) as u8]);
        assert(dec_ascii(n).drop_last() =~= Seq::<u8>::empty());
    } else {
        lemma_dec_ascii_shape(n / 10);
        let pre = dec_ascii(n / 10);
        let s = dec_ascii(n);
        assert(s =~= pre + seq![(n % 10 + 48) as u8]);
        assert(s.drop_last() =~= pre);
        assert(s.last() == (n % 10 + 48) as u8);
        lemma_fundamental_div_mod(n as int, 10);
        assert(dec_val(s) == dec_val(pre) * 10 + n % 10);
        assert(dec_val(s) == (n / 10) * 10 + n % 10);
        // n < 10^(len pre + 1) because n/10 < 10^(len pre)
        assert(npow(10, s.len()) == 10 * npow(10, pre.len()));
        assert(n / 10 + 1 <= npow(10, pre.len()));
        assert(n < 10 * (n / 10 + 1)) by {
            lemma_fundamental_div_mod(n as int, 10);
        }
        assert(10 * (n / 10 + 1) <= 10 * npow(10, pre.len())) by (nonlinear_arith)
            requires
                n / 10 + 1 <= npow(10, pre.len()),
        ;
    }
}

pub proof fn lemma_dec_val_bound(s: Seq<u8>)
    requires
        all_dec_digits(s),
    ensures
        dec_val(s) < npow(10, s.len()),
    decreases s.len(),
{
    if s.len() > 0 {
        assert(all_dec_digits(s.drop_last())) by {
            assert(forall|i: int|
                0 <= i < s.len() - 1 ==> s.drop_last()[i] == #[trigger] s[i]);
        }
        lemma_dec_val_bound(s.drop_last());
        let v = dec_val(s.drop_last());
        let p = npow(10, s.drop_last().len());
        assert(v * 10 + 9 < 10 * p) by (nonlinear_arith)
            requires
                v < p,
        ;
        assert(npow(10, s.len()) == 10 * p);
    }
}

pub proof fn lemma_hex_val_bound(s: Seq<u8>)
    ensures
        hex_val(s) < npow(16, s.len()),
    decreases s.len(),
{
    if s.len() > 0 {
        lemma_hex_val_bound(s.drop_last());
        let v = hex_val(s.drop_last());
        let p = npow(16, s.drop_last().len());
        assert(hex_digit_val(s.last()) < 16);
        assert(v * 16 + 15 < 16 * p) by (nonlinear_arith)
            requires
                v < p,
        ;
        assert(npow(16, s.len()) == 16 * p);
    }
}

pub proof fn lemma_hex_fixed_shape(n: nat, k: nat)
    ensures
        hex_fixed(n, k).len() == k,
        all_hex_digits(hex_fixed(n, k)),
        forall|i: int| 0 <= i < k ==> !is_upper_hex(#[trigger] hex_fixed(n, k)[i]),
        n < npow(16, k) ==> hex_val(hex_fixed(n, k)) == n,
    decreases k,
{
    if k > 0 {
        lemma_hex_fixed_shape(n / 16, (k - 1) as nat);
        let pre = hex_fixed(n / 16, (k - 1) as nat);
        let s = hex_fixed(n, k);
        let d = (n % 16) as u8;
        assert(s =~= pre + seq![hex_char(d)]);
        assert(s.drop_last() =~= pre);
        assert(s.last() == hex_char(d));
        assert(hex_digit_val(hex_char(d)) == d);
        if n < npow(16, k) {
            assert(npow(16, k) == 16 * npow(16, (k - 1) as nat));
            assert(n / 16 < npow(16, (k - 1) as nat)) by {
                lemma_fundamental_div_mod(n as int, 16);
                let p = npow(16, (k - 1) as nat);
                assert(n / 16 >= p ==> n >= 16 * p) by (nonlinear_arith)
                    requires
                        n == 16 * (n / 16) + n % 16,
                        n % 16 >= 0,
                ;
            }
            lemma_fundamental_div_mod(n as int, 16);
            assert(hex_val(s) == hex_val(pre) * 16 + d);
        }
    }
}

pub proof fn lemma_dec_ascii_len(n: nat)
    ensures
        n < 10 ==> dec_ascii(n).len() == 1,
        n < 100 ==> dec_ascii(n).len() <= 2,
        n < 1000 ==> dec_ascii(n).len() <= 3,
        n < 10000 ==> dec_ascii(n).len() <= 4,
        n < 100000 ==> dec_ascii(n).len() <= 5,
    decreases n,
{
    if n >= 10 {
        lemma_dec_ascii_len(n / 10);
        assert(dec_ascii(n).len() == dec_ascii(n / 10).len() + 1);
    }
}

pub proof fn lemma_npow10_small()
    ensures
        npow(10, 0) == 1,
        npow(10, 1) == 10,
        npow(10, 2) == 100,
        npow(10, 3) == 1000,
        npow(10, 4) == 10000,
        npow(10, 5) == 100000,
{
    reveal_with_fuel(npow, 7);
}

/// A decimal formatter for ports: the digit string of `n`.
pub fn u16_to_dec(n: u16) -> (r: Vec<u8>)
    ensures
        r@ == dec_ascii(n as nat),
{
    let mut tmp: Vec<u8> = Vec::new();
    let mut cur: u16 = n;
    loop
        invariant_except_break
            dec_ascii(n as nat) =~= dec_ascii(cur as nat) + rseq(tmp@),
        ensures
            dec_ascii(n as nat) =~= rseq(tmp@),
        decreases cur,
    {
        let d: u8 = (cur % 10) as u8 + 48;
        proof {
            if cur >= 10 {
                assert(dec_ascii(cur as nat) =~= dec_ascii((cur / 10) as nat)
                    + seq![(cur as nat % 10 + 48) as u8]);
            } else {
                assert(dec_ascii(cur as nat) =~= seq![(cur as nat + 48) as u8]);
            }
            lemma_rseq_push(tmp@, d);
        }
        let ghost old_tmp = tmp@;
        tmp.push(d);
        if cur < 10 {
            proof {
                assert(rseq(tmp@) =~= seq![d] + rseq(old_tmp));
                assert(dec_ascii(n as nat) =~= rseq(tmp@));
            }
            break;
        }
        cur = cur / 10;
        proof {
            assert(dec_ascii(n as nat) =~= dec_ascii(cur as nat) + rseq(tmp@));
        }
    }
    let mut r: Vec<u8> = Vec::new();
    let mut i: usize = 0;
    while i < tmp.len()
        invariant
            i <= tmp@.len(),
            r@ =~= rseq(tmp@).take(i as int),
        decreases tmp@.len() - i,
    {
        proof {
            assert(rseq(tmp@).take(i + 1) =~= rseq(tmp@).take(i as int).push(
                tmp@[tmp@.len() - 1 - i]));
        }
        r.push(tmp[tmp.len() - 1 - i]);
        i += 1;
    }
    proof {
        assert(rseq(tmp@).take(tmp@.len() as int) =~= rseq(tmp@));
    }
    r
}

/// Parse a decimal port number: at most five digits, value at most 65535.
pub open spec fn spec_parse_u16(s: Seq<u8>) -> Option<u16> {
    if 1 <= s.len() <= 5 && all_dec_digits(s) && dec_val(s) <= 65535 {
        Some(dec_val(s) as u16)
    } else {
        None
    }
}

pub fn parse_dec_u16(s: &[u8]) -> (r: Option<u16>)
    ensures
        r == spec_parse_u16(s@),
{
    if s.len() < 1 || s.len() > 5 {
        return None;
    }
    let mut acc: u32 = 0;
    let mut i: usize = 0;
    while i < s.len()
        invariant
            i <= s@.len() <= 5,
            all_dec_digits(s@.take(i as int)),
            acc == dec_val(s@.take(i as int)),
            acc < 100000,
        decreases s@.len() - i,
    {
        let b: u8 = s[i];
        if b < 48 || b > 57 {
            proof {
                assert(s@[i as int] == b && !is_dec_digit(b));
            }
            return None;
        }
        proof {
            assert(s@.take(i + 1).drop_last() =~= s@.take(i as int));
            assert(s@.take(i + 1).last() == b);
            lemma_dec_val_bound(s@.take(i as int));
            lemma_npow10_small();
        }
        acc = acc * 10 + (b - 48) as u32;
        i += 1;
    }
    proof {
        assert(s@.take(s@.len() as int) =~= s@);
    }
    if acc > 65535 {
        None
    } else {
        Some(acc as u16)
    }
}

} // verus!
