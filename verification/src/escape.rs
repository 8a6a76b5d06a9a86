//! JSON string-body escaping over UTF-8 bytes. Bytes at and above 0x20
//! pass through except `"` and `\`; the common control characters use
//! their two-byte escapes and the rest use `\u00XX`.

use vstd::prelude::*;

verus! {

use crate::digits::{hex_char, hex_digit_val, is_hex_digit};
use crate::ids::{hex_char_of, hex_val_of};

/// The escape sequence of one byte.
pub open spec fn esc_byte(b: u8) -> Seq<u8> {
    if b == 34 {
        seq![92u8, 34u8]
    } else if b == 92 {
        seq![92u8, 92u8]
    } else if b == 8 {
        seq![92u8, 98u8]
    } else if b == 9 {
        seq![92u8, 116u8]
    } else if b == 10 {
        seq![92u8, 110u8]
    } else if b == 12 {
        seq![92u8, 102u8]
    } else if b == 13 {
        seq![92u8, 114u8]
    } else if b < 32 {
        seq![92u8, 117u8, 48u8, 48u8, hex_char(b / 16), hex_char(b % 16)]
    } else {
        seq![b]
    }
}

/// The escaped form of a byte string.
pub open spec fn escape_bytes(s: Seq<u8>) -> Seq<u8>
    decreases s.len(),
{
    if s.len() == 0 {
        Seq::empty()
    } else {
        esc_byte(s[0]) + escape_bytes(s.drop_first())
    }
}

/// Undo [`escape_bytes`]: `None` on a raw quote, a raw control byte,
/// or a malformed escape. `\/` and `\u00XX` below 0x80 are accepted
/// as well, as a JSON emitter may produce them.
pub open spec fn unescape_bytes(s: Seq<u8>) -> Option<Seq<u8>>
    decreases s.len(),
{
    if s.len() == 0 {
        Some(Seq::empty())
    } else if s[0] == 34 {
        None
    } else if s[0] == 92 {
        if s.len() < 2 {
            None
        } else {
            let c = s[1];
            if c == 34 || c == 92 || c == 47 {
                match unescape_bytes(s.skip(2)) {
                    Some(t) => Some(seq![c] + t),
                    None => None,
                }
            } else if c == 98 {
                match unescape_bytes(s.skip(2)) {
                    Some(t) => Some(seq![8u8] + t),
                    None => None,
                }
            } else if c == 116 {
                match unescape_bytes(s.skip(2)) {
                    Some(t) => Some(seq![9u8] + t),
                    None => None,
                }
            } else if c == 110 {
                match unescape_bytes(s.skip(2)) {
                    Some(t) => Some(seq![10u8] + t),
                    None => None,
                }
            } else if c == 102 {
                match unescape_bytes(s.skip(2)) {
                    Some(t) => Some(seq![12u8] + t),
                    None => None,
                }
            } else if c == 114 {
                match unescape_bytes(s.skip(2)) {
                    Some(t) => Some(seq![13u8] + t),
                    None => None,
                }
            } else if c == 117 {
                if s.len() < 6 || s[2] != 48 || s[3] != 48 || !is_hex_digit(s[4])
                    || !is_hex_digit(s[5]) {
                    None
                } else {
                    let v = hex_digit_val(s[4]) * 16 + hex_digit_val(s[5]);
                    if v < 128 {
                        match unescape_bytes(s.skip(6)) {
                            Some(t) => Some(seq![v as u8] + t),
                            None => None,
                        }
                    } else {
                        None
                    }
                }
            } else {
                None
            }
        }
    } else if s[0] < 32 {
        None
    } else {
        match unescape_bytes(s.skip(1)) {
            Some(t) => Some(seq![s[0]] + t),
            None => None,
        }
    }
}

proof fn lemma_esc_byte_no_newline(b: u8)
    ensures
        forall|i: int| 0 <= i < esc_byte(b).len() ==> #[trigger] esc_byte(b)[i] != 10,
{
    let e = esc_byte(b);
    if b == 34 || b == 92 || b == 8 || b == 9 || b == 10 || b == 12 || b == 13 {
        assert(e.len() == 2 && e[0] == 92 && e[1] != 10);
    } else if b < 32 {
        assert(e.len() == 6);
        assert(e[0] == 92 && e[1] == 117 && e[2] == 48 && e[3] == 48);
        assert(e[4] == hex_char(b / 16) && e[5] == hex_char(b % 16));
        assert(hex_char(b / 16) >= 48 && hex_char(b % 16) >= 48);
    } else {
        assert(e.len() == 1 && e[0] == b && b >= 32);
    }
}

/// Escaping never emits a raw newline, so an escaped body never
/// breaks the newline framing of the wire.
pub proof fn lemma_escape_no_newline(s: Seq<u8>)
    ensures
        forall|i: int| 0 <= i < escape_bytes(s).len() ==> #[trigger] escape_bytes(s)[i] != 10,
    decreases s.len(),
{
    if s.len() > 0 {
        lemma_escape_no_newline(s.drop_first());
        lemma_esc_byte_no_newline(s[0]);
        let e = esc_byte(s[0]);
        let rest = escape_bytes(s.drop_first());
        assert forall|i: int| 0 <= i < escape_bytes(s).len() implies #[trigger] escape_bytes(
            s,
        )[i] != 10 by {
            assert(escape_bytes(s) == e + rest);
            if i < e.len() {
                assert(escape_bytes(s)[i] == e[i]);
            } else {
                assert(escape_bytes(s)[i] == rest[i - e.len()]);
            }
        }
    }
}

proof fn lemma_unescape_cons(b: u8, t: Seq<u8>, u: Seq<u8>)
    requires
        unescape_bytes(t) == Some(u),
    ensures
        unescape_bytes(esc_byte(b) + t) == Some(seq![b] + u),
{
    let s = esc_byte(b) + t;
    if b == 34 || b == 92 {
        assert(s.skip(2) =~= t);
    } else if b == 8 || b == 9 || b == 10 || b == 12 || b == 13 {
        assert(s.skip(2) =~= t);
    } else if b < 32 {
        assert(s.skip(6) =~= t);
        assert(s[4] == hex_char(b / 16) && s[5] == hex_char(b % 16));
        assert(is_hex_digit(hex_char(b / 16)) && hex_digit_val(hex_char(b / 16)) == b / 16);
        assert(is_hex_digit(hex_char(b % 16)) && hex_digit_val(hex_char(b % 16)) == b % 16);
        assert((b / 16) * 16 + b % 16 == b) by (nonlinear_arith);
        assert(unescape_bytes(s) == Some(seq![b] + u));
    } else {
        assert(s.skip(1) =~= t);
    }
}

/// Escape-then-unescape is the identity on every byte string.
pub proof fn lemma_escape_roundtrip(s: Seq<u8>)
    ensures
        unescape_bytes(escape_bytes(s)) == Some(s),
    decreases s.len(),
{
    if s.len() == 0 {
        assert(escape_bytes(s) =~= Seq::<u8>::empty());
    } else {
        lemma_escape_roundtrip(s.drop_first());
        lemma_unescape_cons(s[0], escape_bytes(s.drop_first()), s.drop_first());
        assert(seq![s[0]] + s.drop_first() =~= s);
    }
}

pub proof fn lemma_escape_push(s: Seq<u8>, b: u8)
    ensures
        escape_bytes(s.push(b)) =~= escape_bytes(s) + esc_byte(b),
    decreases s.len(),
{
    if s.len() == 0 {
        assert(s.push(b).drop_first() =~= Seq::<u8>::empty());
        assert(s.push(b)[0] == b);
        assert(escape_bytes(s.push(b)) == esc_byte(b) + escape_bytes(Seq::<u8>::empty()));
        assert(escape_bytes(Seq::<u8>::empty()) =~= Seq::<u8>::empty());
        assert(esc_byte(b) + Seq::<u8>::empty() =~= escape_bytes(s) + esc_byte(b));
    } else {
        lemma_escape_push(s.drop_first(), b);
        assert(s.push(b).drop_first() =~= s.drop_first().push(b));
        assert(s.push(b)[0] == s[0]);
        assert(escape_bytes(s.push(b)) == esc_byte(s[0]) + escape_bytes(s.drop_first().push(b)));
        assert(esc_byte(s[0]) + (escape_bytes(s.drop_first()) + esc_byte(b)) =~= (esc_byte(s[0])
            + escape_bytes(s.drop_first())) + esc_byte(b));
    }
}

/// Append the escaped form of `s` to `out`.
pub fn escape_into(out: &mut Vec<u8>, s: &[u8])
    ensures
        final(out)@ == old(out)@ + escape_bytes(s@),
{
    let mut i: usize = 0;
    proof {
        assert(escape_bytes(s@.take(0)) =~= Seq::<u8>::empty());
        assert(out@ =~= old(out)@ + escape_bytes(s@.take(0)));
    }
    while i < s.len()
        invariant
            i <= s@.len(),
            out@ == old(out)@ + escape_bytes(s@.take(i as int)),
        decreases s@.len() - i,
    {
        let b: u8 = s[i];
        proof {
            assert(s@.take(i + 1) =~= s@.take(i as int).push(b));
            lemma_escape_push(s@.take(i as int), b);
        }
        if b == 34 {
            out.push(92);
            out.push(34);
        } else if b == 92 {
            out.push(92);
            out.push(92);
        } else if b == 8 {
            out.push(92);
            out.push(98);
        } else if b == 9 {
            out.push(92);
            out.push(116);
        } else if b == 10 {
            out.push(92);
            out.push(110);
        } else if b == 12 {
            out.push(92);
            out.push(102);
        } else if b == 13 {
            out.push(92);
            out.push(114);
        } else if b < 32 {
            out.push(92);
            out.push(117);
            out.push(48);
            out.push(48);
            out.push(hex_char_of(b / 16));
            out.push(hex_char_of(b % 16));
        } else {
            out.push(b);
        }
        i += 1;
        proof {
            assert(out@ =~= old(out)@ + escape_bytes(s@.take(i as int)));
        }
    }
    proof {
        assert(s@.take(s@.len() as int) =~= s@);
    }
}

proof fn lemma_unescape_step(s: Seq<u8>, i: int, k: int, x: u8, out: Seq<u8>)
    requires
        0 <= i,
        i + k <= s.len(),
        1 <= k,
        unescape_bytes(s.skip(i)) == (match unescape_bytes(s.skip(i + k)) {
            Some(t) => Some(seq![x] + t),
            None => None::<Seq<u8>>,
        }),
        unescape_bytes(s) == (match unescape_bytes(s.skip(i)) {
            Some(u) => Some(out + u),
            None => None::<Seq<u8>>,
        }),
    ensures
        unescape_bytes(s) == (match unescape_bytes(s.skip(i + k)) {
            Some(t) => Some(out.push(x) + t),
            None => None::<Seq<u8>>,
        }),
{
    match unescape_bytes(s.skip(i + k)) {
        Some(t) => {
            assert(out + (seq![x] + t) =~= out.push(x) + t);
        },
        None => {},
    }
}

/// Undo escaping; `None` exactly where [`unescape_bytes`] is `None`.
pub fn unescape_exec(s: &[u8]) -> (r: Option<Vec<u8>>)
    ensures
        match r {
            Some(v) => unescape_bytes(s@) == Some(v@),
            None => unescape_bytes(s@) is None,
        },
{
    let mut out: Vec<u8> = Vec::new();
    let mut i: usize = 0;
    proof {
        assert(s@.skip(0) =~= s@);
        match unescape_bytes(s@) {
            Some(u) => {
                assert(out@ + u =~= u);
            },
            None => {},
        }
    }
    while i < s.len()
        invariant
            i <= s@.len(),
            unescape_bytes(s@) == (match unescape_bytes(s@.skip(i as int)) {
                Some(u) => Some(out@ + u),
                None => None::<Seq<u8>>,
            }),
        decreases s@.len() - i,
    {
        let ghost rest = s@.skip(i as int);
        proof {
            assert(rest.len() == s@.len() - i);
            assert(rest[0] == s@[i as int]);
        }
        let b: u8 = s[i];
        if b == 34 {
            return None;
        } else if b == 92 {
            if s.len() - i < 2 {
                return None;
            }
            let c: u8 = s[i + 1];
            proof {
                assert(rest[1] == c);
            }
            let step: usize;
            let x: u8;
            if c == 34 || c == 92 || c == 47 {
                step = 2;
                x = c;
            } else if c == 98 {
                step = 2;
                x = 8;
            } else if c == 116 {
                step = 2;
                x = 9;
            } else if c == 110 {
                step = 2;
                x = 10;
            } else if c == 102 {
                step = 2;
                x = 12;
            } else if c == 114 {
                step = 2;
                x = 13;
            } else if c == 117 {
                if s.len() - i < 6 {
                    return None;
                }
                proof {
                    assert(rest[2] == s@[i + 2] && rest[3] == s@[i + 3] && rest[4] == s@[i + 4]
                        && rest[5] == s@[i + 5]);
                }
                if s[i + 2] != 48 || s[i + 3] != 48 {
                    return None;
                }
                let hi: u8 = match hex_val_of(s[i + 4]) {
                    Some(v) => v,
                    None => {
                        return None;
                    },
                };
                let lo: u8 = match hex_val_of(s[i + 5]) {
                    Some(v) => v,
                    None => {
                        return None;
                    },
                };
                let v: u8 = hi * 16 + lo;
                if v >= 128 {
                    return None;
                }
                step = 6;
                x = v;
            } else {
                return None;
            }
            proof {
                assert(rest.skip(step as int) =~= s@.skip(i + step));
                lemma_unescape_step(s@, i as int, step as int, x, out@);
            }
            out.push(x);
            i += step;
        } else if b < 32 {
            return None;
        } else {
            proof {
                assert(rest.skip(1) =~= s@.skip(i + 1));
                lemma_unescape_step(s@, i as int, 1, b, out@);
            }
            out.push(b);
            i += 1;
        }
    }
    proof {
        assert(s@.skip(s@.len() as int) =~= Seq::<u8>::empty());
        match unescape_bytes(s@) {
            Some(u) => {
                assert(unescape_bytes(Seq::<u8>::empty()) == Some(Seq::<u8>::empty()));
                assert(out@ + Seq::<u8>::empty() =~= out@);
            },
            None => {},
        }
    }
    Some(out)
}

} // verus!
