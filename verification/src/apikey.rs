//! API-key authentication: the request body sent to the remote
//! validator and the reading of its JSON verdict. The HTTP POST
//! itself is performed by the networked runtime; only its status and
//! body come back here, and the decision is verified.

use vstd::prelude::*;

verus! {

use crate::codec::{json_obj, json_quoted, obj_from, quoted_text_vec};
use crate::escape::escape_bytes;
use vstd::string::StringExecFns;
use vstd::utf8::encode_utf8;

/// `api_key`
pub open spec fn api_key_key() -> Seq<u8> {
    seq![97u8, 112u8, 105u8, 95u8, 107u8, 101u8, 121u8]
}

/// The body POSTed to the validation URL: `{"api_key":"<key>"}`.
pub open spec fn spec_request_body(key: Seq<char>) -> Seq<u8> {
    json_obj(api_key_key(), json_quoted(escape_bytes(encode_utf8(key))))
}

pub open spec fn is_ws(b: u8) -> bool {
    b == 32 || b == 9 || b == 10 || b == 13
}

/// `"valid"`
pub open spec fn valid_key() -> Seq<u8> {
    seq![34u8, 118u8, 97u8, 108u8, 105u8, 100u8, 34u8]
}

pub open spec fn valid_key_at(s: Seq<u8>, i: int) -> bool {
    0 <= i && i + 7 <= s.len() && s.subrange(i, i + 7) == valid_key()
}

/// First occurrence of `"valid"` at or after `i`.
pub open spec fn first_valid_key(s: Seq<u8>, i: int) -> Option<int>
    decreases s.len() - i,
    when 0 <= i
{
    if i + 7 > s.len() {
        None
    } else if valid_key_at(s, i) {
        Some(i)
    } else {
        first_valid_key(s, i + 1)
    }
}

pub open spec fn skip_ws(s: Seq<u8>, i: int) -> int
    decreases s.len() - i,
    when 0 <= i
{
    if i < s.len() && is_ws(s[i]) {
        skip_ws(s, i + 1)
    } else {
        i
    }
}

/// The boolean after the first `"valid"` key of the body, if the
/// shape `"valid" : true|false` is there.
pub open spec fn spec_valid_flag(s: Seq<u8>) -> Option<bool> {
    match first_valid_key(s, 0) {
        None => None,
        Some(i) => {
            let j = skip_ws(s, i + 7);
            if j < s.len() && s[j] == 58 {
                let k = skip_ws(s, j + 1);
                if k + 4 <= s.len() && s[k] == 116 && s[k + 1] == 114 && s[k + 2] == 117 && s[k
                    + 3] == 101 {
                    Some(true)
                } else if k + 5 <= s.len() && s[k] == 102 && s[k + 1] == 97 && s[k + 2] == 108
                    && s[k + 3] == 115 && s[k + 4] == 101 {
                    Some(false)
                } else {
                    None
                }
            } else {
                None
            }
        },
    }
}

/// Authenticator that defers to a remote validator.
pub struct ApiKeyAuthenticator {
    validation_url: String,
}

impl ApiKeyAuthenticator {
    pub closed spec fn url_view(&self) -> Seq<char> {
        self.validation_url@
    }

    /// Create an authenticator that validates against this URL.
    pub fn new(validation_url: String) -> (r: ApiKeyAuthenticator)
        ensures
            r.url_view() == validation_url@,
    {
        ApiKeyAuthenticator { validation_url }
    }

    /// The URL the runtime must POST to.
    pub fn validation_url(&self) -> (r: &str)
        ensures
            r@ == self.url_view(),
    {
        self.validation_url.as_str()
    }

    /// The JSON body carrying the key to the validator.
    pub fn request_body(api_key: &str) -> (r: Vec<u8>)
        ensures
            r@ == spec_request_body(api_key@),
    {
        let mut key: Vec<u8> = Vec::new();
        key.push(97);
        key.push(112);
        key.push(105);
        key.push(95);
        key.push(107);
        key.push(101);
        key.push(121);
        proof {
            assert(key@ =~= api_key_key());
        }
        obj_from(key, quoted_text_vec(api_key))
    }
}

fn find_valid_key(s: &[u8]) -> (r: Option<usize>)
    ensures
        match r {
            Some(i) => i + 7 <= s@.len() && first_valid_key(s@, 0) == Some(i as int),
            None => first_valid_key(s@, 0) is None,
        },
{
    let mut i: usize = 0;
    while i < s.len() && s.len() - i >= 7
        invariant
            i <= s@.len(),
            first_valid_key(s@, 0) == first_valid_key(s@, i as int),
        decreases s@.len() - i,
    {
        if s[i] == 34 && s[i + 1] == 118 && s[i + 2] == 97 && s[i + 3] == 108 && s[i + 4] == 105
            && s[i + 5] == 100 && s[i + 6] == 34 {
            proof {
                assert(s@.subrange(i as int, i + 7) =~= valid_key());
            }
            return Some(i);
        }
        proof {
            assert(!valid_key_at(s@, i as int)) by {
                if valid_key_at(s@, i as int) {
                    assert(s@.subrange(i as int, i + 7)[0] == s@[i as int]);
                    assert(s@.subrange(i as int, i + 7)[1] == s@[i + 1]);
                    assert(s@.subrange(i as int, i + 7)[2] == s@[i + 2]);
                    assert(s@.subrange(i as int, i + 7)[3] == s@[i + 3]);
                    assert(s@.subrange(i as int, i + 7)[4] == s@[i + 4]);
                    assert(s@.subrange(i as int, i + 7)[5] == s@[i + 5]);
                    assert(s@.subrange(i as int, i + 7)[6] == s@[i + 6]);
                }
            }
        }
        i += 1;
    }
    None
}

fn skip_ws_exec(s: &[u8], from: usize) -> (r: usize)
    requires
        from <= s@.len(),
    ensures
        r == skip_ws(s@, from as int),
        from <= r <= s@.len(),
{
    let mut j: usize = from;
    while j < s.len() && (s[j] == 32 || s[j] == 9 || s[j] == 10 || s[j] == 13)
        invariant
            from <= j <= s@.len(),
            skip_ws(s@, from as int) == skip_ws(s@, j as int),
        decreases s@.len() - j,
    {
        j += 1;
    }
    j
}

/// Read the verdict out of the validator's body.
pub fn parse_valid_flag(s: &[u8]) -> (r: Option<bool>)
    ensures
        r == spec_valid_flag(s@),
{
    let i = match find_valid_key(s) {
        Some(i) => i,
        None => {
            return None;
        },
    };
    let n: usize = s.len();
    proof {
        assert(i + 7 <= n);
    }
    let j = skip_ws_exec(s, i + 7);
    if !(j < s.len() && s[j] == 58) {
        return None;
    }
    let k = skip_ws_exec(s, j + 1);
    if k < s.len() && s.len() - k >= 4 && s[k] == 116 && s[k + 1] == 114 && s[k + 2] == 117
        && s[k + 3] == 101 {
        Some(true)
    } else if k < s.len() && s.len() - k >= 5 && s[k] == 102 && s[k + 1] == 97 && s[k + 2] == 108
        && s[k + 3] == 115 && s[k + 4] == 101 {
        Some(false)
    } else {
        None
    }
}

/// The authorization decision: a successful HTTP status whose body
/// says `valid: true`; transport errors, other statuses, malformed
/// bodies and `valid: false` all deny.
pub fn api_key_authorized(status_success: bool, body: Option<&[u8]>) -> (r: bool)
    ensures
        r == (status_success && match body {
            Some(b) => spec_valid_flag(b@) == Some(true),
            None => false,
        }),
{
    if !status_success {
        return false;
    }
    match body {
        Some(b) => match parse_valid_flag(b) {
            Some(v) => v,
            None => false,
        },
        None => false,
    }
}

} // verus!
