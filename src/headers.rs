use vstd::prelude::*;
use vstd::utf8::encode_utf8;
use crate::text::{chars_of, push_char, same_text};

verus! {

/// The HMAC-SHA256 tag of `msg` under `key`.
pub uninterp spec fn hmac_sha256(key: Seq<u8>, msg: Seq<u8>) -> Seq<u8>;

/// Relies on the hmac crate's `Hmac<Sha256>` (sha2's SHA-256): `new_from_slice`
/// accepts a key of any length, and `finalize` gives the 32-byte tag of what
/// `update` was given.
#[verifier::external_body]
fn mac_sha256(key: &[u8], msg: &[u8]) -> (r: Vec<u8>)
    ensures
        r@ == hmac_sha256(key@, msg@),
        r@.len() == 32,
{
    let mut mac = <hmac::Hmac<sha2::Sha256> as hmac::Mac>::new_from_slice(key).expect(
        "HMAC takes a key of any length",
    );
    hmac::Mac::update(&mut mac, msg);
    hmac::Mac::finalize(mac).into_bytes().to_vec()
}

/// The standard base64 text of `b`, without padding.
pub uninterp spec fn base64_unpadded(b: Seq<u8>) -> Seq<char>;

/// Relies on base64's `STANDARD_NO_PAD` engine: `encode` writes the bytes in
/// the standard alphabet with no padding.
#[verifier::external_body]
fn encode_base64(b: &[u8]) -> (r: String)
    requires
        b@.len() <= 4096,
    ensures
        r@ == base64_unpadded(b@),
{
    base64::Engine::encode(&base64::engine::general_purpose::STANDARD_NO_PAD, b)
}

/// The position of the last `.` in `s`, or -1.
pub open spec fn last_dot(s: Seq<char>) -> int
    decreases s.len(),
{
    if s.len() == 0 {
        -1
    } else if s[s.len() - 1] == '.' {
        s.len() - 1
    } else {
        last_dot(s.drop_last())
    }
}

/// A signed value split at its last `.`: the value, then the signature.
pub open spec fn signed_parts(token: Seq<char>) -> Option<(Seq<char>, Seq<char>)> {
    let d = last_dot(token);
    if d < 0 {
        None
    } else {
        Some((token.subrange(0, d), token.subrange(d + 1, token.len() as int)))
    }
}

/// The owner that a token `owner.signature` names, where the signature is the
/// unpadded base64 HMAC-SHA256 of the owner under `secret`.
pub open spec fn signed_owner(token: Seq<char>, secret: Seq<char>) -> Option<Seq<char>> {
    match signed_parts(token) {
        Some((owner, sig)) => if base64_unpadded(hmac_sha256(encode_utf8(secret), encode_utf8(owner)))
            == sig {
            Some(owner)
        } else {
            None
        },
        None => None,
    }
}

pub open spec fn opt_seq(o: Option<String>) -> Option<Seq<char>> {
    match o {
        Some(s) => Some(s@),
        None => None,
    }
}

fn text_of(s: &Vec<char>, from: usize, to: usize) -> (r: String)
    requires
        from <= to <= s.len(),
    ensures
        r@ == s@.subrange(from as int, to as int),
{
    let mut out = String::new();
    let mut i = from;
    while i < to
        invariant
            from <= i <= to <= s.len(),
            out@ == s@.subrange(from as int, i as int),
        decreases to - i,
    {
        push_char(&mut out, s[i]);
        assert(s@.subrange(from as int, i + 1) =~= s@.subrange(from as int, i as int).push(s@[i as int]));
        i = i + 1;
    }
    out
}

/// Splits a signed token at its last `.` into the value and the signature.
pub fn split_signed(token: &str) -> (r: Option<(String, String)>)
    ensures
        match signed_parts(token@) {
            Some((owner, sig)) => r matches Some((o, s)) && o@ == owner && s@ == sig,
            None => r is None,
        },
{
    let s = chars_of(token);
    let mut i = s.len();
    assert(s@.subrange(0, s.len() as int) =~= s@);
    while i > 0 && s[i - 1] != '.'
        invariant
            i <= s.len(),
            s@ == token@,
            last_dot(s@) == last_dot(s@.subrange(0, i as int)),
        decreases i,
    {
        assert(s@.subrange(0, i as int).drop_last() =~= s@.subrange(0, i - 1));
        i = i - 1;
    }
    if i == 0 {
        assert(s@.subrange(0, 0) =~= Seq::<char>::empty());
        None
    } else {
        Some((text_of(&s, 0, i - 1), text_of(&s, i, s.len())))
    }
}

/// The owner named by a signed token, if its signature is right under `secret`.
pub fn hmac_verify(token: &str, secret: &str) -> (r: Option<String>)
    ensures
        opt_seq(r) == signed_owner(token@, secret@),
{
    match split_signed(token) {
        Some((owner, sig)) => {
            let tag = mac_sha256(secret.as_bytes(), owner.as_str().as_bytes());
            let expected = encode_base64(tag.as_slice());
            if same_text(expected.as_str(), sig.as_str()) {
                Some(owner)
            } else {
                None
            }
        },
        None => None,
    }
}

/// The fields of a verified bearer token.
#[derive(Debug)]
pub struct BearerFields {
    pub owner_id: String,
    pub raw_value: String,
}

/// Who a request speaks for.
#[derive(Debug)]
pub enum Authorization {
    Bearer(BearerFields),
    Empty,
}

/// The token of an `Authorization` value `Bearer <token>`.
pub open spec fn bearer_token(v: Seq<char>) -> Option<Seq<char>> {
    if v.len() >= 7 && v.subrange(0, 7) == "Bearer "@ {
        Some(v.subrange(7, v.len() as int))
    } else {
        None
    }
}

/// The signed part of a token: without its leading `s:` where it has one.
pub open spec fn signed_part(token: Seq<char>) -> Seq<char> {
    if token.len() >= 2 && token[0] == 's' && token[1] == ':' {
        token.subrange(2, token.len() as int)
    } else {
        token
    }
}

impl Authorization {
    pub fn empty() -> (r: Authorization)
        ensures
            r is Empty,
    {
        Authorization::Empty
    }

    /// Reads an `Authorization` header value: a bearer token whose signature
    /// is right under `secret` gives its owner; anything else gives `Empty`.
    pub fn from_header(value: &str, secret: Option<&str>) -> (r: Authorization)
        ensures
            match (bearer_token(value@), secret) {
                (Some(token), Some(key)) => match signed_owner(signed_part(token), key@) {
                    Some(owner) => r matches Authorization::Bearer(f) && f.owner_id@ == owner
                        && f.raw_value@ == token,
                    None => r is Empty,
                },
                _ => r is Empty,
            },
    {
        proof {
            reveal_strlit("Bearer ");
        }
        let s = chars_of(value);
        let lead = chars_of("Bearer ");
        if s.len() < 7 {
            return Authorization::Empty;
        }
        assert(lead@.len() == 7);
        let mut k: usize = 0;
        while k < 7
            invariant
                k <= 7,
                s.len() >= 7,
                lead.len() == 7,
                lead@ == "Bearer "@,
                s@ == value@,
                forall|j: int| 0 <= j < k ==> s@[j] == lead@[j],
            decreases 7 - k,
        {
            if s[k] != lead[k] {
                assert(s@.subrange(0, 7)[k as int] != lead@[k as int]);
                return Authorization::Empty;
            }
            k = k + 1;
        }
        assert(s@.subrange(0, 7) =~= "Bearer "@);
        let key = match secret {
            Some(key) => key,
            None => {
                return Authorization::Empty;
            },
        };
        let token = text_of(&s, 7, s.len());
        let inner = if s.len() >= 9 && s[7] == 's' && s[8] == ':' {
            text_of(&s, 9, s.len())
        } else {
            token.clone()
        };
        assert(inner@ == signed_part(token@)) by {
            if s.len() >= 9 && s@[7] == 's' && s@[8] == ':' {
                assert(token@.subrange(2, token@.len() as int) =~= s@.subrange(9, s.len() as int));
            }
        }
        match hmac_verify(inner.as_str(), key) {
            Some(owner_id) => Authorization::Bearer(BearerFields { owner_id, raw_value: token }),
            None => Authorization::Empty,
        }
    }
}

/// The comma-separated parts of `s`, in order.
pub open spec fn segments(s: Seq<char>) -> Seq<Seq<char>>
    decreases s.len(),
{
    if s.len() == 0 {
        seq![Seq::empty()]
    } else {
        let init = segments(s.drop_last());
        let c = s[s.len() - 1];
        if c == ',' {
            init.push(Seq::empty())
        } else {
            init.update(init.len() - 1, init[init.len() - 1].push(c))
        }
    }
}

proof fn lemma_segments_nonempty(s: Seq<char>)
    ensures
        segments(s).len() >= 1,
    decreases s.len(),
{
    if s.len() > 0 {
        lemma_segments_nonempty(s.drop_last());
    }
}

/// Optional behaviours that a request asks for.
#[derive(Debug, PartialEq, Eq, Structural)]
pub struct Features {
    pub recommendations: bool,
    pub debug: bool,
}

impl Features {
    pub fn empty() -> (r: Features)
        ensures
            !r.recommendations,
            !r.debug,
    {
        Features { recommendations: false, debug: false }
    }

    /// Reads a `Features` header value: a comma-separated list of names.
    pub fn from_header(value: &str) -> (r: Features)
        ensures
            r.recommendations == segments(value@).contains("recommendations"@),
            r.debug == segments(value@).contains("debug"@),
    {
        let s = chars_of(value);
        let mut parts: Vec<String> = Vec::new();
        parts.push(String::new());
        let mut i: usize = 0;
        assert(s@.subrange(0, 0) =~= Seq::<char>::empty());
        while i < s.len()
            invariant
                i <= s.len(),
                s@ == value@,
                parts.len() >= 1,
                parts.len() == segments(s@.subrange(0, i as int)).len(),
                forall|j: int|
                    0 <= j < parts.len() ==> #[trigger] parts@[j]@ == segments(
                        s@.subrange(0, i as int),
                    )[j],
            decreases s.len() - i,
        {
            assert(s@.subrange(0, i + 1).drop_last() =~= s@.subrange(0, i as int));
            if s[i] == ',' {
                parts.push(String::new());
            } else {
                let last = parts.len() - 1;
                let mut p = parts.remove(last);
                push_char(&mut p, s[i]);
                parts.push(p);
            }
            i = i + 1;
        }
        assert(s@.subrange(0, s.len() as int) =~= s@);
        let mut recommendations = false;
        let mut debug = false;
        let mut j: usize = 0;
        while j < parts.len()
            invariant
                j <= parts.len(),
                parts.len() == segments(value@).len(),
                forall|k: int| 0 <= k < parts.len() ==> #[trigger] parts@[k]@ == segments(value@)[k],
                recommendations == exists|k: int|
                    0 <= k < j && segments(value@)[k] == "recommendations"@,
                debug == exists|k: int| 0 <= k < j && segments(value@)[k] == "debug"@,
            decreases parts.len() - j,
        {
            if same_text(parts[j].as_str(), "recommendations") {
                recommendations = true;
            }
            if same_text(parts[j].as_str(), "debug") {
                debug = true;
            }
            assert(parts@[j as int]@ == segments(value@)[j as int]);
            j = j + 1;
        }
        Features { recommendations, debug }
    }
}

impl Default for Features {
    fn default() -> (r: Features)
        ensures
            !r.recommendations,
            !r.debug,
    {
        Features::empty()
    }
}

} // verus!
