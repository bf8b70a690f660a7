//! Credentials and the per-request authorization check.
//!
//! A one-time code is derived from a server-side salt, the nickname and
//! the e-mail; an access token from a salt and the user's id. Both are
//! deterministic: the same inputs always give the same credential. The
//! salts arrive as explicit configuration, never from ambient process
//! state.

use vstd::prelude::*;

verus! {

use vstd::string::StringSliceAdditionalSpecFns;
use crate::hashing::{spec_credential, credential};
use crate::user::{User, PartialUser, parse_user_bytes};
use crate::keyed::spec_domain_of;
use crate::store::{Store, live};
use crate::mail::Email;
use crate::bytes::{bytes_of, append_bytes};

/// The two server-side salts, passed in at construction.
pub struct AuthConfig {
    pub temp_code_salt: Vec<u8>,
    pub access_token_salt: Vec<u8>,
}

/// The one-time code for a registration request.
pub open spec fn spec_temp_code(salt: Seq<u8>, nickname: Seq<u8>, email: Seq<u8>) -> Seq<u8> {
    spec_credential(salt + nickname + email)
}

/// Derives the one-time code for a registration request.
pub fn generate_temp_code(config: &AuthConfig, p_user: &PartialUser) -> (r: Vec<u8>)
    ensures
        r@ == spec_temp_code(config.temp_code_salt@, p_user.nickname@, p_user.email@),
{
    let mut salted = vstd::slice::slice_to_vec(config.temp_code_salt.as_slice());
    append_bytes(&mut salted, p_user.nickname.as_slice());
    append_bytes(&mut salted, p_user.email.as_slice());
    credential(salted.as_slice())
}

/// The durable access token of a user.
pub open spec fn spec_access_token(salt: Seq<u8>, user_id: Seq<u8>) -> Seq<u8> {
    spec_credential(salt + user_id)
}

/// Derives the access token of a verified user. Deterministic, with no
/// expiry and no rotation, as the stored contract demands.
pub fn generate_access_token(config: &AuthConfig, user: &User) -> (r: Vec<u8>)
    ensures
        r@ == spec_access_token(config.access_token_salt@, user@.id),
{
    let mut salted = vstd::slice::slice_to_vec(config.access_token_salt.as_slice());
    append_bytes(&mut salted, user.id.as_slice());
    credential(salted.as_slice())
}

/// The verification mail body: a short note with the link that embeds
/// the user id and the one-time code.
pub open spec fn spec_mail_body(nickname: Seq<u8>, user_id: Seq<u8>, code: Seq<u8>) -> Seq<u8> {
    "Hi ".spec_bytes() + nickname
        + ", this is a tiny note to let you know your temp code.\nuse the below url to verify that you own this email address.\nhttps://ornot.vote/auth/?i=".spec_bytes()
        + user_id + "&c=".spec_bytes() + code + "\nbye and have a nice day :)\n".spec_bytes()
}

/// Composes the verification mail for `user`, addressed to `email`,
/// carrying `code`.
pub fn compose_temp_code_mail(user: &User, email: &[u8], code: &[u8]) -> (r: Email)
    ensures
        r.to_name@ == user@.nickname,
        r.to_address@ == email@,
        r.subject@ == "your temp code".spec_bytes(),
        r.body@ == spec_mail_body(user@.nickname, user@.id, code@),
{
    let mut body = bytes_of("Hi ");
    append_bytes(&mut body, user.nickname.as_slice());
    let middle = bytes_of(
        ", this is a tiny note to let you know your temp code.\nuse the below url to verify that you own this email address.\nhttps://ornot.vote/auth/?i=",
    );
    append_bytes(&mut body, middle.as_slice());
    append_bytes(&mut body, user.id.as_slice());
    let amp = bytes_of("&c=");
    append_bytes(&mut body, amp.as_slice());
    append_bytes(&mut body, code);
    let tail = bytes_of("\nbye and have a nice day :)\n");
    append_bytes(&mut body, tail.as_slice());
    proof {
        assert(body@ =~= spec_mail_body(user@.nickname, user@.id, code@));
    }
    Email {
        to_name: vstd::slice::slice_to_vec(user.nickname.as_slice()),
        to_address: vstd::slice::slice_to_vec(email),
        subject: bytes_of("your temp code"),
        body,
    }
}

// ---------------------------------------------------------------------
// bearer extraction
// ---------------------------------------------------------------------
pub open spec fn is_ws(b: u8) -> bool {
    b == 32 || b == 9 || b == 10 || b == 13
}

/// The input with its leading whitespace removed.
pub open spec fn skip_ws(s: Seq<u8>) -> Seq<u8>
    decreases s.len(),
{
    if s.len() > 0 && is_ws(s[0]) {
        skip_ws(s.drop_first())
    } else {
        s
    }
}

/// The input with its leading word (run of non-whitespace) removed.
pub open spec fn skip_word(s: Seq<u8>) -> Seq<u8>
    decreases s.len(),
{
    if s.len() > 0 && !is_ws(s[0]) {
        skip_word(s.drop_first())
    } else {
        s
    }
}

/// The leading word of the input.
pub open spec fn take_word(s: Seq<u8>) -> Seq<u8>
    decreases s.len(),
{
    if s.len() > 0 && !is_ws(s[0]) {
        seq![s[0]] + take_word(s.drop_first())
    } else {
        Seq::empty()
    }
}

/// The second whitespace-separated word of an `Authorization` header
/// value: in a well-formed header `Bearer <token>`, the token. A header
/// without a second word carries no token.
pub open spec fn spec_bearer_token(h: Seq<u8>) -> Option<Seq<u8>> {
    let tok = take_word(skip_ws(skip_word(skip_ws(h))));
    if tok.len() == 0 {
        Option::None
    } else {
        Option::Some(tok)
    }
}

/// Extracts the bearer token from an `Authorization` header value.
pub fn parse_bearer(header: &[u8]) -> (r: Option<Vec<u8>>)
    ensures
        match r {
            Option::Some(t) => spec_bearer_token(header@) == Option::Some(t@),
            Option::None => spec_bearer_token(header@) is None,
        },
{
    let n = header.len();
    let mut i: usize = 0;
    proof {
        assert(header@.skip(0) =~= header@);
    }
    while i < n && (header[i] == 32 || header[i] == 9 || header[i] == 10 || header[i] == 13)
        invariant
            i <= n,
            n == header@.len(),
            skip_ws(header@) == skip_ws(header@.skip(i as int)),
        decreases n - i,
    {
        proof {
            assert(header@.skip(i as int).drop_first() =~= header@.skip(i + 1));
        }
        i = i + 1;
    }
    proof {
        assert(skip_ws(header@) =~= header@.skip(i as int));
    }
    let mut j: usize = i;
    while j < n && !(header[j] == 32 || header[j] == 9 || header[j] == 10 || header[j] == 13)
        invariant
            i <= j <= n,
            n == header@.len(),
            skip_ws(header@) == header@.skip(i as int),
            skip_word(header@.skip(i as int)) == skip_word(header@.skip(j as int)),
        decreases n - j,
    {
        proof {
            assert(header@.skip(j as int).drop_first() =~= header@.skip(j + 1));
        }
        j = j + 1;
    }
    proof {
        assert(skip_word(header@.skip(i as int)) =~= header@.skip(j as int));
    }
    let mut k: usize = j;
    while k < n && (header[k] == 32 || header[k] == 9 || header[k] == 10 || header[k] == 13)
        invariant
            j <= k <= n,
            n == header@.len(),
            skip_ws(header@) == header@.skip(i as int),
            skip_word(header@.skip(i as int)) == header@.skip(j as int),
            skip_ws(header@.skip(j as int)) == skip_ws(header@.skip(k as int)),
        decreases n - k,
    {
        proof {
            assert(header@.skip(k as int).drop_first() =~= header@.skip(k + 1));
        }
        k = k + 1;
    }
    proof {
        assert(skip_ws(header@.skip(j as int)) =~= header@.skip(k as int));
    }
    let mut out: Vec<u8> = Vec::new();
    let mut t: usize = k;
    while t < n && !(header[t] == 32 || header[t] == 9 || header[t] == 10 || header[t] == 13)
        invariant
            k <= t <= n,
            n == header@.len(),
            out@.len() == t - k,
            take_word(header@.skip(k as int)) == out@ + take_word(header@.skip(t as int)),
        decreases n - t,
    {
        proof {
            assert(header@.skip(t as int).drop_first() =~= header@.skip(t + 1));
            assert(take_word(header@.skip(t as int)) =~= seq![header@[t as int]] + take_word(
                header@.skip(t + 1),
            ));
            assert(out@ + (seq![header@[t as int]] + take_word(header@.skip(t + 1))) =~= (
            out@.push(header@[t as int])) + take_word(header@.skip(t + 1)));
        }
        out.push(header[t]);
        t = t + 1;
    }
    proof {
        assert(take_word(header@.skip(t as int)) =~= Seq::<u8>::empty());
        assert(out@ + Seq::<u8>::empty() =~= out@);
        assert(take_word(skip_ws(skip_word(skip_ws(header@)))) == out@);
    }
    if out.len() == 0 {
        Option::None
    } else {
        Option::Some(out)
    }
}

// ---------------------------------------------------------------------
// the authorization check
// ---------------------------------------------------------------------
/// When the authorization check passes: the header carries a bearer
/// token, the user record under `user_id` is stored, live and parses,
/// the token record is stored and live, and the token maps to exactly
/// the stored user's id. Anything else fails closed.
pub open spec fn spec_check_auth(
    kv: Map<Seq<u8>, (Seq<u8>, Option<u64>)>,
    user_id: Seq<u8>,
    header: Option<Seq<u8>>,
    now: u64,
) -> bool {
    match header {
        Option::None => false,
        Option::Some(h) => match spec_bearer_token(h) {
            Option::None => false,
            Option::Some(tok) => {
                let ukey = spec_domain_of("user".spec_bytes(), user_id);
                let tkey = spec_domain_of("access_token".spec_bytes(), tok);
                &&& kv.contains_key(ukey)
                &&& live(kv[ukey], now)
                &&& parse_user_bytes(kv[ukey].0) is Some
                &&& kv.contains_key(tkey)
                &&& live(kv[tkey], now)
                &&& parse_user_bytes(kv[ukey].0)->Some_0.id == kv[tkey].0
            },
        },
    }
}

/// The per-request authorization guard: `true` iff the bearer token in
/// `header` resolves, via the stored token record, to exactly the
/// stored user record under `user_id`. A missing or malformed header, a
/// missing, expired or unreadable record, all fail closed.
pub fn check_auth(store: &Store, user_id: &[u8], header: Option<&[u8]>, now: u64) -> (r: bool)
    requires
        store.inv(),
    ensures
        r == spec_check_auth(
            store.kv(),
            user_id@,
            match header {
                Option::Some(h) => Option::Some(h@),
                Option::None => Option::None,
            },
            now,
        ),
{
    let h = match header {
        Option::Some(h) => h,
        Option::None => {
            return false;
        },
    };
    let token = match parse_bearer(h) {
        Option::Some(t) => t,
        Option::None => {
            return false;
        },
    };
    let user_prefix = bytes_of("user");
    let user_bytes = match crate::keyed::redis_get_slice(user_id, user_prefix.as_slice(), store, now) {
        Option::Some(b) => b,
        Option::None => {
            return false;
        },
    };
    let user = match User::decode(user_bytes.as_slice()) {
        Option::Some(u) => u,
        Option::None => {
            return false;
        },
    };
    let token_prefix = bytes_of("access_token");
    let uid = match crate::keyed::redis_get_slice(
        token.as_slice(),
        token_prefix.as_slice(),
        store,
        now,
    ) {
        Option::Some(b) => b,
        Option::None => {
            return false;
        },
    };
    crate::bytes::eq_bytes(user.id.as_slice(), uid.as_slice())
}

} // verus!
