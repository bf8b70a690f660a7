//! The identity service: sign-up, one-time-code verification, token
//! issuance, the per-request check, and account deletion, verified
//! against the store model.
//!
//! Per user the states are: unregistered, pending verification,
//! verified. Sign-up is an upsert: re-registering an e-mail replaces
//! the record (a nickname change) and invalidates the prior outstanding
//! one-time code.

use vstd::prelude::*;

verus! {

use vstd::string::StringSliceAdditionalSpecFns;
use crate::auth::{
    AuthConfig,
    spec_temp_code,
    spec_access_token,
    spec_mail_body,
    spec_check_auth,
    generate_temp_code,
    generate_access_token,
    compose_temp_code_mail,
    check_auth,
};
use crate::user::{User, UserView, PartialUser, enc_user, parse_user_bytes, spec_user_id, user_id_of};
use crate::keyed::{
    ServiceError,
    spec_domain_of,
    spec_plural,
    redis_add,
    redis_delete,
    redis_get_slice,
    domain_of,
};
use crate::store::{Store, live};
use crate::mail::Email;
use crate::bytes::{bytes_of, eq_bytes};
use crate::codec::enc_pair;

/// Seconds a one-time code stays valid.
pub const TEMP_CODE_TTL: u64 = 1800;

pub open spec fn user_key(uid: Seq<u8>) -> Seq<u8> {
    spec_domain_of("user".spec_bytes(), uid)
}

pub open spec fn temp_code_key(code: Seq<u8>) -> Seq<u8> {
    spec_domain_of("temp_code".spec_bytes(), code)
}

pub open spec fn access_token_key(token: Seq<u8>) -> Seq<u8> {
    spec_domain_of("access_token".spec_bytes(), token)
}

/// The stored bytes under `key`, if the record is there and live.
pub open spec fn live_value(
    kv: Map<Seq<u8>, (Seq<u8>, Option<u64>)>,
    key: Seq<u8>,
    now: u64,
) -> Option<Seq<u8>> {
    if kv.contains_key(key) && live(kv[key], now) {
        Option::Some(kv[key].0)
    } else {
        Option::None
    }
}

/// The stored user record under `uid`, if present, live and readable.
pub open spec fn stored_user(
    kv: Map<Seq<u8>, (Seq<u8>, Option<u64>)>,
    uid: Seq<u8>,
    now: u64,
) -> Option<UserView> {
    match live_value(kv, user_key(uid), now) {
        Option::Some(b) => parse_user_bytes(b),
        Option::None => Option::None,
    }
}

/// Keys of different collections never collide: a `user:` key and a
/// `temp_code:` key differ in their first byte.
pub proof fn lemma_user_temp_code_keys_differ(a: Seq<u8>, b: Seq<u8>)
    ensures
        user_key(a) != temp_code_key(b),
{
    reveal_strlit("user");
    reveal_strlit("temp_code");
    assert(vstd::utf8::is_ascii_chars("user"@));
    assert(vstd::utf8::is_ascii_chars("temp_code"@));
    vstd::utf8::is_ascii_chars_encode_utf8("user"@);
    vstd::utf8::is_ascii_chars_encode_utf8("temp_code"@);
    assert("user".spec_bytes()[0] == 117);
    assert("temp_code".spec_bytes()[0] == 116);
    assert(user_key(a)[0] == 117);
    assert(temp_code_key(b)[0] == 116);
}

/// Keys of different collections never collide: a `user:` key and an
/// `access_token:` key differ in their first byte.
pub proof fn lemma_user_access_token_keys_differ(a: Seq<u8>, b: Seq<u8>)
    ensures
        user_key(a) != access_token_key(b),
{
    reveal_strlit("user");
    reveal_strlit("access_token");
    assert(vstd::utf8::is_ascii_chars("user"@));
    assert(vstd::utf8::is_ascii_chars("access_token"@));
    vstd::utf8::is_ascii_chars_encode_utf8("user"@);
    vstd::utf8::is_ascii_chars_encode_utf8("access_token"@);
    assert("user".spec_bytes()[0] == 117);
    assert("access_token".spec_bytes()[0] == 97);
    assert(user_key(a)[0] == 117);
    assert(access_token_key(b)[0] == 97);
}

/// What sign-up does to the records: the prior outstanding one-time
/// code (derived from the stored nickname) is dropped if the e-mail was
/// already registered with a readable record, the fresh code is stored
/// with its lifetime, and the user record is upserted, not verified.
pub open spec fn spec_sign_up_kv(
    kv: Map<Seq<u8>, (Seq<u8>, Option<u64>)>,
    temp_code_salt: Seq<u8>,
    nickname: Seq<u8>,
    email: Seq<u8>,
    now: u64,
) -> Map<Seq<u8>, (Seq<u8>, Option<u64>)> {
    let uid = spec_user_id(email);
    let code = spec_temp_code(temp_code_salt, nickname, email);
    let kv1 = match stored_user(kv, uid, now) {
        Option::Some(prev) => kv.remove(
            temp_code_key(spec_temp_code(temp_code_salt, prev.nickname, email)),
        ),
        Option::None => kv,
    };
    let kv2 = kv1.insert(temp_code_key(code), (uid, Option::Some((now + TEMP_CODE_TTL) as u64)));
    kv2.insert(user_key(uid), (enc_user(UserView { id: uid, nickname, is_verified: false }), Option::None))
}

/// Registers (or re-registers) an e-mail address: stores the pending
/// user record and a one-time code living [`TEMP_CODE_TTL`] seconds,
/// and hands back the composed verification mail for the runtime to
/// dispatch. The call succeeds once the store writes land, whatever
/// becomes of the mail.
pub fn sign_up(store: &mut Store, config: &AuthConfig, p_user: PartialUser, now: u64) -> (r: (
    Vec<u8>,
    Email,
))
    requires
        old(store).inv(),
        now + TEMP_CODE_TTL <= u64::MAX,
    ensures
        final(store).inv(),
        r.0@ == spec_user_id(p_user.email@),
        r.1.to_name@ == p_user.nickname@,
        r.1.to_address@ == p_user.email@,
        r.1.body@ == spec_mail_body(
            p_user.nickname@,
            spec_user_id(p_user.email@),
            spec_temp_code(config.temp_code_salt@, p_user.nickname@, p_user.email@),
        ),
        final(store).kv() == spec_sign_up_kv(
            old(store).kv(),
            config.temp_code_salt@,
            p_user.nickname@,
            p_user.email@,
            now,
        ),
        final(store).sets() == old(store).sets().insert(
            spec_plural("user".spec_bytes()),
            old(store).set_at(spec_plural("user".spec_bytes())).insert(
                enc_pair(spec_user_id(p_user.email@), p_user.nickname@),
            ),
        ),
{
    let temp_code = generate_temp_code(config, &p_user);
    let user = User::new(
        vstd::slice::slice_to_vec(p_user.nickname.as_slice()),
        p_user.email.as_slice(),
    );

    // an e-mail already registered keeps its id: drop that user's
    // outstanding code, derived from the stored nickname
    let user_prefix = bytes_of("user");
    match redis_get_slice(user.id.as_slice(), user_prefix.as_slice(), store, now) {
        Option::Some(prev_bytes) => {
            match User::decode(prev_bytes.as_slice()) {
                Option::Some(prev) => {
                    let prev_partial = PartialUser {
                        nickname: prev.nickname,
                        email: vstd::slice::slice_to_vec(p_user.email.as_slice()),
                    };
                    let prev_code = generate_temp_code(config, &prev_partial);
                    let tc_prefix = bytes_of("temp_code");
                    let prev_key = domain_of(tc_prefix.as_slice(), prev_code.as_slice());
                    let _ = store.del_value(prev_key.as_slice());
                },
                Option::None => {
                    // an unreadable prior record leaves no code to drop;
                    // the upsert below still replaces it
                },
            }
        },
        Option::None => {},
    }

    // the fresh code, living TEMP_CODE_TTL seconds
    let tc_prefix = bytes_of("temp_code");
    let code_key = domain_of(tc_prefix.as_slice(), temp_code.as_slice());
    store.set_value_expiring(
        code_key.as_slice(),
        vstd::slice::slice_to_vec(user.id.as_slice()),
        now + TEMP_CODE_TTL,
    );

    // the user record, pending verification
    let _ = redis_add(&user, store);

    let email_msg = compose_temp_code_mail(&user, p_user.email.as_slice(), temp_code.as_slice());
    let uid = user.id;
    proof {
        assert(final(store).kv() =~= spec_sign_up_kv(
            old(store).kv(),
            config.temp_code_salt@,
            p_user.nickname@,
            p_user.email@,
            now,
        ));
    }
    (uid, email_msg)
}


/// Whether code verification succeeds: both records present and live,
/// the user record readable, and the code's stored user id equal to the
/// stored user record's own id.
pub open spec fn verify_ok(
    kv: Map<Seq<u8>, (Seq<u8>, Option<u64>)>,
    uid: Seq<u8>,
    code: Seq<u8>,
    now: u64,
) -> bool {
    &&& live_value(kv, temp_code_key(code), now) is Some
    &&& stored_user(kv, uid, now) matches Option::Some(u) && live_value(
        kv,
        temp_code_key(code),
        now,
    ) == Option::Some(u.id)
}

/// Consumes a one-time code: on success the user record is marked
/// verified and a deterministic access token is stored and returned.
/// The code record itself is left to lapse, not deleted.
///
/// Fails closed with `Unauthorized` when the code is absent or expired,
/// the user record is absent or expired, or the pair does not match;
/// an unreadable user record is reported as `CorruptData`. A failed
/// call leaves the store unchanged.
pub fn verify_temp_code(
    store: &mut Store,
    config: &AuthConfig,
    user_id: &[u8],
    code: &[u8],
    now: u64,
) -> (r: Result<Vec<u8>, ServiceError>)
    requires
        old(store).inv(),
    ensures
        final(store).inv(),
        match r {
            Result::Ok(token) => {
                let u = stored_user(old(store).kv(), user_id@, now)->Some_0;
                &&& verify_ok(old(store).kv(), user_id@, code@, now)
                &&& token@ == spec_access_token(config.access_token_salt@, u.id)
                &&& final(store).kv() == old(store).kv().insert(
                    access_token_key(token@),
                    (u.id, Option::None),
                ).insert(
                    user_key(user_id@),
                    (
                        enc_user(UserView { id: u.id, nickname: u.nickname, is_verified: true }),
                        Option::None,
                    ),
                )
                &&& final(store).sets() == old(store).sets()
            },
            Result::Err(e) => {
                &&& *final(store) == *old(store)
                &&& !verify_ok(old(store).kv(), user_id@, code@, now)
                &&& (e == ServiceError::CorruptData <==> (live_value(
                    old(store).kv(),
                    temp_code_key(code@),
                    now,
                ) is Some && live_value(old(store).kv(), user_key(user_id@), now) is Some
                    && parse_user_bytes(
                    live_value(old(store).kv(), user_key(user_id@), now)->Some_0,
                ) is None))
                &&& (e == ServiceError::CorruptData || e == ServiceError::Unauthorized)
            },
        },
{
    let tc_prefix = bytes_of("temp_code");
    let uid_from_temp = match redis_get_slice(code, tc_prefix.as_slice(), store, now) {
        Option::Some(b) => b,
        Option::None => {
            return Result::Err(ServiceError::Unauthorized);
        },
    };
    let user_prefix = bytes_of("user");
    let user_bytes = match redis_get_slice(user_id, user_prefix.as_slice(), store, now) {
        Option::Some(b) => b,
        Option::None => {
            return Result::Err(ServiceError::Unauthorized);
        },
    };
    let stored = match User::decode(user_bytes.as_slice()) {
        Option::Some(u) => u,
        Option::None => {
            return Result::Err(ServiceError::CorruptData);
        },
    };
    if !eq_bytes(stored.id.as_slice(), uid_from_temp.as_slice()) {
        return Result::Err(ServiceError::Unauthorized);
    }
    let verified = User {
        id: vstd::slice::slice_to_vec(stored.id.as_slice()),
        nickname: stored.nickname,
        is_verified: true,
    };
    let token = generate_access_token(config, &verified);
    let at_prefix = bytes_of("access_token");
    let token_key = domain_of(at_prefix.as_slice(), token.as_slice());
    store.set_value(token_key.as_slice(), vstd::slice::slice_to_vec(verified.id.as_slice()));
    let ukey = domain_of(user_prefix.as_slice(), user_id);
    let encoded = verified.encode();
    store.set_value(ukey.as_slice(), encoded);
    Result::Ok(token)
}

/// The check endpoint: passes iff [`check_auth`] does.
pub fn verify_auth_code(store: &Store, user_id: &[u8], header: Option<&[u8]>, now: u64) -> (r:
    Result<(), ServiceError>)
    requires
        store.inv(),
    ensures
        r is Ok <==> spec_check_auth(
            store.kv(),
            user_id@,
            match header {
                Option::Some(h) => Option::Some(h@),
                Option::None => Option::None,
            },
            now,
        ),
        r is Err ==> r->Err_0 == ServiceError::Unauthorized,
{
    if check_auth(store, user_id, header, now) {
        Result::Ok(())
    } else {
        Result::Err(ServiceError::Unauthorized)
    }
}

/// Fetches a user's stored record, gated by the authorization check.
pub fn get(store: &Store, user_id: &[u8], header: Option<&[u8]>, now: u64) -> (r: Result<
    Vec<u8>,
    ServiceError,
>)
    requires
        store.inv(),
    ensures
        ({
            let auth = spec_check_auth(
                store.kv(),
                user_id@,
                match header {
                    Option::Some(h) => Option::Some(h@),
                    Option::None => Option::None,
                },
                now,
            );
            match r {
                Result::Ok(b) => auth && live_value(store.kv(), user_key(user_id@), now)
                    == Option::Some(b@),
                Result::Err(e) => !auth && e == ServiceError::Unauthorized,
            }
        }),
{
    if !check_auth(store, user_id, header, now) {
        return Result::Err(ServiceError::Unauthorized);
    }
    let user_prefix = bytes_of("user");
    match redis_get_slice(user_id, user_prefix.as_slice(), store, now) {
        Option::Some(b) => Result::Ok(b),
        Option::None => Result::Err(ServiceError::Unauthorized),
    }
}

/// Deletes a user's record and its membership entry, gated by the
/// authorization check. The token and code records are left behind:
/// deletion revokes the account, not the credentials.
pub fn delete(store: &mut Store, user_id: &[u8], header: Option<&[u8]>, now: u64) -> (r: Result<
    (),
    ServiceError,
>)
    requires
        old(store).inv(),
    ensures
        final(store).inv(),
        ({
            let auth = spec_check_auth(
                old(store).kv(),
                user_id@,
                match header {
                    Option::Some(h) => Option::Some(h@),
                    Option::None => Option::None,
                },
                now,
            );
            match r {
                Result::Ok(u) => {
                    let stored = stored_user(old(store).kv(), user_id@, now)->Some_0;
                    &&& auth
                    &&& final(store).kv() == old(store).kv().remove(user_key(stored.id))
                    &&& final(store).sets() == if old(store).sets().contains_key(
                        spec_plural("user".spec_bytes()),
                    ) {
                        old(store).sets().insert(
                            spec_plural("user".spec_bytes()),
                            old(store).sets()[spec_plural("user".spec_bytes())].remove(
                                enc_pair(stored.id, stored.nickname),
                            ),
                        )
                    } else {
                        old(store).sets()
                    }
                },
                Result::Err(e) => {
                    &&& !auth
                    &&& e == ServiceError::Unauthorized
                    &&& *final(store) == *old(store)
                },
            }
        }),
{
    if !check_auth(store, user_id, header, now) {
        return Result::Err(ServiceError::Unauthorized);
    }
    let user_prefix = bytes_of("user");
    let user_bytes = match redis_get_slice(user_id, user_prefix.as_slice(), store, now) {
        Option::Some(b) => b,
        Option::None => {
            return Result::Err(ServiceError::Unauthorized);
        },
    };
    let user = match User::decode(user_bytes.as_slice()) {
        Option::Some(u) => u,
        Option::None => {
            return Result::Err(ServiceError::Unauthorized);
        },
    };
    let _ = redis_delete(&user, store);
    Result::Ok(())
}

/// Registers a user as already verified, storing record, token and
/// code in one stroke; a maintenance door, not part of the ordinary
/// sign-up flow.
pub fn force_add(store: &mut Store, config: &AuthConfig, p_user: PartialUser) -> (r: (
    User,
    Vec<u8>,
))
    requires
        old(store).inv(),
    ensures
        final(store).inv(),
        r.0@ == (UserView {
            id: spec_user_id(p_user.email@),
            nickname: p_user.nickname@,
            is_verified: true,
        }),
        r.1@ == spec_access_token(config.access_token_salt@, spec_user_id(p_user.email@)),
        ({
            let uid = spec_user_id(p_user.email@);
            let code = spec_temp_code(config.temp_code_salt@, p_user.nickname@, p_user.email@);
            let token = spec_access_token(config.access_token_salt@, uid);
            &&& final(store).kv() == old(store).kv().insert(
                user_key(uid),
                (
                    enc_user(
                        UserView { id: uid, nickname: p_user.nickname@, is_verified: true },
                    ),
                    Option::None,
                ),
            ).insert(temp_code_key(code), (uid, Option::None)).insert(
                access_token_key(token),
                (uid, Option::None),
            )
            &&& final(store).sets() == old(store).sets().insert(
                spec_plural("user".spec_bytes()),
                old(store).set_at(spec_plural("user".spec_bytes())).insert(
                    enc_pair(uid, p_user.nickname@),
                ),
            )
        }),
{
    let temp_code = generate_temp_code(config, &p_user);
    let mut user = User::new(
        vstd::slice::slice_to_vec(p_user.nickname.as_slice()),
        p_user.email.as_slice(),
    );
    user.is_verified = true;
    let token = generate_access_token(config, &user);
    let _ = redis_add(&user, store);
    let tc_prefix = bytes_of("temp_code");
    let code_key = domain_of(tc_prefix.as_slice(), temp_code.as_slice());
    store.set_value(code_key.as_slice(), vstd::slice::slice_to_vec(user.id.as_slice()));
    let at_prefix = bytes_of("access_token");
    let token_key = domain_of(at_prefix.as_slice(), token.as_slice());
    store.set_value(token_key.as_slice(), vstd::slice::slice_to_vec(user.id.as_slice()));
    (user, token)
}

/// Resolves a row of user ids to `(id, nickname)` pairs; fails as a
/// whole if any record is absent, expired or unreadable.
pub fn from_ids(store: &Store, user_ids: &Vec<Vec<u8>>, now: u64) -> (r: Result<
    Vec<(Vec<u8>, Vec<u8>)>,
    ServiceError,
>)
    requires
        store.inv(),
    ensures
        match r {
            Result::Ok(v) => {
                &&& v@.len() == user_ids@.len()
                &&& forall|i: int|
                    0 <= i < user_ids@.len() ==> stored_user(store.kv(), user_ids@[i]@, now)
                        is Some
                &&& forall|i: int|
                    0 <= i < user_ids@.len() ==> (#[trigger] v@[i]).0@ == stored_user(
                        store.kv(),
                        user_ids@[i]@,
                        now,
                    )->Some_0.id && v@[i].1@ == stored_user(
                        store.kv(),
                        user_ids@[i]@,
                        now,
                    )->Some_0.nickname
            },
            Result::Err(e) => {
                &&& exists|i: int|
                    0 <= i < user_ids@.len() && stored_user(store.kv(), #[trigger] user_ids@[i]@, now)
                        is None
                &&& (e == ServiceError::NotFound || e == ServiceError::CorruptData)
            },
        },
{
    let n = user_ids.len();
    let mut out: Vec<(Vec<u8>, Vec<u8>)> = Vec::new();
    let user_prefix = bytes_of("user");
    let mut i: usize = 0;
    while i < n
        invariant
            store.inv(),
            n == user_ids@.len(),
            i <= n,
            user_prefix@ == "user".spec_bytes(),
            out@.len() == i,
            forall|j: int|
                0 <= j < i ==> stored_user(store.kv(), user_ids@[j]@, now) is Some,
            forall|j: int|
                0 <= j < i ==> (#[trigger] out@[j]).0@ == stored_user(
                    store.kv(),
                    user_ids@[j]@,
                    now,
                )->Some_0.id && out@[j].1@ == stored_user(
                    store.kv(),
                    user_ids@[j]@,
                    now,
                )->Some_0.nickname,
        decreases n - i,
    {
        let user_bytes = match redis_get_slice(
            user_ids[i].as_slice(),
            user_prefix.as_slice(),
            store,
            now,
        ) {
            Option::Some(b) => b,
            Option::None => {
                return Result::Err(ServiceError::NotFound);
            },
        };
        let user = match User::decode(user_bytes.as_slice()) {
            Option::Some(u) => u,
            Option::None => {
                return Result::Err(ServiceError::CorruptData);
            },
        };
        out.push((user.id, user.nickname));
        i = i + 1;
    }
    Result::Ok(out)
}


/// Resolves a row of user ids to their full records; fails as a whole
/// if any record is absent, expired or unreadable.
pub fn get_users(store: &Store, user_ids: &Vec<Vec<u8>>, now: u64) -> (r: Result<
    Vec<User>,
    ServiceError,
>)
    requires
        store.inv(),
    ensures
        match r {
            Result::Ok(v) => {
                &&& v@.len() == user_ids@.len()
                &&& forall|i: int|
                    0 <= i < user_ids@.len() ==> stored_user(store.kv(), user_ids@[i]@, now)
                        == Option::Some((#[trigger] v@[i])@)
            },
            Result::Err(e) => {
                &&& exists|i: int|
                    0 <= i < user_ids@.len() && stored_user(
                        store.kv(),
                        (#[trigger] user_ids@[i])@,
                        now,
                    ) is None
                &&& (e == ServiceError::NotFound || e == ServiceError::CorruptData)
            },
        },
{
    let n = user_ids.len();
    let mut out: Vec<User> = Vec::new();
    let user_prefix = bytes_of("user");
    let mut i: usize = 0;
    while i < n
        invariant
            store.inv(),
            n == user_ids@.len(),
            i <= n,
            user_prefix@ == "user".spec_bytes(),
            out@.len() == i,
            forall|j: int|
                0 <= j < i ==> stored_user(store.kv(), user_ids@[j]@, now) == Option::Some(
                    (#[trigger] out@[j])@,
                ),
        decreases n - i,
    {
        let user_bytes = match redis_get_slice(
            user_ids[i].as_slice(),
            user_prefix.as_slice(),
            store,
            now,
        ) {
            Option::Some(b) => b,
            Option::None => {
                return Result::Err(ServiceError::NotFound);
            },
        };
        match User::decode(user_bytes.as_slice()) {
            Option::Some(u) => {
                out.push(u);
            },
            Option::None => {
                return Result::Err(ServiceError::CorruptData);
            },
        }
        i = i + 1;
    }
    Result::Ok(out)
}

} // verus!
