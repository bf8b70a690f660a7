//! The identity state machine end to end: sign-up, the one-time code
//! and its lifetime, token issuance, the authorization check, deletion.

use ornot::auth::{AuthConfig, check_auth, compose_temp_code_mail, generate_access_token,
    generate_temp_code, parse_bearer};
use ornot::identity::{delete, force_add, from_ids, get, sign_up, verify_auth_code,
    verify_temp_code, TEMP_CODE_TTL};
use ornot::keyed::{redis_get_list, redis_get_slice, ServiceError};
use ornot::store::Store;
use ornot::user::{User, PartialUser, user_id_of};

fn config() -> AuthConfig {
    AuthConfig {
        temp_code_salt: b"pepper-one".to_vec(),
        access_token_salt: b"pepper-two".to_vec(),
    }
}

fn alice() -> PartialUser {
    PartialUser { nickname: b"alice".to_vec(), email: b"a@x.com".to_vec() }
}

fn bearer(token: &[u8]) -> Vec<u8> {
    let mut h = b"Bearer ".to_vec();
    h.extend_from_slice(token);
    h
}

fn contains(haystack: &[u8], needle: &[u8]) -> bool {
    !needle.is_empty() && haystack.windows(needle.len()).any(|w| w == needle)
}

#[test]
fn user_ids_are_content_addressed() {
    // the id is settled by the e-mail alone
    let a = user_id_of(b"a@x.com");
    let b = user_id_of(b"a@x.com");
    let c = user_id_of(b"b@x.com");
    assert_eq!(a, b);
    assert_ne!(a, c);
    // the id is a digest rendering, not the (prefixed) address itself
    assert_ne!(a, b"a@x.com".to_vec());
    assert_ne!(a, b"email:a@x.com".to_vec());
    let named = User::new(b"alice".to_vec(), b"a@x.com");
    let renamed = User::new(b"bob".to_vec(), b"a@x.com");
    assert_eq!(named.id, renamed.id);
}

#[test]
fn temp_codes_depend_on_salt_nickname_and_email() {
    let cfg = config();
    let one = generate_temp_code(&cfg, &alice());
    let again = generate_temp_code(&cfg, &alice());
    assert_eq!(one, again);
    let other_nick = generate_temp_code(
        &cfg,
        &PartialUser { nickname: b"bob".to_vec(), email: b"a@x.com".to_vec() },
    );
    assert_ne!(one, other_nick);
    let other_salt = generate_temp_code(
        &AuthConfig { temp_code_salt: b"other".to_vec(), access_token_salt: b"x".to_vec() },
        &alice(),
    );
    assert_ne!(one, other_salt);
}

#[test]
fn composed_mail_embeds_id_and_code() {
    let user = User::new(b"alice".to_vec(), b"a@x.com");
    let mail = compose_temp_code_mail(&user, b"a@x.com", b"THECODE");
    assert_eq!(mail.to_name, b"alice".to_vec());
    assert_eq!(mail.to_address, b"a@x.com".to_vec());
    assert_eq!(mail.subject, b"your temp code".to_vec());
    assert!(contains(&mail.body, b"https://ornot.vote/auth/?i="));
    assert!(contains(&mail.body, &user.id));
    assert!(contains(&mail.body, b"&c=THECODE"));
}

#[test]
fn sign_up_stores_pending_user_code_and_mail() {
    let mut store = Store::new();
    let cfg = config();
    let t0: u64 = 1_000;
    let (uid, mail) = sign_up(&mut store, &cfg, alice(), t0);
    assert_eq!(uid, user_id_of(b"a@x.com"));

    // the mail carries the very code that was stored
    let code = generate_temp_code(&cfg, &alice());
    assert!(contains(&mail.body, &code));

    // the user record is stored, pending verification
    let raw = redis_get_slice(&uid, b"user", &store, t0).expect("user stored");
    let user = User::decode(&raw).expect("record parses");
    assert_eq!(user.nickname, b"alice".to_vec());
    assert!(!user.is_verified);

    // the code record maps to the user id, with its lifetime
    let stored_uid = redis_get_slice(&code, b"temp_code", &store, t0).expect("code stored");
    assert_eq!(stored_uid, uid);
    assert!(redis_get_slice(&code, b"temp_code", &store, t0 + TEMP_CODE_TTL - 1).is_some());
    assert!(redis_get_slice(&code, b"temp_code", &store, t0 + TEMP_CODE_TTL).is_none());
}

#[test]
fn verify_with_correct_code_issues_token_and_marks_verified() {
    let mut store = Store::new();
    let cfg = config();
    let t0: u64 = 1_000;
    let (uid, _mail) = sign_up(&mut store, &cfg, alice(), t0);
    let code = generate_temp_code(&cfg, &alice());

    let token = verify_temp_code(&mut store, &cfg, &uid, &code, t0 + 60).expect("code accepted");
    let expected = {
        let user = User::decode(&redis_get_slice(&uid, b"user", &store, t0 + 60).unwrap()).unwrap();
        assert!(user.is_verified);
        generate_access_token(&cfg, &user)
    };
    assert_eq!(token, expected);

    // the token record maps back to the user id
    let mapped = redis_get_slice(&token, b"access_token", &store, t0 + 60).expect("token stored");
    assert_eq!(mapped, uid);
}

#[test]
fn verify_with_wrong_code_is_unauthorized_and_changes_nothing() {
    let mut store = Store::new();
    let cfg = config();
    let t0: u64 = 1_000;
    let (uid, _mail) = sign_up(&mut store, &cfg, alice(), t0);

    let r = verify_temp_code(&mut store, &cfg, &uid, b"not-the-code", t0 + 60);
    assert_eq!(r, Err(ServiceError::Unauthorized));

    let user = User::decode(&redis_get_slice(&uid, b"user", &store, t0 + 60).unwrap()).unwrap();
    assert!(!user.is_verified);
}

#[test]
fn expired_code_is_rejected_even_when_it_matches() {
    let mut store = Store::new();
    let cfg = config();
    let t0: u64 = 1_000;
    let (uid, _mail) = sign_up(&mut store, &cfg, alice(), t0);
    let code = generate_temp_code(&cfg, &alice());

    // just within the lifetime: accepted
    let mut fresh = Store::new();
    let (fresh_uid, _) = sign_up(&mut fresh, &cfg, alice(), t0);
    assert!(verify_temp_code(&mut fresh, &cfg, &fresh_uid, &code, t0 + TEMP_CODE_TTL - 1).is_ok());

    // older than the lifetime: rejected although the code string matches
    let r = verify_temp_code(&mut store, &cfg, &uid, &code, t0 + TEMP_CODE_TTL + 1);
    assert_eq!(r, Err(ServiceError::Unauthorized));
    // and exactly at the boundary it is already gone
    let r = verify_temp_code(&mut store, &cfg, &uid, &code, t0 + TEMP_CODE_TTL);
    assert_eq!(r, Err(ServiceError::Unauthorized));
}

#[test]
fn reregistering_an_email_invalidates_the_prior_code() {
    let mut store = Store::new();
    let cfg = config();
    let t0: u64 = 1_000;
    let (uid, _mail) = sign_up(&mut store, &cfg, alice(), t0);
    let old_code = generate_temp_code(&cfg, &alice());

    // same e-mail, new nickname: effectively a rename
    let bob = PartialUser { nickname: b"bob".to_vec(), email: b"a@x.com".to_vec() };
    let (uid2, _mail2) = sign_up(&mut store, &cfg, bob, t0 + 10);
    assert_eq!(uid, uid2);

    let r = verify_temp_code(&mut store, &cfg, &uid, &old_code, t0 + 20);
    assert_eq!(r, Err(ServiceError::Unauthorized));

    let new_code = generate_temp_code(
        &cfg,
        &PartialUser { nickname: b"bob".to_vec(), email: b"a@x.com".to_vec() },
    );
    let token = verify_temp_code(&mut store, &cfg, &uid, &new_code, t0 + 20);
    assert!(token.is_ok());
    let user = User::decode(&redis_get_slice(&uid, b"user", &store, t0 + 20).unwrap()).unwrap();
    assert_eq!(user.nickname, b"bob".to_vec());
}

#[test]
fn bearer_extraction() {
    assert_eq!(parse_bearer(b"Bearer tok123"), Some(b"tok123".to_vec()));
    assert_eq!(parse_bearer(b"  Bearer   tok123  "), Some(b"tok123".to_vec()));
    assert_eq!(parse_bearer(b"Bearer"), None);
    assert_eq!(parse_bearer(b""), None);
    assert_eq!(parse_bearer(b"   "), None);
}

#[test]
fn check_auth_is_exact() {
    let mut store = Store::new();
    let cfg = config();
    let t0: u64 = 1_000;
    let (uid, _mail) = sign_up(&mut store, &cfg, alice(), t0);
    let code = generate_temp_code(&cfg, &alice());
    let token = verify_temp_code(&mut store, &cfg, &uid, &code, t0 + 1).expect("verified");

    let header = bearer(&token);
    assert!(check_auth(&store, &uid, Some(&header), t0 + 2));
    assert!(verify_auth_code(&store, &uid, Some(&header), t0 + 2).is_ok());

    // no header, malformed header, wrong token, wrong user: all closed
    assert!(!check_auth(&store, &uid, None, t0 + 2));
    assert!(!check_auth(&store, &uid, Some(b"Bearer"), t0 + 2));
    let bad = bearer(b"forged-token");
    assert!(!check_auth(&store, &uid, Some(&bad), t0 + 2));
    let other = user_id_of(b"b@x.com");
    assert!(!check_auth(&store, &other, Some(&header), t0 + 2));
}

#[test]
fn get_requires_auth_and_returns_the_record() {
    let mut store = Store::new();
    let cfg = config();
    let (uid, _mail) = sign_up(&mut store, &cfg, alice(), 0);
    let code = generate_temp_code(&cfg, &alice());
    let token = verify_temp_code(&mut store, &cfg, &uid, &code, 1).expect("verified");
    let header = bearer(&token);

    let raw = get(&store, &uid, Some(&header), 2).expect("authorized read");
    let user = User::decode(&raw).expect("record parses");
    assert!(user.is_verified);

    assert_eq!(get(&store, &uid, None, 2), Err(ServiceError::Unauthorized));
}

#[test]
fn delete_requires_auth_and_removes_the_record() {
    let mut store = Store::new();
    let cfg = config();
    let (uid, _mail) = sign_up(&mut store, &cfg, alice(), 0);
    let code = generate_temp_code(&cfg, &alice());
    let token = verify_temp_code(&mut store, &cfg, &uid, &code, 1).expect("verified");
    let header = bearer(&token);

    assert_eq!(delete(&mut store, &uid, None, 2), Err(ServiceError::Unauthorized));
    assert!(redis_get_slice(&uid, b"user", &store, 2).is_some());

    assert!(delete(&mut store, &uid, Some(&header), 2).is_ok());
    assert!(redis_get_slice(&uid, b"user", &store, 2).is_none());
    assert!(redis_get_list(b"user", &store).is_empty());
}

#[test]
fn force_add_creates_a_verified_user_with_credentials() {
    let mut store = Store::new();
    let cfg = config();
    let (user, token) = force_add(&mut store, &cfg, alice());
    assert!(user.is_verified);
    assert_eq!(user.id, user_id_of(b"a@x.com"));
    let header = bearer(&token);
    assert!(check_auth(&store, &user.id, Some(&header), 0));
}

#[test]
fn from_ids_resolves_nicknames_or_fails_whole() {
    let mut store = Store::new();
    let cfg = config();
    let (uid_a, _) = sign_up(&mut store, &cfg, alice(), 0);
    let (uid_b, _) = sign_up(
        &mut store,
        &cfg,
        PartialUser { nickname: b"bob".to_vec(), email: b"b@x.com".to_vec() },
        0,
    );

    let pairs = from_ids(&store, &vec![uid_a.clone(), uid_b.clone()], 1).expect("all resolve");
    assert_eq!(pairs.len(), 2);
    assert_eq!(pairs[0], (uid_a.clone(), b"alice".to_vec()));
    assert_eq!(pairs[1], (uid_b.clone(), b"bob".to_vec()));

    let missing = from_ids(&store, &vec![uid_a, b"absent".to_vec()], 1);
    assert_eq!(missing, Err(ServiceError::NotFound));
}

#[test]
fn upsert_is_idempotent_for_users() {
    let mut store = Store::new();
    let cfg = config();
    let (_, _) = sign_up(&mut store, &cfg, alice(), 0);
    let members_once = redis_get_list(b"user", &store);
    let (_, _) = sign_up(&mut store, &cfg, alice(), 0);
    let members_twice = redis_get_list(b"user", &store);
    assert_eq!(members_once.len(), 1);
    assert_eq!(members_twice.len(), 1);
    assert_eq!(members_once, members_twice);
}
