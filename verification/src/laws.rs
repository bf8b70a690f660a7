//! The laws the library states about itself, each proved once and for
//! all inputs: content-addressed reads after writes, idempotent upsert,
//! one-time-code expiry, vote memoization and vote eligibility.

use vstd::prelude::*;

verus! {

use vstd::string::StringSliceAdditionalSpecFns;
use crate::store::Store;
use crate::keyed::{Settable, spec_added, spec_domain_of, spec_plural};
use crate::user::{User, lemma_user_rt};
use crate::topic::{Topic, topic_ok, lemma_topic_rt};
use crate::plan::{PlanView, Location, spec_plan_id, plan_ok, parse_plan_bytes, lemma_plan_rt};
use crate::setting::{
    SettingView,
    EntryView,
    VoteView,
    spec_overwrite_vote,
    spec_setting_hash,
    votes_remove,
};
use crate::identity::{
    live_value,
    stored_user,
    verify_ok,
    temp_code_key,
    user_key,
    access_token_key,
    spec_sign_up_kv,
    lemma_user_access_token_keys_differ,
    TEMP_CODE_TTL,
};
use crate::user::{UserView, enc_user};
use crate::auth::{spec_temp_code, spec_access_token, spec_bearer_token, spec_check_auth};
use crate::vote::stored_topic;

/// Content addressing, read back: once a user record is written by
/// `redis_add`, the bytes stored under its id parse to exactly that
/// record, at any time (user records never expire).
pub proof fn lemma_user_put_get(pre: Store, post: Store, u: User, now: u64)
    requires
        spec_added(u, pre, post),
        u@.id.len() <= u64::MAX,
        u@.nickname.len() <= u64::MAX,
    ensures
        stored_user(post.kv(), u@.id, now) == Option::Some(u@),
{
    lemma_user_rt(u@);
}

/// Content addressing, read back, for topics.
pub proof fn lemma_topic_put_get(pre: Store, post: Store, t: Topic, now: u64)
    requires
        spec_added(t, pre, post),
        topic_ok(t@),
    ensures
        stored_topic(post.kv(), t@.id, now) == Option::Some(t@),
{
    lemma_topic_rt(t@);
}

/// Content addressing, read back, for plans.
pub proof fn lemma_plan_put_get(pre: Store, post: Store, p: crate::plan::Plan, now: u64)
    requires
        spec_added(p, pre, post),
        plan_ok(p@),
    ensures
        ({
            let key = spec_domain_of("plan".spec_bytes(), spec_plan_id(p@));
            live_value(post.kv(), key, now) matches Option::Some(b) && parse_plan_bytes(b)
                == Option::Some(p@)
        }),
{
    lemma_plan_rt(p@);
}

/// A plan's id comes from its identifying content alone: the display
/// label of a geometric plan never feeds it.
pub proof fn lemma_plan_id_ignores_label(
    name1: Option<Seq<u8>>,
    name2: Option<Seq<u8>>,
    loc: Location,
)
    ensures
        spec_plan_id(PlanView::LatLng(name1, loc)) == spec_plan_id(PlanView::LatLng(name2, loc)),
{
}

/// Idempotent upsert: writing the same entity twice leaves the store
/// exactly where the first write left it; in particular the membership
/// set gains no second entry.
pub proof fn lemma_put_idempotent<T: Settable>(s0: Store, s1: Store, s2: Store, obj: T)
    requires
        spec_added(obj, s0, s1),
        spec_added(obj, s1, s2),
    ensures
        s2.kv() == s1.kv(),
        s2.sets() == s1.sets(),
{
    let key = spec_domain_of(T::spec_domain_prefix(), obj.spec_id());
    let plural = spec_plural(T::spec_domain_prefix());
    assert(s2.kv() =~= s1.kv());
    assert(s1.set_at(plural).insert(obj.spec_list_item()) =~= s0.set_at(plural).insert(
        obj.spec_list_item(),
    ));
    assert(s2.sets() =~= s1.sets());
}

/// A one-time code written at `t0` is dead once `TEMP_CODE_TTL`
/// seconds have passed: whatever user id is offered with it,
/// verification rejects it.
pub proof fn lemma_temp_code_expires(
    kv0: Map<Seq<u8>, (Seq<u8>, Option<u64>)>,
    salt: Seq<u8>,
    nickname: Seq<u8>,
    email: Seq<u8>,
    t0: u64,
    now: u64,
    uid: Seq<u8>,
)
    requires
        t0 + TEMP_CODE_TTL <= u64::MAX,
        now >= t0 + TEMP_CODE_TTL,
    ensures
        live_value(
            spec_sign_up_kv(kv0, salt, nickname, email, t0),
            temp_code_key(spec_temp_code(salt, nickname, email)),
            now,
        ) is None,
        !verify_ok(
            spec_sign_up_kv(kv0, salt, nickname, email, t0),
            uid,
            spec_temp_code(salt, nickname, email),
            now,
        ),
{
    let code = spec_temp_code(salt, nickname, email);
    crate::identity::lemma_user_temp_code_keys_differ(
        crate::user::spec_user_id(email),
        code,
    );
}

/// Replacing a vote with the same ballot again moves nothing: the
/// voting state is already what the first replacement made it.
pub proof fn lemma_overwrite_vote_idempotent(sv: SettingView, u: Seq<u8>, entries: Seq<EntryView>)
    ensures
        spec_overwrite_vote(spec_overwrite_vote(sv, u, entries), u, entries)
            == spec_overwrite_vote(sv, u, entries),
{
    if sv.voters.contains(u) {
        let v1 = votes_remove(sv.votes, u).push(VoteView { voter: u, entries });
        lemma_votes_remove_idempotent(sv.votes, u);
        assert(v1.drop_last() =~= votes_remove(sv.votes, u));
        assert(votes_remove(v1, u) =~= votes_remove(votes_remove(sv.votes, u), u));
        assert(spec_overwrite_vote(spec_overwrite_vote(sv, u, entries), u, entries)
            =~= spec_overwrite_vote(sv, u, entries));
    }
}

/// Removing a voter's votes a second time finds nothing left.
proof fn lemma_votes_remove_idempotent(vs: Seq<VoteView>, u: Seq<u8>)
    ensures
        votes_remove(votes_remove(vs, u), u) == votes_remove(vs, u),
    decreases vs.len(),
{
    if vs.len() > 0 {
        lemma_votes_remove_idempotent(vs.drop_last(), u);
        if vs.last().voter != u {
            assert(votes_remove(vs, u).drop_last() =~= votes_remove(vs.drop_last(), u));
            assert(votes_remove(votes_remove(vs, u), u) =~= votes_remove(
                votes_remove(vs.drop_last(), u),
                u,
            ).push(vs.last()));
        }
    }
}

/// Hash-gated memoization: after a committed vote, resubmitting the
/// same ballot recomputes the same hash, so `update_vote` reports
/// `NoChange` and the tally engine is not asked a second time.
pub proof fn lemma_vote_memoized(sv: SettingView, u: Seq<u8>, entries: Seq<EntryView>)
    ensures
        spec_setting_hash(
            spec_overwrite_vote(spec_overwrite_vote(sv, u, entries), u, entries),
        ) == spec_setting_hash(spec_overwrite_vote(sv, u, entries)),
{
    lemma_overwrite_vote_idempotent(sv, u, entries);
}

/// Vote eligibility: a ballot from an unregistered voter changes
/// neither the recorded votes nor the content hash.
pub proof fn lemma_ineligible_vote_unchanged(sv: SettingView, u: Seq<u8>, entries: Seq<EntryView>)
    requires
        !sv.voters.contains(u),
    ensures
        spec_overwrite_vote(sv, u, entries) == sv,
        spec_setting_hash(spec_overwrite_vote(sv, u, entries)) == spec_setting_hash(sv),
{
}


/// A token just issued authorizes its user: after a successful code
/// verification has stored the token record and the verified user
/// record, any header whose bearer token is that token passes the
/// authorization check for that user.
pub proof fn lemma_issued_token_authorizes(
    kv0: Map<Seq<u8>, (Seq<u8>, Option<u64>)>,
    salt: Seq<u8>,
    uid: Seq<u8>,
    code: Seq<u8>,
    now: u64,
    h: Seq<u8>,
)
    requires
        verify_ok(kv0, uid, code, now),
        stored_user(kv0, uid, now) matches Option::Some(u) && u.id.len() <= u64::MAX
            && u.nickname.len() <= u64::MAX,
        spec_bearer_token(h) == Option::Some(
            spec_access_token(salt, stored_user(kv0, uid, now)->Some_0.id),
        ),
    ensures
        ({
            let u = stored_user(kv0, uid, now)->Some_0;
            let token = spec_access_token(salt, u.id);
            let kv1 = kv0.insert(access_token_key(token), (u.id, Option::None)).insert(
                user_key(uid),
                (
                    enc_user(UserView { id: u.id, nickname: u.nickname, is_verified: true }),
                    Option::None,
                ),
            );
            spec_check_auth(kv1, uid, Option::Some(h), now)
        }),
{
    let u = stored_user(kv0, uid, now)->Some_0;
    let token = spec_access_token(salt, u.id);
    lemma_user_access_token_keys_differ(uid, token);
    crate::user::lemma_user_rt(UserView { id: u.id, nickname: u.nickname, is_verified: true });
}

} // verus!
