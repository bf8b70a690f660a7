//! The vote coordinator: topic persistence, membership and plan edits,
//! and the hash-gated vote application.
//!
//! Applying a vote recomputes the content hash of the voting state. An
//! unchanged hash means an unchanged state: the coordinator then
//! neither persists nor asks for a tally. A changed hash rolls the
//! hash fields forward and hands the updated topic out for the (outside)
//! tally engine; committing the result persists the topic and caches
//! the voting state under `setting:{hash}`.
//!
//! Between [`update_vote`] and [`commit_vote_result`] nothing guards
//! the record: two interleaved cycles race, the later commit wins, and
//! the earlier ballot is silently discarded. That gap is inherited
//! deliberately; closing it would take an optimistic-concurrency token
//! on the record.

use vstd::prelude::*;

verus! {

use vstd::string::StringSliceAdditionalSpecFns;
use crate::topic::{
    Topic,
    TopicView,
    PartialTopic,
    enc_topic,
    parse_topic_bytes,
    spec_new_topic,
};
use crate::setting::{
    SettingView,
    VoteEntry,
    enc_setting,
    spec_setting_hash,
    spec_overwrite_vote,
    entry_views,
    row_remove,
};
use crate::plan::{Plan, enc_plan, spec_plan_id, spec_plan_label};
use crate::keyed::{
    Settable,
    kv_after_adds,
    sets_after_adds,
    ServiceError,
    spec_domain_of,
    spec_plural,
    redis_add,
    redis_delete,
    redis_get_slice,
    redis_get_list,
    domain_of,
};
use crate::identity::live_value;
use crate::store::{Store, live, mem_set, distinct_mems};
use crate::bytes::{bytes_of, eq_bytes};
use crate::codec::{enc_pair, parse_pair_bytes, parse_pair};

pub open spec fn topic_key(tid: Seq<u8>) -> Seq<u8> {
    spec_domain_of("topic".spec_bytes(), tid)
}

pub open spec fn plan_key(pid: Seq<u8>) -> Seq<u8> {
    spec_domain_of("plan".spec_bytes(), pid)
}

pub open spec fn setting_key(hash: Seq<u8>) -> Seq<u8> {
    spec_domain_of("setting".spec_bytes(), hash)
}

/// The stored topic record under `tid`, if present, live and readable.
pub open spec fn stored_topic(
    kv: Map<Seq<u8>, (Seq<u8>, Option<u64>)>,
    tid: Seq<u8>,
    now: u64,
) -> Option<TopicView> {
    match live_value(kv, topic_key(tid), now) {
        Option::Some(b) => parse_topic_bytes(b),
        Option::None => Option::None,
    }
}

/// Why a topic could not be fetched: absent (or expired) is
/// `NotFound`, unreadable is `CorruptData`.
pub open spec fn fetch_err(
    kv: Map<Seq<u8>, (Seq<u8>, Option<u64>)>,
    tid: Seq<u8>,
    now: u64,
    e: ServiceError,
) -> bool {
    &&& stored_topic(kv, tid, now) is None
    &&& (e == ServiceError::NotFound <==> live_value(kv, topic_key(tid), now) is None)
    &&& (e == ServiceError::NotFound || e == ServiceError::CorruptData)
}

/// Fetches and parses the topic under `topic_id`.
pub fn get(store: &Store, topic_id: &[u8], now: u64) -> (r: Result<Topic, ServiceError>)
    requires
        store.inv(),
    ensures
        match r {
            Result::Ok(t) => stored_topic(store.kv(), topic_id@, now) == Option::Some(t@),
            Result::Err(e) => fetch_err(store.kv(), topic_id@, now, e),
        },
{
    let prefix = bytes_of("topic");
    let data = match redis_get_slice(topic_id, prefix.as_slice(), store, now) {
        Option::Some(b) => b,
        Option::None => {
            return Result::Err(ServiceError::NotFound);
        },
    };
    match Topic::decode(data.as_slice()) {
        Option::Some(t) => Result::Ok(t),
        Option::None => Result::Err(ServiceError::CorruptData),
    }
}

/// Creates (or, content-addressed, re-creates) a topic and returns its
/// id.
pub fn put(store: &mut Store, topic: PartialTopic) -> (r: Vec<u8>)
    requires
        old(store).inv(),
    ensures
        final(store).inv(),
        ({
            let tv = spec_new_topic(topic.title@, topic.description@);
            &&& r@ == tv.id
            &&& final(store).kv() == old(store).kv().insert(
                topic_key(tv.id),
                (enc_topic(tv), Option::None),
            )
            &&& final(store).sets() == old(store).sets().insert(
                spec_plural("topic".spec_bytes()),
                old(store).set_at(spec_plural("topic".spec_bytes())).insert(
                    enc_pair(tv.id, tv.title),
                ),
            )
        }),
{
    let t = Topic::from_partial(topic);
    let id = t.id();
    let _ = redis_add(&t, store);
    id
}

/// Deletes the topic under `topic_id` and its membership entry.
pub fn delete(store: &mut Store, topic_id: &[u8], now: u64) -> (r: Result<(), ServiceError>)
    requires
        old(store).inv(),
    ensures
        final(store).inv(),
        match r {
            Result::Ok(u) => {
                let tv = stored_topic(old(store).kv(), topic_id@, now)->Some_0;
                &&& stored_topic(old(store).kv(), topic_id@, now) is Some
                &&& final(store).kv() == old(store).kv().remove(topic_key(tv.id))
                &&& final(store).sets() == if old(store).sets().contains_key(
                    spec_plural("topic".spec_bytes()),
                ) {
                    old(store).sets().insert(
                        spec_plural("topic".spec_bytes()),
                        old(store).sets()[spec_plural("topic".spec_bytes())].remove(
                            enc_pair(tv.id, tv.title),
                        ),
                    )
                } else {
                    old(store).sets()
                }
            },
            Result::Err(e) => fetch_err(old(store).kv(), topic_id@, now, e) && *final(store)
                == *old(store),
        },
{
    let topic = match get(store, topic_id, now) {
        Result::Ok(t) => t,
        Result::Err(e) => {
            return Result::Err(e);
        },
    };
    let _ = redis_delete(&topic, store);
    Result::Ok(())
}

/// The raw membership entries of the topics collection.
pub fn list(store: &Store) -> (r: Vec<Vec<u8>>)
    requires
        store.inv(),
    ensures
        mem_set(r@) == store.set_at(spec_plural("topic".spec_bytes())),
        distinct_mems(r@),
{
    let prefix = bytes_of("topic");
    redis_get_list(prefix.as_slice(), store)
}

/// Decodes membership entries into `(id, label)` pairs; fails as a
/// whole if any entry is unreadable.
pub fn parse_list_items(items: &Vec<Vec<u8>>) -> (r: Result<
    Vec<(Vec<u8>, Vec<u8>)>,
    ServiceError,
>)
    ensures
        match r {
            Result::Ok(v) => {
                &&& v@.len() == items@.len()
                &&& forall|i: int|
                    0 <= i < items@.len() ==> parse_pair_bytes(items@[i]@) == Option::Some(
                        ((#[trigger] v@[i]).0@, v@[i].1@),
                    )
            },
            Result::Err(e) => {
                &&& e == ServiceError::CorruptData
                &&& exists|i: int|
                    0 <= i < items@.len() && parse_pair_bytes((#[trigger] items@[i])@) is None
            },
        },
{
    let n = items.len();
    let mut out: Vec<(Vec<u8>, Vec<u8>)> = Vec::new();
    let mut i: usize = 0;
    while i < n
        invariant
            n == items@.len(),
            i <= n,
            out@.len() == i,
            forall|j: int|
                0 <= j < i ==> parse_pair_bytes(items@[j]@) == Option::Some(
                    ((#[trigger] out@[j]).0@, out@[j].1@),
                ),
        decreases n - i,
    {
        match parse_pair(items[i].as_slice()) {
            Option::Some(p) => {
                out.push(p);
            },
            Option::None => {
                return Result::Err(ServiceError::CorruptData);
            },
        }
        i = i + 1;
    }
    Result::Ok(out)
}

/// Fetches the topic, adds `plan_id` to its plans, persists the
/// updated record (no hash recomputation: plan edits alone do not
/// invalidate a cached result).
pub fn add_plan_id(store: &mut Store, topic_id: &[u8], plan_id: &[u8], now: u64) -> (r: Result<
    Topic,
    ServiceError,
>)
    requires
        old(store).inv(),
    ensures
        final(store).inv(),
        match r {
            Result::Ok(t) => {
                let tv = stored_topic(old(store).kv(), topic_id@, now)->Some_0;
                &&& stored_topic(old(store).kv(), topic_id@, now) is Some
                &&& t@ == (TopicView {
                    setting: if tv.setting.plans.contains(plan_id@) {
                        tv.setting
                    } else {
                        SettingView { plans: tv.setting.plans.push(plan_id@), ..tv.setting }
                    },
                    ..tv
                })
                &&& final(store).kv() == old(store).kv().insert(
                    topic_key(tv.id),
                    (enc_topic(t@), Option::None),
                )
                &&& final(store).sets() == old(store).sets()
            },
            Result::Err(e) => fetch_err(old(store).kv(), topic_id@, now, e) && *final(store)
                == *old(store),
        },
{
    let mut topic = match get(store, topic_id, now) {
        Result::Ok(t) => t,
        Result::Err(e) => {
            return Result::Err(e);
        },
    };
    topic.add_plan_id(plan_id);
    let key = topic.domain();
    let encoded = topic.encode();
    store.set_value(key.as_slice(), encoded);
    Result::Ok(topic)
}

/// Fetches the topic, removes `plan_id` from its plans, persists.
pub fn remove_plan_id(store: &mut Store, topic_id: &[u8], plan_id: &[u8], now: u64) -> (r: Result<
    Topic,
    ServiceError,
>)
    requires
        old(store).inv(),
    ensures
        final(store).inv(),
        match r {
            Result::Ok(t) => {
                let tv = stored_topic(old(store).kv(), topic_id@, now)->Some_0;
                &&& stored_topic(old(store).kv(), topic_id@, now) is Some
                &&& t@ == (TopicView {
                    setting: SettingView {
                        plans: row_remove(tv.setting.plans, plan_id@),
                        ..tv.setting
                    },
                    ..tv
                })
                &&& final(store).kv() == old(store).kv().insert(
                    topic_key(tv.id),
                    (enc_topic(t@), Option::None),
                )
                &&& final(store).sets() == old(store).sets()
            },
            Result::Err(e) => fetch_err(old(store).kv(), topic_id@, now, e) && *final(store)
                == *old(store),
        },
{
    let mut topic = match get(store, topic_id, now) {
        Result::Ok(t) => t,
        Result::Err(e) => {
            return Result::Err(e);
        },
    };
    topic.remove_plan_id(plan_id);
    let key = topic.domain();
    let encoded = topic.encode();
    store.set_value(key.as_slice(), encoded);
    Result::Ok(topic)
}

/// Fetches the topic, registers `user_id` as a voter, persists.
pub fn add_user(store: &mut Store, topic_id: &[u8], user_id: &[u8], now: u64) -> (r: Result<
    Topic,
    ServiceError,
>)
    requires
        old(store).inv(),
    ensures
        final(store).inv(),
        match r {
            Result::Ok(t) => {
                let tv = stored_topic(old(store).kv(), topic_id@, now)->Some_0;
                &&& stored_topic(old(store).kv(), topic_id@, now) is Some
                &&& t@ == (TopicView {
                    setting: if tv.setting.voters.contains(user_id@) {
                        tv.setting
                    } else {
                        SettingView { voters: tv.setting.voters.push(user_id@), ..tv.setting }
                    },
                    ..tv
                })
                &&& final(store).kv() == old(store).kv().insert(
                    topic_key(tv.id),
                    (enc_topic(t@), Option::None),
                )
                &&& final(store).sets() == old(store).sets()
            },
            Result::Err(e) => fetch_err(old(store).kv(), topic_id@, now, e) && *final(store)
                == *old(store),
        },
{
    let mut topic = match get(store, topic_id, now) {
        Result::Ok(t) => t,
        Result::Err(e) => {
            return Result::Err(e);
        },
    };
    topic.add_user(user_id);
    let key = topic.domain();
    let encoded = topic.encode();
    store.set_value(key.as_slice(), encoded);
    Result::Ok(topic)
}

/// Fetches the topic, removes `user_id` from the voters, persists.
pub fn remove_user(store: &mut Store, topic_id: &[u8], user_id: &[u8], now: u64) -> (r: Result<
    Topic,
    ServiceError,
>)
    requires
        old(store).inv(),
    ensures
        final(store).inv(),
        match r {
            Result::Ok(t) => {
                let tv = stored_topic(old(store).kv(), topic_id@, now)->Some_0;
                &&& stored_topic(old(store).kv(), topic_id@, now) is Some
                &&& t@ == (TopicView {
                    setting: SettingView {
                        voters: row_remove(tv.setting.voters, user_id@),
                        ..tv.setting
                    },
                    ..tv
                })
                &&& final(store).kv() == old(store).kv().insert(
                    topic_key(tv.id),
                    (enc_topic(t@), Option::None),
                )
                &&& final(store).sets() == old(store).sets()
            },
            Result::Err(e) => fetch_err(old(store).kv(), topic_id@, now, e) && *final(store)
                == *old(store),
        },
{
    let mut topic = match get(store, topic_id, now) {
        Result::Ok(t) => t,
        Result::Err(e) => {
            return Result::Err(e);
        },
    };
    topic.remove_user(user_id);
    let key = topic.domain();
    let encoded = topic.encode();
    store.set_value(key.as_slice(), encoded);
    Result::Ok(topic)
}

/// Stores a plan record and adds its id to the topic's plans: both the
/// plan and the updated topic are persisted with their membership
/// entries.
#[verifier::rlimit(60)]
pub fn add_plan(store: &mut Store, topic_id: &[u8], plan: &Plan, now: u64) -> (r: Result<
    (Vec<u8>, Vec<u8>),
    ServiceError,
>)
    requires
        old(store).inv(),
    ensures
        final(store).inv(),
        match r {
            Result::Ok(ids) => {
                let tv = stored_topic(old(store).kv(), topic_id@, now)->Some_0;
                let pid = spec_plan_id(plan@);
                let t2 = (TopicView {
                    setting: if tv.setting.plans.contains(pid) {
                        tv.setting
                    } else {
                        SettingView { plans: tv.setting.plans.push(pid), ..tv.setting }
                    },
                    ..tv
                });
                &&& stored_topic(old(store).kv(), topic_id@, now) is Some
                &&& ids.0@ == topic_id@
                &&& ids.1@ == pid
                &&& final(store).kv() == old(store).kv().insert(
                    topic_key(tv.id),
                    (enc_topic(t2), Option::None),
                ).insert(plan_key(pid), (enc_plan(plan@), Option::None))
                &&& final(store).sets() == old(store).sets().insert(
                    spec_plural("topic".spec_bytes()),
                    old(store).set_at(spec_plural("topic".spec_bytes())).insert(
                        enc_pair(tv.id, tv.title),
                    ),
                ).insert(
                    spec_plural("plan".spec_bytes()),
                    old(store).set_at(spec_plural("plan".spec_bytes())).insert(
                        enc_pair(pid, spec_plan_label(plan@)),
                    ),
                )
            },
            Result::Err(e) => fetch_err(old(store).kv(), topic_id@, now, e) && *final(store)
                == *old(store),
        },
{
    let mut topic = match get(store, topic_id, now) {
        Result::Ok(t) => t,
        Result::Err(e) => {
            return Result::Err(e);
        },
    };
    let plan_id = plan.id();
    topic.add_plan_id(plan_id.as_slice());
    let _ = redis_add(&topic, store);
    let _ = redis_add(plan, store);
    proof {
        assert(spec_plural("topic".spec_bytes()) != spec_plural("plan".spec_bytes())) by {
            reveal_strlit("topic");
            reveal_strlit("plan");
            assert(vstd::utf8::is_ascii_chars("topic"@));
            assert(vstd::utf8::is_ascii_chars("plan"@));
            vstd::utf8::is_ascii_chars_encode_utf8("topic"@);
            vstd::utf8::is_ascii_chars_encode_utf8("plan"@);
            assert("topic".spec_bytes().len() == 5);
            assert("plan".spec_bytes().len() == 4);
            assert(spec_plural("topic".spec_bytes()).len() != spec_plural("plan".spec_bytes()).len());
        }
    }
    Result::Ok((vstd::slice::slice_to_vec(topic_id), plan_id))
}

/// What applying a vote calls for: nothing, when the voting state is
/// unchanged; or a tally over the updated topic.
pub enum VoteOutcome {
    NoChange,
    Compute(Topic),
}

/// Applies a vote without touching the store: fetches the topic,
/// overwrites the voter's vote (a voter not registered changes
/// nothing), and compares content hashes. An unchanged hash yields
/// `NoChange`: nothing is persisted and no tally is owed. A changed
/// hash yields `Compute` with the hashes rolled forward; the caller
/// runs the tally and commits with [`commit_vote_result`].
pub fn update_vote(store: &Store, topic_id: &[u8], user_id: &[u8], vote: Vec<VoteEntry>, now: u64) -> (r:
    Result<VoteOutcome, ServiceError>)
    requires
        store.inv(),
    ensures
        match r {
            Result::Ok(outcome) => {
                let tv = stored_topic(store.kv(), topic_id@, now)->Some_0;
                let s2 = spec_overwrite_vote(tv.setting, user_id@, entry_views(vote@));
                let h2 = spec_setting_hash(s2);
                &&& stored_topic(store.kv(), topic_id@, now) is Some
                &&& match outcome {
                    VoteOutcome::NoChange => h2 == tv.setting_hash,
                    VoteOutcome::Compute(t) => h2 != tv.setting_hash && t@ == (TopicView {
                        setting: s2,
                        setting_hash: h2,
                        setting_prev_hash: tv.setting_hash,
                        ..tv
                    }),
                }
            },
            Result::Err(e) => fetch_err(store.kv(), topic_id@, now, e),
        },
{
    let mut topic = match get(store, topic_id, now) {
        Result::Ok(t) => t,
        Result::Err(e) => {
            return Result::Err(e);
        },
    };
    let new_hash = topic.insert_vote(user_id, vote);
    if eq_bytes(new_hash.as_slice(), topic.setting_hash.as_slice()) {
        Result::Ok(VoteOutcome::NoChange)
    } else {
        topic.update_setting_hash(new_hash.as_slice());
        Result::Ok(VoteOutcome::Compute(topic))
    }
}

/// Commits a tally result: caches it on the topic, persists the topic
/// record, and caches the voting state under `setting:{hash}` so that
/// another topic reaching the same state can reuse the result.
pub fn commit_vote_result(store: &mut Store, topic: Topic, result: Vec<u8>) -> (r: Topic)
    requires
        old(store).inv(),
    ensures
        final(store).inv(),
        r@ == (TopicView { result: Option::Some(result@), ..topic@ }),
        final(store).kv() == old(store).kv().insert(
            topic_key(topic@.id),
            (enc_topic(TopicView { result: Option::Some(result@), ..topic@ }), Option::None),
        ).insert(
            setting_key(topic@.setting_hash),
            (enc_setting(topic@.setting), Option::None),
        ),
        final(store).sets() == old(store).sets(),
{
    let mut topic = topic;
    topic.set_result(result);
    let key = topic.domain();
    let encoded = topic.encode();
    store.set_value(key.as_slice(), encoded);
    let prefix = bytes_of("setting");
    let skey = domain_of(prefix.as_slice(), topic.setting_hash.as_slice());
    let setting_bytes = topic.setting_encoded();
    store.set_value(skey.as_slice(), setting_bytes);
    topic
}

/// The raw cached voting state under `setting:{setting_id}`.
pub fn get_setting(store: &Store, setting_id: &[u8], now: u64) -> (r: Option<Vec<u8>>)
    requires
        store.inv(),
    ensures
        match r {
            Option::Some(b) => live_value(store.kv(), setting_key(setting_id@), now)
                == Option::Some(b@),
            Option::None => live_value(store.kv(), setting_key(setting_id@), now) is None,
        },
{
    let prefix = bytes_of("setting");
    redis_get_slice(setting_id, prefix.as_slice(), store, now)
}

/// Wipes the whole store. Commands `FLUSHALL`.
pub fn nuclear(store: &mut Store)
    ensures
        final(store).inv(),
        final(store).kv() == Map::<Seq<u8>, (Seq<u8>, Option<u64>)>::empty(),
        final(store).sets() == Map::<Seq<u8>, Set<Seq<u8>>>::empty(),
{
    *store = Store::new();
}


/// Resolves a row of topic ids to their full records; fails as a whole
/// if any record is absent, expired or unreadable.
pub fn get_topics(store: &Store, topic_ids: &Vec<Vec<u8>>, now: u64) -> (r: Result<
    Vec<Topic>,
    ServiceError,
>)
    requires
        store.inv(),
    ensures
        match r {
            Result::Ok(v) => {
                &&& v@.len() == topic_ids@.len()
                &&& forall|i: int|
                    0 <= i < topic_ids@.len() ==> stored_topic(store.kv(), topic_ids@[i]@, now)
                        == Option::Some((#[trigger] v@[i])@)
            },
            Result::Err(e) => {
                &&& exists|i: int|
                    0 <= i < topic_ids@.len() && stored_topic(
                        store.kv(),
                        (#[trigger] topic_ids@[i])@,
                        now,
                    ) is None
                &&& (e == ServiceError::NotFound || e == ServiceError::CorruptData)
            },
        },
{
    let n = topic_ids.len();
    let mut out: Vec<Topic> = Vec::new();
    let mut i: usize = 0;
    while i < n
        invariant
            store.inv(),
            n == topic_ids@.len(),
            i <= n,
            out@.len() == i,
            forall|j: int|
                0 <= j < i ==> stored_topic(store.kv(), topic_ids@[j]@, now) == Option::Some(
                    (#[trigger] out@[j])@,
                ),
        decreases n - i,
    {
        match get(store, topic_ids[i].as_slice(), now) {
            Result::Ok(t) => {
                out.push(t);
            },
            Result::Err(e) => {
                return Result::Err(e);
            },
        }
        i = i + 1;
    }
    Result::Ok(out)
}

/// The stored plan record under `pid`, if present, live and readable.
pub open spec fn stored_plan(
    kv: Map<Seq<u8>, (Seq<u8>, Option<u64>)>,
    pid: Seq<u8>,
    now: u64,
) -> Option<crate::plan::PlanView> {
    match live_value(kv, plan_key(pid), now) {
        Option::Some(b) => crate::plan::parse_plan_bytes(b),
        Option::None => Option::None,
    }
}

/// Resolves a row of plan ids to their full records; fails as a whole
/// if any record is absent, expired or unreadable.
pub fn get_plans(store: &Store, plan_ids: &Vec<Vec<u8>>, now: u64) -> (r: Result<
    Vec<Plan>,
    ServiceError,
>)
    requires
        store.inv(),
    ensures
        match r {
            Result::Ok(v) => {
                &&& v@.len() == plan_ids@.len()
                &&& forall|i: int|
                    0 <= i < plan_ids@.len() ==> stored_plan(store.kv(), plan_ids@[i]@, now)
                        == Option::Some((#[trigger] v@[i])@)
            },
            Result::Err(e) => {
                &&& exists|i: int|
                    0 <= i < plan_ids@.len() && stored_plan(
                        store.kv(),
                        (#[trigger] plan_ids@[i])@,
                        now,
                    ) is None
                &&& (e == ServiceError::NotFound || e == ServiceError::CorruptData)
            },
        },
{
    let n = plan_ids.len();
    let mut out: Vec<Plan> = Vec::new();
    let prefix = bytes_of("plan");
    let mut i: usize = 0;
    while i < n
        invariant
            store.inv(),
            n == plan_ids@.len(),
            i <= n,
            prefix@ == "plan".spec_bytes(),
            out@.len() == i,
            forall|j: int|
                0 <= j < i ==> stored_plan(store.kv(), plan_ids@[j]@, now) == Option::Some(
                    (#[trigger] out@[j])@,
                ),
        decreases n - i,
    {
        let data = match redis_get_slice(plan_ids[i].as_slice(), prefix.as_slice(), store, now) {
            Option::Some(b) => b,
            Option::None => {
                return Result::Err(ServiceError::NotFound);
            },
        };
        match Plan::decode(data.as_slice()) {
            Option::Some(p) => {
                out.push(p);
            },
            Option::None => {
                return Result::Err(ServiceError::CorruptData);
            },
        }
        i = i + 1;
    }
    Result::Ok(out)
}


/// Rewrites whole collections from given rows of records: every user,
/// topic and plan is written back with its membership entry, users
/// first, then topics, then plans.
pub fn restore(store: &mut Store, users: &Vec<crate::user::User>, topics: &Vec<Topic>, plans: &Vec<
    Plan,
>)
    requires
        old(store).inv(),
    ensures
        final(store).inv(),
        final(store).kv() == kv_after_adds(
            kv_after_adds(kv_after_adds(old(store).kv(), users@), topics@),
            plans@,
        ),
        final(store).sets() == sets_after_adds(
            sets_after_adds(sets_after_adds(old(store).sets(), users@), topics@),
            plans@,
        ),
{
    crate::keyed::redis_add_all(users, store);
    crate::keyed::redis_add_all(topics, store);
    crate::keyed::redis_add_all(plans, store);
}

} // verus!
