//! Topics, plans and the hash-gated vote flow, including the
//! read-modify-write race left open by design.

use ornot::keyed::{redis_get_slice, ServiceError};
use ornot::plan::{Plan, Location};
use ornot::setting::{Setting, VoteEntry};
use ornot::store::Store;
use ornot::topic::{Topic, PartialTopic};
use ornot::vote::{add_plan, add_plan_id, add_user, commit_vote_result, delete, get, get_setting,
    list, nuclear, parse_list_items, put, remove_plan_id, remove_user, update_vote, VoteOutcome};

fn lunch() -> PartialTopic {
    PartialTopic { title: b"lunch".to_vec(), description: b"where to eat".to_vec() }
}

fn entry(plan: &[u8], weight: u64) -> VoteEntry {
    VoteEntry { plan: plan.to_vec(), weight }
}

/// A stand-in tally: the scenario only counts invocations and carries
/// the bytes through.
fn fake_tally(setting: &Setting, calls: &mut usize) -> Vec<u8> {
    *calls += 1;
    let mut out = b"tally-of-".to_vec();
    out.extend_from_slice(&setting.based_hash());
    out
}

#[test]
fn topic_put_get_round_trip() {
    let mut store = Store::new();
    let id = put(&mut store, lunch());
    let topic = get(&store, &id, 0).expect("stored topic reads back");
    assert_eq!(topic.id, id);
    assert_eq!(topic.title, b"lunch".to_vec());
    assert_eq!(topic.description, b"where to eat".to_vec());
    assert_eq!(topic.setting_hash, b"0".to_vec());
    assert!(topic.result.is_none());
}

#[test]
fn topic_ids_are_content_addressed() {
    let mut store = Store::new();
    let a = put(&mut store, lunch());
    let b = put(&mut store, lunch());
    assert_eq!(a, b);
    let c = put(
        &mut store,
        PartialTopic { title: b"lunch".to_vec(), description: b"when".to_vec() },
    );
    assert_ne!(a, c);
}

#[test]
fn topic_upsert_is_idempotent() {
    let mut store = Store::new();
    let _ = put(&mut store, lunch());
    let once = list(&store);
    let _ = put(&mut store, lunch());
    let twice = list(&store);
    assert_eq!(once.len(), 1);
    assert_eq!(once, twice);
}

#[test]
fn list_names_all_topics() {
    let mut store = Store::new();
    let a = put(&mut store, lunch());
    let b = put(
        &mut store,
        PartialTopic { title: b"outing".to_vec(), description: b"spring".to_vec() },
    );
    let pairs = parse_list_items(&list(&store)).expect("entries parse");
    assert_eq!(pairs.len(), 2);
    assert!(pairs.contains(&(a, b"lunch".to_vec())));
    assert!(pairs.contains(&(b, b"outing".to_vec())));
}

#[test]
fn missing_and_corrupt_topics_are_told_apart() {
    let mut store = Store::new();
    assert_eq!(get(&store, b"nowhere", 0).unwrap_err(), ServiceError::NotFound);
    store.set_value(b"topic:bad", b"not a record".to_vec());
    assert_eq!(get(&store, b"bad", 0).unwrap_err(), ServiceError::CorruptData);
}

#[test]
fn voter_and_plan_edits_persist() {
    let mut store = Store::new();
    let id = put(&mut store, lunch());
    add_user(&mut store, &id, b"u1", 0).expect("voter added");
    add_user(&mut store, &id, b"u1", 0).expect("again is fine");
    add_plan_id(&mut store, &id, b"p1", 0).expect("plan added");

    let topic = get(&store, &id, 0).unwrap();
    assert_eq!(topic.setting.voters, vec![b"u1".to_vec()]);
    assert_eq!(topic.setting.plans, vec![b"p1".to_vec()]);

    remove_plan_id(&mut store, &id, b"p1", 0).expect("plan removed");
    remove_user(&mut store, &id, b"u1", 0).expect("voter removed");
    let topic = get(&store, &id, 0).unwrap();
    assert!(topic.setting.voters.is_empty());
    assert!(topic.setting.plans.is_empty());
}

#[test]
fn add_plan_stores_the_plan_record_too() {
    let mut store = Store::new();
    let id = put(&mut store, lunch());
    let plan = Plan::LatLng(Some(b"cafe".to_vec()), Location { lat: 35689500, lng: 139691700 });
    let (tid, pid) = add_plan(&mut store, &id, &plan, 0).expect("plan attached");
    assert_eq!(tid, id);

    let raw = redis_get_slice(&pid, b"plan", &store, 0).expect("plan stored");
    assert_eq!(Plan::decode(&raw).expect("plan parses"), plan);

    let topic = get(&store, &id, 0).unwrap();
    assert_eq!(topic.setting.plans, vec![pid.clone()]);

    // the label never feeds the id
    let relabeled = Plan::LatLng(Some(b"other".to_vec()), Location { lat: 35689500, lng: 139691700 });
    let (_, pid2) = add_plan(&mut store, &id, &relabeled, 0).expect("relabeled attached");
    assert_eq!(pid, pid2);
}

#[test]
fn memoization_invokes_the_tally_exactly_once() {
    let mut store = Store::new();
    let id = put(&mut store, lunch());
    add_user(&mut store, &id, b"u1", 0).unwrap();
    add_user(&mut store, &id, b"u2", 0).unwrap();
    add_plan_id(&mut store, &id, b"p1", 0).unwrap();
    add_plan_id(&mut store, &id, b"p2", 0).unwrap();

    let mut tally_calls: usize = 0;

    // first submission: the hash moves, the tally runs, the result lands
    match update_vote(&store, &id, b"u1", vec![entry(b"p1", 1)], 0).unwrap() {
        VoteOutcome::Compute(topic) => {
            let result = fake_tally(&topic.setting, &mut tally_calls);
            let committed = commit_vote_result(&mut store, topic, result);
            assert!(committed.result.is_some());
        },
        VoteOutcome::NoChange => panic!("first vote must change the state"),
    }

    // the identical resubmission: no change, no tally, no write
    match update_vote(&store, &id, b"u1", vec![entry(b"p1", 1)], 0).unwrap() {
        VoteOutcome::NoChange => {},
        VoteOutcome::Compute(_) => panic!("identical vote must be memoized"),
    }
    assert_eq!(tally_calls, 1);

    let topic = get(&store, &id, 0).unwrap();
    assert_eq!(topic.setting_hash, topic.setting.based_hash());
    assert_eq!(topic.setting_prev_hash, b"0".to_vec());

    // the voting state is cached under its hash
    let cached = get_setting(&store, &topic.setting_hash, 0).expect("setting cached");
    let (setting, _) = Setting::parse(&cached, 0).expect("cached state parses");
    assert_eq!(setting, topic.setting);
}

#[test]
fn changed_vote_moves_the_hash_and_keeps_the_old_one() {
    let mut store = Store::new();
    let id = put(&mut store, lunch());
    add_user(&mut store, &id, b"u1", 0).unwrap();
    add_plan_id(&mut store, &id, b"p1", 0).unwrap();

    let first = match update_vote(&store, &id, b"u1", vec![entry(b"p1", 1)], 0).unwrap() {
        VoteOutcome::Compute(t) => t,
        VoteOutcome::NoChange => panic!("first vote must change the state"),
    };
    let h1 = first.setting_hash.clone();
    commit_vote_result(&mut store, first, b"r1".to_vec());

    let second = match update_vote(&store, &id, b"u1", vec![entry(b"p1", 2)], 0).unwrap() {
        VoteOutcome::Compute(t) => t,
        VoteOutcome::NoChange => panic!("different weight must change the state"),
    };
    assert_ne!(second.setting_hash, h1);
    assert_eq!(second.setting_prev_hash, h1);
}

#[test]
fn unregistered_voter_changes_nothing() {
    let mut store = Store::new();
    let id = put(&mut store, lunch());
    add_user(&mut store, &id, b"u1", 0).unwrap();
    add_plan_id(&mut store, &id, b"p1", 0).unwrap();

    // reach a rest state first: a stored hash matching the stored state
    // (a fresh topic still carries the initial sentinel)
    match update_vote(&store, &id, b"u1", vec![entry(b"p1", 1)], 0).unwrap() {
        VoteOutcome::Compute(t) => {
            commit_vote_result(&mut store, t, b"r".to_vec());
        },
        VoteOutcome::NoChange => panic!("first vote must change the state"),
    }
    let before = get(&store, &id, 0).unwrap();

    // a ballot from a stranger is dropped silently
    match update_vote(&store, &id, b"u3", vec![entry(b"p1", 1)], 0).unwrap() {
        VoteOutcome::NoChange => {},
        VoteOutcome::Compute(_) => panic!("ineligible vote must not change the state"),
    }
    let after = get(&store, &id, 0).unwrap();
    assert_eq!(after.setting.votes, before.setting.votes);
    assert_eq!(after.setting_hash, before.setting_hash);
}

#[test]
fn lost_update_race_is_still_open() {
    // two interleaved read-modify-write cycles on one topic: the later
    // commit silently discards the earlier voter's ballot; nothing in
    // the store protocol detects the conflict
    let mut store = Store::new();
    let id = put(&mut store, lunch());
    add_user(&mut store, &id, b"u1", 0).unwrap();
    add_user(&mut store, &id, b"u2", 0).unwrap();
    add_plan_id(&mut store, &id, b"p1", 0).unwrap();

    let read_a = match update_vote(&store, &id, b"u1", vec![entry(b"p1", 1)], 0).unwrap() {
        VoteOutcome::Compute(t) => t,
        VoteOutcome::NoChange => panic!("must change"),
    };
    let read_b = match update_vote(&store, &id, b"u2", vec![entry(b"p1", 2)], 0).unwrap() {
        VoteOutcome::Compute(t) => t,
        VoteOutcome::NoChange => panic!("must change"),
    };

    commit_vote_result(&mut store, read_a, b"ra".to_vec());
    commit_vote_result(&mut store, read_b, b"rb".to_vec());

    let final_topic = get(&store, &id, 0).unwrap();
    assert_eq!(final_topic.setting.votes.len(), 1);
    assert_eq!(final_topic.setting.votes[0].voter, b"u2".to_vec());
}

#[test]
fn delete_removes_record_and_membership() {
    let mut store = Store::new();
    let id = put(&mut store, lunch());
    assert!(delete(&mut store, &id, 0).is_ok());
    assert_eq!(get(&store, &id, 0).unwrap_err(), ServiceError::NotFound);
    assert!(list(&store).is_empty());
    assert_eq!(delete(&mut store, &id, 0).unwrap_err(), ServiceError::NotFound);
}

#[test]
fn nuclear_wipes_everything() {
    let mut store = Store::new();
    let id = put(&mut store, lunch());
    nuclear(&mut store);
    assert!(list(&store).is_empty());
    assert_eq!(get(&store, &id, 0).unwrap_err(), ServiceError::NotFound);
}

#[test]
fn corrupt_stored_user_is_reported_not_fatal() {
    let mut store = Store::new();
    store.set_value(b"user:u1", b"garbage".to_vec());
    let cfg = ornot::auth::AuthConfig {
        temp_code_salt: b"s1".to_vec(),
        access_token_salt: b"s2".to_vec(),
    };
    store.set_value(b"temp_code:c1", b"u1".to_vec());
    let r = ornot::identity::verify_temp_code(&mut store, &cfg, b"u1", b"c1", 0);
    assert_eq!(r, Err(ServiceError::CorruptData));
}

#[test]
fn batch_getters_resolve_everything_or_fail() {
    let mut store = Store::new();
    let a = put(&mut store, lunch());
    let b = put(
        &mut store,
        PartialTopic { title: b"outing".to_vec(), description: b"spring".to_vec() },
    );
    let topics = ornot::vote::get_topics(&store, &vec![a.clone(), b.clone()], 0).expect("both");
    assert_eq!(topics.len(), 2);
    assert_eq!(topics[0].id, a);
    assert_eq!(topics[1].id, b);
    assert_eq!(
        ornot::vote::get_topics(&store, &vec![a.clone(), b"gone".to_vec()], 0),
        Err(ServiceError::NotFound)
    );

    let plan = Plan::Simple(b"pizza".to_vec());
    let (_, pid) = add_plan(&mut store, &a, &plan, 0).expect("attached");
    let plans = ornot::vote::get_plans(&store, &vec![pid.clone()], 0).expect("resolved");
    assert_eq!(plans, vec![plan]);

    let slices =
        ornot::keyed::redis_get_slices(&vec![pid.clone()], b"plan", &store, 0).expect("raw");
    assert_eq!(slices.len(), 1);
    assert_eq!(Plan::decode(&slices[0]), Some(Plan::Simple(b"pizza".to_vec())));
}

#[test]
fn get_users_returns_full_records() {
    let mut store = Store::new();
    let cfg = ornot::auth::AuthConfig {
        temp_code_salt: b"s1".to_vec(),
        access_token_salt: b"s2".to_vec(),
    };
    let (user, _token) = ornot::identity::force_add(
        &mut store,
        &cfg,
        ornot::user::PartialUser { nickname: b"alice".to_vec(), email: b"a@x.com".to_vec() },
    );
    let users = ornot::identity::get_users(&store, &vec![user.id.clone()], 0).expect("resolved");
    assert_eq!(users.len(), 1);
    assert_eq!(users[0], user);
}

#[test]
fn restore_rebuilds_collections() {
    let mut store = Store::new();
    let id = put(&mut store, lunch());
    let plan = Plan::Simple(b"pizza".to_vec());
    let (_, pid) = add_plan(&mut store, &id, &plan, 0).expect("attached");
    let topic = get(&store, &id, 0).unwrap();

    nuclear(&mut store);
    assert!(list(&store).is_empty());

    ornot::vote::restore(&mut store, &vec![], &vec![topic], &vec![plan]);
    let back = get(&store, &id, 0).expect("topic restored");
    assert_eq!(back.title, b"lunch".to_vec());
    assert_eq!(parse_list_items(&list(&store)).unwrap().len(), 1);
    let raw = redis_get_slice(&pid, b"plan", &store, 0).expect("plan restored");
    assert_eq!(Plan::decode(&raw), Some(Plan::Simple(b"pizza".to_vec())));
}
