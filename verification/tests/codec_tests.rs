//! Exact expected values and rejection cases for the canonical
//! encoding.

use ornot::codec::{parse_pair, parse_u64, parse_bytes, encode_pair};
use ornot::plan::{Plan, Location, CircularArea, location_text, area_text, path_text};
use ornot::setting::{Setting, Vote, VoteEntry};
use ornot::topic::{Topic, PartialTopic};
use ornot::user::User;
use ornot::bytes::{dec_u64, dec_i64, hex_bytes, eq_bytes, bytes_of, concat_bytes, append_bytes};

#[test]
fn dec_u64_exact() {
    assert_eq!(dec_u64(0), b"0".to_vec());
    assert_eq!(dec_u64(7), b"7".to_vec());
    assert_eq!(dec_u64(1800), b"1800".to_vec());
    assert_eq!(dec_u64(u64::MAX), b"18446744073709551615".to_vec());
}

#[test]
fn dec_i64_exact() {
    assert_eq!(dec_i64(0), b"0".to_vec());
    assert_eq!(dec_i64(-15), b"-15".to_vec());
    assert_eq!(dec_i64(i64::MIN), b"-9223372036854775808".to_vec());
    assert_eq!(dec_i64(i64::MAX), b"9223372036854775807".to_vec());
}

#[test]
fn hex_exact() {
    assert_eq!(hex_bytes(&[0xbe, 0xef]), b"beef".to_vec());
    assert_eq!(hex_bytes(&[0x00, 0x0a]), b"000a".to_vec());
    assert_eq!(hex_bytes(&[]), b"".to_vec());
}

#[test]
fn byte_helpers() {
    assert!(eq_bytes(b"abc", b"abc"));
    assert!(!eq_bytes(b"abc", b"abd"));
    assert!(!eq_bytes(b"abc", b"ab"));
    assert_eq!(bytes_of("user:"), b"user:".to_vec());
    assert_eq!(concat_bytes(b"a", b"bc"), b"abc".to_vec());
    let mut v = b"x".to_vec();
    append_bytes(&mut v, b"yz");
    assert_eq!(v, b"xyz".to_vec());
}

#[test]
fn user_encoding_exact() {
    let user = User { id: b"ab".to_vec(), nickname: b"cd".to_vec(), is_verified: false };
    assert_eq!(user.encode(), b"2:ab2:cdF".to_vec());
    let verified = User { id: b"ab".to_vec(), nickname: b"cd".to_vec(), is_verified: true };
    assert_eq!(verified.encode(), b"2:ab2:cdT".to_vec());
}

#[test]
fn user_round_trip() {
    let user = User { id: b"some-id".to_vec(), nickname: b"alice".to_vec(), is_verified: true };
    let back = User::decode(&user.encode()).expect("own encoding parses");
    assert_eq!(back, user);
}

#[test]
fn user_decode_rejects_garbage() {
    assert!(User::decode(b"").is_none());
    assert!(User::decode(b"junk").is_none());
    // leading zero in a length is not canonical
    assert!(User::decode(b"02:ab2:cdF").is_none());
    // trailing garbage after a complete record
    assert!(User::decode(b"2:ab2:cdFx").is_none());
    // truncated payload
    assert!(User::decode(b"9:ab").is_none());
}

#[test]
fn pair_encoding_exact() {
    assert_eq!(encode_pair(b"", b"x"), b"0:1:x".to_vec());
    let (a, b) = parse_pair(b"2:ab3:cde").expect("pair parses");
    assert_eq!(a, b"ab".to_vec());
    assert_eq!(b, b"cde".to_vec());
    assert!(parse_pair(b"2:ab").is_none());
    assert!(parse_pair(b"2:ab3:cdex").is_none());
}

#[test]
fn number_parsing_is_strict() {
    // canonical number closed by a colon
    assert_eq!(parse_u64(b"1800:", 0), Some((1800, 5)));
    // no digits, leading zero, missing colon: rejected
    assert!(parse_u64(b":", 0).is_none());
    assert!(parse_u64(b"007:", 0).is_none());
    assert!(parse_u64(b"18", 0).is_none());
    // a value beyond u64 is rejected, not wrapped
    assert!(parse_u64(b"18446744073709551616:", 0).is_none());
    assert_eq!(parse_u64(b"18446744073709551615:", 0), Some((u64::MAX, 21)));
}

#[test]
fn bytes_parsing_is_strict() {
    let r = parse_bytes(b"3:abcrest", 0).expect("length-prefixed bytes parse");
    assert_eq!(r.0, b"abc".to_vec());
    assert_eq!(r.1, 5);
    assert!(parse_bytes(b"4:abc", 0).is_none());
}

#[test]
fn location_texts_exact() {
    assert_eq!(location_text(&Location { lat: -15, lng: 30 }), b"-15, 30".to_vec());
    assert_eq!(
        area_text(&CircularArea { lat: 1, lng: -2, radius: 500 }),
        b"1, -2, 500".to_vec()
    );
    let pts = vec![Location { lat: 1, lng: 2 }, Location { lat: -3, lng: 4 }];
    assert_eq!(path_text(&pts), b"1, 2;-3, 4;".to_vec());
}

#[test]
fn plan_encoding_exact() {
    assert_eq!(Plan::Simple(b"t".to_vec()).encode(), b"s1:t".to_vec());
    assert_eq!(
        Plan::Long(b"t".to_vec(), b"dd".to_vec()).encode(),
        b"l1:t2:dd".to_vec()
    );
}

#[test]
fn plan_round_trips_all_variants() {
    let plans = vec![
        Plan::Simple(b"coffee".to_vec()),
        Plan::Long(b"tea".to_vec(), b"with milk".to_vec()),
        Plan::Url(b"site".to_vec(), b"https://example.test".to_vec()),
        Plan::Image(b"https://example.test/x.png".to_vec()),
        Plan::LatLng(Some(b"here".to_vec()), Location { lat: 35689500, lng: 139691700 }),
        Plan::LatLng(None, Location { lat: -1, lng: 1 }),
        Plan::Circle(None, CircularArea { lat: 10, lng: 20, radius: 30 }),
        Plan::Path(
            Some(b"walk".to_vec()),
            vec![Location { lat: 0, lng: 0 }, Location { lat: 5, lng: -5 }],
        ),
        Plan::Path(None, vec![]),
    ];
    for plan in plans {
        let back = Plan::decode(&plan.encode()).expect("own encoding parses");
        assert_eq!(back, plan);
    }
}

#[test]
fn plan_decode_rejects_garbage() {
    assert!(Plan::decode(b"").is_none());
    assert!(Plan::decode(b"z1:t").is_none());
    assert!(Plan::decode(b"s1:tx").is_none());
}

#[test]
fn setting_round_trip() {
    let mut setting = Setting::new();
    setting.add_voter(b"u1");
    setting.add_voter(b"u2");
    setting.add_plan(b"p1");
    setting.overwrite_vote(
        b"u1",
        vec![VoteEntry { plan: b"p1".to_vec(), weight: 2 }],
    );
    let encoded = setting.encode();
    let (back, end) = Setting::parse(&encoded, 0).expect("own encoding parses");
    assert_eq!(end, encoded.len());
    assert_eq!(back, setting);
}

#[test]
fn empty_setting_encoding_exact() {
    let setting = Setting::new();
    assert_eq!(setting.encode(), b"0:0:0:".to_vec());
}

#[test]
fn topic_round_trip() {
    let mut topic = Topic::from_partial(PartialTopic {
        title: b"lunch".to_vec(),
        description: b"where to".to_vec(),
    });
    topic.add_user(b"u1");
    topic.add_plan_id(b"p1");
    let hash = topic.insert_vote(b"u1", vec![VoteEntry { plan: b"p1".to_vec(), weight: 1 }]);
    topic.update_setting_hash(&hash);
    topic.set_result(b"tally-bytes".to_vec());
    let back = Topic::decode(&topic.encode()).expect("own encoding parses");
    assert_eq!(back, topic);
}

#[test]
fn topic_decode_rejects_garbage() {
    assert!(Topic::decode(b"").is_none());
    assert!(Topic::decode(b"5:hello").is_none());
    let topic = Topic::from_partial(PartialTopic {
        title: b"t".to_vec(),
        description: b"d".to_vec(),
    });
    let mut bytes = topic.encode();
    bytes.push(b' ');
    assert!(Topic::decode(&bytes).is_none());
}

#[test]
fn vote_entries_keep_order_and_weights() {
    let vote = Vote {
        voter: b"u1".to_vec(),
        entries: vec![
            VoteEntry { plan: b"a".to_vec(), weight: 1 },
            VoteEntry { plan: b"b".to_vec(), weight: 3 },
        ],
    };
    let copy = vote.duplicate();
    assert_eq!(copy, vote);
}
