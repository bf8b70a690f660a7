//! Topics: a named poll over plans, with its voting state, the content
//! hash of that state, the previous hash kept for audit, and an
//! optionally cached tally result.
//!
//! A topic's id is derived from title and description alone; the voting
//! state never feeds the id, so a topic keeps its identity while votes
//! change.

use vstd::prelude::*;

verus! {

use vstd::string::StringSliceAdditionalSpecFns;
use crate::hashing::{spec_content_id, content_id};
use crate::codec::{
    enc_bytes,
    enc_opt_bytes,
    enc_pair,
    sparse_bytes,
    sparse_opt_bytes,
    lemma_bytes_rt,
    lemma_opt_bytes_rt,
    parse_bytes,
    parse_opt_bytes,
    emit_bytes,
    emit_opt_bytes,
    encode_pair,
};
use crate::setting::{
    Setting,
    SettingView,
    VoteEntry,
    enc_setting,
    sparse_setting,
    setting_ok,
    lemma_setting_rt,
    spec_setting_hash,
    spec_overwrite_vote,
    entry_views,
    seq_views,
    row_remove,
};
use crate::keyed::Settable;
use crate::bytes::{bytes_of, concat_bytes};

/// A topic-creation request: the identifying content of a topic.
pub struct PartialTopic {
    pub title: Vec<u8>,
    pub description: Vec<u8>,
}

/// A stored topic record.
#[derive(Debug, PartialEq, Eq)]
pub struct Topic {
    pub id: Vec<u8>,
    pub title: Vec<u8>,
    pub description: Vec<u8>,
    pub setting_hash: Vec<u8>,
    pub setting_prev_hash: Vec<u8>,
    pub setting: Setting,
    pub result: Option<Vec<u8>>,
}

#[verifier::ext_equal]
pub struct TopicView {
    pub id: Seq<u8>,
    pub title: Seq<u8>,
    pub description: Seq<u8>,
    pub setting_hash: Seq<u8>,
    pub setting_prev_hash: Seq<u8>,
    pub setting: SettingView,
    pub result: Option<Seq<u8>>,
}

impl View for Topic {
    type V = TopicView;

    open spec fn view(&self) -> TopicView {
        TopicView {
            id: self.id@,
            title: self.title@,
            description: self.description@,
            setting_hash: self.setting_hash@,
            setting_prev_hash: self.setting_prev_hash@,
            setting: self.setting@,
            result: match self.result {
                Option::Some(r) => Option::Some(r@),
                Option::None => Option::None,
            },
        }
    }
}

/// The id derived from a topic's title and description.
pub open spec fn spec_topic_id(title: Seq<u8>, description: Seq<u8>) -> Seq<u8> {
    spec_content_id(title + description)
}

/// Derives the content-addressed id of the topic named by `title` and
/// `description`.
pub fn topic_id_of(title: &[u8], description: &[u8]) -> (r: Vec<u8>)
    ensures
        r@ == spec_topic_id(title@, description@),
{
    let cat = concat_bytes(title, description);
    content_id(cat.as_slice())
}

/// The canonical encoding of a topic record.
pub open spec fn enc_topic(v: TopicView) -> Seq<u8> {
    enc_bytes(v.id) + enc_bytes(v.title) + enc_bytes(v.description) + enc_bytes(v.setting_hash)
        + enc_bytes(v.setting_prev_hash) + enc_setting(v.setting) + enc_opt_bytes(v.result)
}

/// The parse of a whole byte string as a topic record.
pub open spec fn parse_topic_bytes(s: Seq<u8>) -> Option<TopicView> {
    match sparse_bytes(s) {
        Option::Some((id, r1)) => match sparse_bytes(r1) {
            Option::Some((title, r2)) => match sparse_bytes(r2) {
                Option::Some((description, r3)) => match sparse_bytes(r3) {
                    Option::Some((setting_hash, r4)) => match sparse_bytes(r4) {
                        Option::Some((setting_prev_hash, r5)) => match sparse_setting(r5) {
                            Option::Some((setting, r6)) => match sparse_opt_bytes(r6) {
                                Option::Some((result, r7)) => {
                                    if r7.len() == 0 {
                                        Option::Some(
                                            TopicView {
                                                id,
                                                title,
                                                description,
                                                setting_hash,
                                                setting_prev_hash,
                                                setting,
                                                result,
                                            },
                                        )
                                    } else {
                                        Option::None
                                    }
                                },
                                Option::None => Option::None,
                            },
                            Option::None => Option::None,
                        },
                        Option::None => Option::None,
                    },
                    Option::None => Option::None,
                },
                Option::None => Option::None,
            },
            Option::None => Option::None,
        },
        Option::None => Option::None,
    }
}

/// A freshly created topic for a title and description.
pub open spec fn spec_new_topic(title: Seq<u8>, description: Seq<u8>) -> TopicView {
    TopicView {
        id: spec_topic_id(title, description),
        title,
        description,
        setting_hash: "0".spec_bytes(),
        setting_prev_hash: "0".spec_bytes(),
        setting: SettingView { voters: Seq::empty(), plans: Seq::empty(), votes: Seq::empty() },
        result: Option::None,
    }
}

/// The size bounds under which a topic encoding round-trips.
pub open spec fn topic_ok(v: TopicView) -> bool {
    &&& v.id.len() <= u64::MAX
    &&& v.title.len() <= u64::MAX
    &&& v.description.len() <= u64::MAX
    &&& v.setting_hash.len() <= u64::MAX
    &&& v.setting_prev_hash.len() <= u64::MAX
    &&& setting_ok(v.setting)
    &&& (v.result matches Option::Some(b) ==> b.len() <= u64::MAX)
}

/// A topic record parses back to exactly the value it encoded.
pub proof fn lemma_topic_rt(v: TopicView)
    requires
        topic_ok(v),
    ensures
        parse_topic_bytes(enc_topic(v)) == Option::Some(v),
{
    let s7: Seq<u8> = Seq::empty();
    let s6 = enc_opt_bytes(v.result) + s7;
    let s5 = enc_setting(v.setting) + s6;
    let s4 = enc_bytes(v.setting_prev_hash) + s5;
    let s3 = enc_bytes(v.setting_hash) + s4;
    let s2 = enc_bytes(v.description) + s3;
    let s1 = enc_bytes(v.title) + s2;
    assert(enc_topic(v) =~= enc_bytes(v.id) + s1);
    lemma_bytes_rt(v.id, s1);
    assert(sparse_bytes(enc_topic(v)) == Option::Some((v.id, s1)));
    lemma_bytes_rt(v.title, s2);
    assert(sparse_bytes(s1) == Option::Some((v.title, s2)));
    lemma_bytes_rt(v.description, s3);
    assert(sparse_bytes(s2) == Option::Some((v.description, s3)));
    lemma_bytes_rt(v.setting_hash, s4);
    assert(sparse_bytes(s3) == Option::Some((v.setting_hash, s4)));
    lemma_bytes_rt(v.setting_prev_hash, s5);
    assert(sparse_bytes(s4) == Option::Some((v.setting_prev_hash, s5)));
    lemma_setting_rt(v.setting, s6);
    assert(sparse_setting(s5) == Option::Some((v.setting, s6)));
    lemma_opt_bytes_rt(v.result, s7);
    assert(enc_opt_bytes(v.result) + s7 =~= enc_opt_bytes(v.result));
    assert(sparse_opt_bytes(s6) == Option::Some((v.result, s7)));
}

impl Topic {
    /// A fresh topic for a creation request: content-addressed id, the
    /// initial hash sentinel on both hash fields, an empty voting state
    /// and no cached result.
    pub fn from_partial(p: PartialTopic) -> (r: Topic)
        ensures
            r@ == spec_new_topic(p.title@, p.description@),
    {
        let id = topic_id_of(p.title.as_slice(), p.description.as_slice());
        let topic = Topic {
            id,
            title: p.title,
            description: p.description,
            setting_hash: bytes_of("0"),
            setting_prev_hash: bytes_of("0"),
            setting: Setting::new(),
            result: Option::None,
        };
        proof {
            assert(topic@.setting.voters =~= Seq::<Seq<u8>>::empty());
            assert(topic@.setting.plans =~= Seq::<Seq<u8>>::empty());
            assert(topic@.setting.votes =~= Seq::<crate::setting::VoteView>::empty());
            assert(topic@ =~= spec_new_topic(p.title@, p.description@));
        }
        topic
    }

    /// The canonical bytes of this record.
    pub fn encode(&self) -> (r: Vec<u8>)
        ensures
            r@ == enc_topic(self@),
    {
        let mut out: Vec<u8> = Vec::new();
        emit_bytes(&mut out, self.id.as_slice());
        emit_bytes(&mut out, self.title.as_slice());
        emit_bytes(&mut out, self.description.as_slice());
        emit_bytes(&mut out, self.setting_hash.as_slice());
        emit_bytes(&mut out, self.setting_prev_hash.as_slice());
        let setting = self.setting.encode();
        crate::bytes::append_bytes(&mut out, setting.as_slice());
        emit_opt_bytes(&mut out, &self.result);
        proof {
            assert(out@ =~= enc_topic(self@));
        }
        out
    }

    /// Parses a stored byte string as a topic record.
    pub fn decode(data: &[u8]) -> (r: Option<Topic>)
        ensures
            match r {
                Option::Some(t) => parse_topic_bytes(data@) == Option::Some(t@),
                Option::None => parse_topic_bytes(data@) is None,
            },
    {
        proof {
            assert(data@.skip(0) =~= data@);
        }
        let (id, p1) = match parse_bytes(data, 0) {
            Option::Some(x) => x,
            Option::None => {
                return Option::None;
            },
        };
        let (title, p2) = match parse_bytes(data, p1) {
            Option::Some(x) => x,
            Option::None => {
                return Option::None;
            },
        };
        let (description, p3) = match parse_bytes(data, p2) {
            Option::Some(x) => x,
            Option::None => {
                return Option::None;
            },
        };
        let (setting_hash, p4) = match parse_bytes(data, p3) {
            Option::Some(x) => x,
            Option::None => {
                return Option::None;
            },
        };
        let (setting_prev_hash, p5) = match parse_bytes(data, p4) {
            Option::Some(x) => x,
            Option::None => {
                return Option::None;
            },
        };
        let (setting, p6) = match Setting::parse(data, p5) {
            Option::Some(x) => x,
            Option::None => {
                return Option::None;
            },
        };
        let (result, p7) = match parse_opt_bytes(data, p6) {
            Option::Some(x) => x,
            Option::None => {
                return Option::None;
            },
        };
        if p7 != data.len() {
            return Option::None;
        }
        assert(data@.skip(p7 as int).len() == 0);
        let topic = Topic { id, title, description, setting_hash, setting_prev_hash, setting, result };
        Option::Some(topic)
    }

    /// Adds a plan id to the voting state.
    pub fn add_plan_id(&mut self, plan_id: &[u8])
        ensures
            final(self)@ == (TopicView {
                setting: if old(self)@.setting.plans.contains(plan_id@) {
                    old(self)@.setting
                } else {
                    SettingView {
                        plans: old(self)@.setting.plans.push(plan_id@),
                        ..old(self)@.setting
                    }
                },
                ..old(self)@
            }),
    {
        self.setting.add_plan(plan_id);
        proof {
            assert(final(self)@ =~= (TopicView {
                setting: if old(self)@.setting.plans.contains(plan_id@) {
                    old(self)@.setting
                } else {
                    SettingView {
                        plans: old(self)@.setting.plans.push(plan_id@),
                        ..old(self)@.setting
                    }
                },
                ..old(self)@
            }));
        }
    }

    /// Removes a plan id from the voting state.
    pub fn remove_plan_id(&mut self, plan_id: &[u8])
        ensures
            final(self)@ == (TopicView {
                setting: SettingView {
                    plans: row_remove(old(self)@.setting.plans, plan_id@),
                    ..old(self)@.setting
                },
                ..old(self)@
            }),
    {
        self.setting.delete_plan(plan_id);
    }

    /// Registers a voter on the voting state.
    pub fn add_user(&mut self, user_id: &[u8])
        ensures
            final(self)@ == (TopicView {
                setting: if old(self)@.setting.voters.contains(user_id@) {
                    old(self)@.setting
                } else {
                    SettingView {
                        voters: old(self)@.setting.voters.push(user_id@),
                        ..old(self)@.setting
                    }
                },
                ..old(self)@
            }),
    {
        self.setting.add_voter(user_id);
    }

    /// Removes a voter from the voting state.
    pub fn remove_user(&mut self, user_id: &[u8])
        ensures
            final(self)@ == (TopicView {
                setting: SettingView {
                    voters: row_remove(old(self)@.setting.voters, user_id@),
                    ..old(self)@.setting
                },
                ..old(self)@
            }),
    {
        self.setting.delete_voter(user_id);
    }

    /// The registered voters.
    pub fn get_users(&self) -> (r: Vec<Vec<u8>>)
        ensures
            seq_views(r@) == self@.setting.voters,
    {
        self.setting.get_voters()
    }

    /// The canonical bytes of the voting state alone, as cached under
    /// `setting:{hash}`.
    pub fn setting_encoded(&self) -> (r: Vec<u8>)
        ensures
            r@ == enc_setting(self@.setting),
    {
        self.setting.encode()
    }

    /// Overwrites the vote of `user_id` (a voter not registered changes
    /// nothing) and returns the content hash of the resulting state.
    pub fn insert_vote(&mut self, user_id: &[u8], vote: Vec<VoteEntry>) -> (r: Vec<u8>)
        ensures
            final(self)@ == (TopicView {
                setting: spec_overwrite_vote(old(self)@.setting, user_id@, entry_views(vote@)),
                ..old(self)@
            }),
            r@ == spec_setting_hash(final(self)@.setting),
    {
        self.setting.overwrite_vote(user_id, vote);
        self.setting.based_hash()
    }

    /// Rolls the hash forward: the previous hash is kept for audit.
    pub fn update_setting_hash(&mut self, new_hash: &[u8])
        ensures
            final(self)@ == (TopicView {
                setting_hash: new_hash@,
                setting_prev_hash: old(self)@.setting_hash,
                ..old(self)@
            }),
    {
        let fresh = vstd::slice::slice_to_vec(new_hash);
        let prev = vstd::slice::slice_to_vec(self.setting_hash.as_slice());
        self.setting_hash = fresh;
        self.setting_prev_hash = prev;
    }

    /// Caches a tally result on the record.
    pub fn set_result(&mut self, result: Vec<u8>)
        ensures
            final(self)@ == (TopicView { result: Option::Some(result@), ..old(self)@ }),
    {
        self.result = Option::Some(result);
    }
}

impl Settable for Topic {
    open spec fn spec_domain_prefix() -> Seq<u8> {
        "topic".spec_bytes()
    }

    fn domain_prefix() -> (r: Vec<u8>) {
        bytes_of("topic")
    }

    open spec fn spec_id(&self) -> Seq<u8> {
        self.id@
    }

    fn id(&self) -> (r: Vec<u8>) {
        vstd::slice::slice_to_vec(self.id.as_slice())
    }

    open spec fn spec_list_item(&self) -> Seq<u8> {
        enc_pair(self.id@, self.title@)
    }

    fn list_item(&self) -> (r: Vec<u8>) {
        encode_pair(self.id.as_slice(), self.title.as_slice())
    }

    open spec fn spec_encoded(&self) -> Seq<u8> {
        enc_topic(self@)
    }

    fn encoded(&self) -> (r: Vec<u8>) {
        self.encode()
    }
}

} // verus!
