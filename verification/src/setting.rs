//! The voting state of a topic: registered voters, plan ids, and each
//! voter's weighted vote, with its canonical encoding and content hash.
//!
//! The hash of the canonical encoding gates recomputation of the tally:
//! a mutation that leaves the encoding unchanged leaves the hash
//! unchanged, and the coordinator then skips both persistence and the
//! tally engine.

use vstd::prelude::*;

verus! {

use crate::codec::{
    enc_each,
    lemma_enc_each_push,
    enc_bytes,
    enc_u64,
    enc_list,
    sparse_bytes,
    sparse_u64,
    sparse_list,
    sparse_n,
    lemma_bytes_rt,
    lemma_u64_rt,
    lemma_list_rt,
    parse_bytes,
    parse_u64,
    emit_bytes,
    emit_u64,
};
use crate::hashing::{spec_content_id, content_id};
use crate::bytes::eq_bytes;

/// The views of a row of byte vectors.
pub open spec fn seq_views(s: Seq<Vec<u8>>) -> Seq<Seq<u8>> {
    Seq::new(s.len(), |i: int| s[i]@)
}

/// One weighted choice within a vote.
#[derive(Debug, PartialEq, Eq)]
pub struct VoteEntry {
    pub plan: Vec<u8>,
    pub weight: u64,
}

#[verifier::ext_equal]
pub struct EntryView {
    pub plan: Seq<u8>,
    pub weight: u64,
}

impl View for VoteEntry {
    type V = EntryView;

    open spec fn view(&self) -> EntryView {
        EntryView { plan: self.plan@, weight: self.weight }
    }
}

/// One voter's whole vote: a mapping from plan id to weight.
#[derive(Debug, PartialEq, Eq)]
pub struct Vote {
    pub voter: Vec<u8>,
    pub entries: Vec<VoteEntry>,
}

#[verifier::ext_equal]
pub struct VoteView {
    pub voter: Seq<u8>,
    pub entries: Seq<EntryView>,
}

impl View for Vote {
    type V = VoteView;

    open spec fn view(&self) -> VoteView {
        VoteView { voter: self.voter@, entries: Seq::new(self.entries@.len(), |i: int| self.entries@[i]@) }
    }
}

/// The voting state of a topic.
#[derive(Debug, PartialEq, Eq)]
pub struct Setting {
    pub voters: Vec<Vec<u8>>,
    pub plans: Vec<Vec<u8>>,
    pub votes: Vec<Vote>,
}

#[verifier::ext_equal]
pub struct SettingView {
    pub voters: Seq<Seq<u8>>,
    pub plans: Seq<Seq<u8>>,
    pub votes: Seq<VoteView>,
}

impl View for Setting {
    type V = SettingView;

    open spec fn view(&self) -> SettingView {
        SettingView {
            voters: seq_views(self.voters@),
            plans: seq_views(self.plans@),
            votes: Seq::new(self.votes@.len(), |i: int| self.votes@[i]@),
        }
    }
}

// ---------------------------------------------------------------------
// canonical encoding
// ---------------------------------------------------------------------
/// The element encoder of a byte-string list.
pub open spec fn e_bytes() -> spec_fn(Seq<u8>) -> Seq<u8> {
    |b: Seq<u8>| enc_bytes(b)
}

/// The element parser of a byte-string list.
pub open spec fn p_bytes() -> spec_fn(Seq<u8>) -> Option<(Seq<u8>, Seq<u8>)> {
    |s: Seq<u8>| sparse_bytes(s)
}

pub open spec fn enc_entry(e: EntryView) -> Seq<u8> {
    enc_bytes(e.plan) + enc_u64(e.weight)
}

pub open spec fn e_entry() -> spec_fn(EntryView) -> Seq<u8> {
    |e: EntryView| enc_entry(e)
}

pub open spec fn sparse_entry(s: Seq<u8>) -> Option<(EntryView, Seq<u8>)> {
    match sparse_bytes(s) {
        Option::Some((plan, r1)) => match sparse_u64(r1) {
            Option::Some((weight, r2)) => Option::Some((EntryView { plan, weight }, r2)),
            Option::None => Option::None,
        },
        Option::None => Option::None,
    }
}

pub open spec fn p_entry() -> spec_fn(Seq<u8>) -> Option<(EntryView, Seq<u8>)> {
    |s: Seq<u8>| sparse_entry(s)
}

pub open spec fn enc_vote(v: VoteView) -> Seq<u8> {
    enc_bytes(v.voter) + enc_list(v.entries, e_entry())
}

pub open spec fn e_vote() -> spec_fn(VoteView) -> Seq<u8> {
    |v: VoteView| enc_vote(v)
}

pub open spec fn sparse_vote(s: Seq<u8>) -> Option<(VoteView, Seq<u8>)> {
    match sparse_bytes(s) {
        Option::Some((voter, r1)) => match sparse_list(r1, p_entry()) {
            Option::Some((entries, r2)) => Option::Some((VoteView { voter, entries }, r2)),
            Option::None => Option::None,
        },
        Option::None => Option::None,
    }
}

pub open spec fn p_vote() -> spec_fn(Seq<u8>) -> Option<(VoteView, Seq<u8>)> {
    |s: Seq<u8>| sparse_vote(s)
}

/// The canonical encoding of a voting state.
pub open spec fn enc_setting(sv: SettingView) -> Seq<u8> {
    enc_list(sv.voters, e_bytes()) + enc_list(sv.plans, e_bytes()) + enc_list(sv.votes, e_vote())
}

/// The parse of a whole byte string as a voting state.
pub open spec fn sparse_setting(s: Seq<u8>) -> Option<(SettingView, Seq<u8>)> {
    match sparse_list(s, p_bytes()) {
        Option::Some((voters, r1)) => match sparse_list(r1, p_bytes()) {
            Option::Some((plans, r2)) => match sparse_list(r2, p_vote()) {
                Option::Some((votes, r3)) => Option::Some(
                    (SettingView { voters, plans, votes }, r3),
                ),
                Option::None => Option::None,
            },
            Option::None => Option::None,
        },
        Option::None => Option::None,
    }
}

/// The content hash of a voting state.
pub open spec fn spec_setting_hash(sv: SettingView) -> Seq<u8> {
    spec_content_id(enc_setting(sv))
}

// ---------------------------------------------------------------------
// size bounds under which encodings round-trip
// ---------------------------------------------------------------------
pub open spec fn bytes_ok(b: Seq<u8>) -> bool {
    b.len() <= u64::MAX
}

pub open spec fn ok_bytes() -> spec_fn(Seq<u8>) -> bool {
    |b: Seq<u8>| bytes_ok(b)
}

pub open spec fn entry_ok(e: EntryView) -> bool {
    e.plan.len() <= u64::MAX
}

pub open spec fn ok_entry() -> spec_fn(EntryView) -> bool {
    |e: EntryView| entry_ok(e)
}

pub open spec fn vote_ok(v: VoteView) -> bool {
    &&& v.voter.len() <= u64::MAX
    &&& v.entries.len() <= u64::MAX
    &&& forall|i: int| 0 <= i < v.entries.len() ==> entry_ok(#[trigger] v.entries[i])
}

pub open spec fn ok_vote() -> spec_fn(VoteView) -> bool {
    |v: VoteView| vote_ok(v)
}

pub open spec fn setting_ok(sv: SettingView) -> bool {
    &&& sv.voters.len() <= u64::MAX
    &&& sv.plans.len() <= u64::MAX
    &&& sv.votes.len() <= u64::MAX
    &&& forall|i: int| 0 <= i < sv.voters.len() ==> bytes_ok(#[trigger] sv.voters[i])
    &&& forall|i: int| 0 <= i < sv.plans.len() ==> bytes_ok(#[trigger] sv.plans[i])
    &&& forall|i: int| 0 <= i < sv.votes.len() ==> vote_ok(#[trigger] sv.votes[i])
}

// ---------------------------------------------------------------------
// round trips
// ---------------------------------------------------------------------
pub proof fn lemma_entry_rt(e: EntryView, rest: Seq<u8>)
    requires
        entry_ok(e),
    ensures
        sparse_entry(enc_entry(e) + rest) == Option::Some((e, rest)),
{
    assert(enc_entry(e) + rest =~= enc_bytes(e.plan) + (enc_u64(e.weight) + rest));
    lemma_bytes_rt(e.plan, enc_u64(e.weight) + rest);
    lemma_u64_rt(e.weight, rest);
}

pub proof fn lemma_vote_rt(v: VoteView, rest: Seq<u8>)
    requires
        vote_ok(v),
    ensures
        sparse_vote(enc_vote(v) + rest) == Option::Some((v, rest)),
{
    assert(enc_vote(v) + rest =~= enc_bytes(v.voter) + (enc_list(v.entries, e_entry()) + rest));
    lemma_bytes_rt(v.voter, enc_list(v.entries, e_entry()) + rest);
    assert forall|x: EntryView, r: Seq<u8>| #[trigger] p_entry()(e_entry()(x) + r) == Option::Some(
        (x, r),
    ) || !ok_entry()(x) by {
        if entry_ok(x) {
            lemma_entry_rt(x, r);
        }
    }
    lemma_list_rt(v.entries, rest, e_entry(), p_entry(), ok_entry());
}

pub proof fn lemma_setting_rt(sv: SettingView, rest: Seq<u8>)
    requires
        setting_ok(sv),
    ensures
        sparse_setting(enc_setting(sv) + rest) == Option::Some((sv, rest)),
{
    let s1 = enc_list(sv.voters, e_bytes());
    let s2 = enc_list(sv.plans, e_bytes());
    let s3 = enc_list(sv.votes, e_vote());
    assert(enc_setting(sv) + rest =~= s1 + (s2 + (s3 + rest)));
    assert forall|x: Seq<u8>, r: Seq<u8>| #[trigger] p_bytes()(e_bytes()(x) + r) == Option::Some(
        (x, r),
    ) || !ok_bytes()(x) by {
        if bytes_ok(x) {
            lemma_bytes_rt(x, r);
        }
    }
    assert forall|x: VoteView, r: Seq<u8>| #[trigger] p_vote()(e_vote()(x) + r) == Option::Some(
        (x, r),
    ) || !ok_vote()(x) by {
        if vote_ok(x) {
            lemma_vote_rt(x, r);
        }
    }
    lemma_list_rt(sv.voters, s2 + (s3 + rest), e_bytes(), p_bytes(), ok_bytes());
    lemma_list_rt(sv.plans, s3 + rest, e_bytes(), p_bytes(), ok_bytes());
    lemma_list_rt(sv.votes, rest, e_vote(), p_vote(), ok_vote());
}


// ---------------------------------------------------------------------
// exec encoding
// ---------------------------------------------------------------------
/// Appends the encoding of a list of byte strings to `out`.
pub fn emit_bytes_list(out: &mut Vec<u8>, items: &Vec<Vec<u8>>)
    ensures
        final(out)@ == old(out)@ + enc_list(seq_views(items@), e_bytes()),
{
    let n = items.len();
    emit_u64(out, n as u64);
    let ghost row = seq_views(items@);
    proof {
        assert(row.len() == n);
        assert(enc_each(row.take(0), e_bytes()) =~= Seq::<u8>::empty());
        assert(out@ =~= old(out)@ + enc_u64(n as u64) + enc_each(row.take(0), e_bytes()));
    }
    let mut i: usize = 0;
    while i < n
        invariant
            n == items@.len(),
            row == seq_views(items@),
            i <= n,
            out@ == old(out)@ + enc_u64(n as u64) + enc_each(row.take(i as int), e_bytes()),
        decreases n - i,
    {
        emit_bytes(out, items[i].as_slice());
        proof {
            lemma_enc_each_push(row.take(i as int), row[i as int], e_bytes());
            assert(row.take(i as int).push(row[i as int]) =~= row.take(i + 1));
            assert(out@ =~= old(out)@ + enc_u64(n as u64) + enc_each(row.take(i + 1), e_bytes()));
        }
        i = i + 1;
    }
    proof {
        assert(row.take(n as int) =~= row);
        assert(old(out)@ + enc_u64(n as u64) + enc_each(row, e_bytes()) =~= old(out)@ + enc_list(
            row,
            e_bytes(),
        ));
    }
}

impl VoteEntry {
    /// Appends the canonical encoding of this entry to `out`.
    pub fn emit(&self, out: &mut Vec<u8>)
        ensures
            final(out)@ == old(out)@ + enc_entry(self@),
    {
        emit_bytes(out, self.plan.as_slice());
        emit_u64(out, self.weight);
        proof {
            assert(out@ =~= old(out)@ + enc_entry(self@));
        }
    }
}

impl Vote {
    /// Appends the canonical encoding of this vote to `out`.
    pub fn emit(&self, out: &mut Vec<u8>)
        ensures
            final(out)@ == old(out)@ + enc_vote(self@),
    {
        emit_bytes(out, self.voter.as_slice());
        let n = self.entries.len();
        emit_u64(out, n as u64);
        let ghost row = self@.entries;
        proof {
            assert(row.len() == n);
            assert(enc_each(row.take(0), e_entry()) =~= Seq::<u8>::empty());
            assert(out@ =~= old(out)@ + enc_bytes(self@.voter) + enc_u64(n as u64) + enc_each(
                row.take(0),
                e_entry(),
            ));
        }
        let mut i: usize = 0;
        while i < n
            invariant
                n == self.entries@.len(),
                row == self@.entries,
                i <= n,
                out@ == old(out)@ + enc_bytes(self@.voter) + enc_u64(n as u64) + enc_each(
                    row.take(i as int),
                    e_entry(),
                ),
            decreases n - i,
        {
            self.entries[i].emit(out);
            proof {
                lemma_enc_each_push(row.take(i as int), row[i as int], e_entry());
                assert(row.take(i as int).push(row[i as int]) =~= row.take(i + 1));
                assert(out@ =~= old(out)@ + enc_bytes(self@.voter) + enc_u64(n as u64) + enc_each(
                    row.take(i + 1),
                    e_entry(),
                ));
            }
            i = i + 1;
        }
        proof {
            assert(row.take(n as int) =~= row);
            assert(old(out)@ + enc_bytes(self@.voter) + enc_u64(n as u64) + enc_each(
                row,
                e_entry(),
            ) =~= old(out)@ + enc_vote(self@));
        }
    }
}

impl Setting {
    /// An empty voting state.
    pub fn new() -> (r: Setting)
        ensures
            r@.voters.len() == 0,
            r@.plans.len() == 0,
            r@.votes.len() == 0,
    {
        Setting { voters: Vec::new(), plans: Vec::new(), votes: Vec::new() }
    }

    /// The canonical bytes of this voting state.
    pub fn encode(&self) -> (r: Vec<u8>)
        ensures
            r@ == enc_setting(self@),
    {
        let mut out: Vec<u8> = Vec::new();
        emit_bytes_list(&mut out, &self.voters);
        emit_bytes_list(&mut out, &self.plans);
        let n = self.votes.len();
        emit_u64(&mut out, n as u64);
        let ghost row = self@.votes;
        let ghost head = enc_list(self@.voters, e_bytes()) + enc_list(self@.plans, e_bytes())
            + enc_u64(n as u64);
        proof {
            assert(row.len() == n);
            assert(enc_each(row.take(0), e_vote()) =~= Seq::<u8>::empty());
            assert(out@ =~= head + enc_each(row.take(0), e_vote()));
        }
        let mut i: usize = 0;
        while i < n
            invariant
                n == self.votes@.len(),
                row == self@.votes,
                head == enc_list(self@.voters, e_bytes()) + enc_list(self@.plans, e_bytes())
                    + enc_u64(n as u64),
                i <= n,
                out@ == head + enc_each(row.take(i as int), e_vote()),
            decreases n - i,
        {
            self.votes[i].emit(&mut out);
            proof {
                lemma_enc_each_push(row.take(i as int), row[i as int], e_vote());
                assert(row.take(i as int).push(row[i as int]) =~= row.take(i + 1));
                assert(out@ =~= head + enc_each(row.take(i + 1), e_vote()));
            }
            i = i + 1;
        }
        proof {
            assert(row.take(n as int) =~= row);
            assert(head + enc_each(row, e_vote()) =~= enc_setting(self@));
        }
        out
    }

    /// The content hash of this voting state.
    pub fn based_hash(&self) -> (r: Vec<u8>)
        ensures
            r@ == spec_setting_hash(self@),
    {
        let encoded = self.encode();
        content_id(encoded.as_slice())
    }
}


// ---------------------------------------------------------------------
// exec parsing
// ---------------------------------------------------------------------
/// Parses a counted list of byte strings.
pub fn parse_bytes_list(input: &[u8], pos: usize) -> (r: Option<(Vec<Vec<u8>>, usize)>)
    requires
        pos <= input@.len(),
    ensures
        match r {
            Option::Some(p) => pos < p.1 <= input@.len() && sparse_list(
                input@.skip(pos as int),
                p_bytes(),
            ) == Option::Some((seq_views(p.0@), input@.skip(p.1 as int))),
            Option::None => sparse_list(input@.skip(pos as int), p_bytes()) is None,
        },
{
    let (n, p0) = match parse_u64(input, pos) {
        Option::Some(x) => x,
        Option::None => {
            return Option::None;
        },
    };
    let mut items: Vec<Vec<u8>> = Vec::new();
    let mut cur: usize = p0;
    let mut i: u64 = 0;
    proof {
        assert(seq_views(items@) =~= Seq::<Seq<u8>>::empty());
    }
    loop
        invariant_except_break
            i <= n,
            pos < cur <= input@.len(),
            seq_views(items@).len() == i,
            sparse_u64(input@.skip(pos as int)) == Option::Some((n, input@.skip(p0 as int))),
            sparse_n(input@.skip(p0 as int), n as nat, p_bytes()) == (match sparse_n(
                input@.skip(cur as int),
                (n - i) as nat,
                p_bytes(),
            ) {
                Option::Some(q) => Option::Some((seq_views(items@) + q.0, q.1)),
                Option::None => Option::None,
            }),
        ensures
            pos < cur <= input@.len(),
            sparse_list(input@.skip(pos as int), p_bytes()) == Option::Some(
                (seq_views(items@), input@.skip(cur as int)),
            ),
        decreases n - i,
    {
        if i == n {
            proof {
                assert(seq_views(items@) + Seq::<Seq<u8>>::empty() =~= seq_views(items@));
            }
            break;
        }
        match parse_bytes(input, cur) {
            Option::None => {
                return Option::None;
            },
            Option::Some((b, nxt)) => {
                let ghost pre = items@;
                let ghost cur0 = cur;
                items.push(b);
                cur = nxt;
                i = i + 1;
                proof {
                    assert(seq_views(items@) =~= seq_views(pre).push(b@));
                    match sparse_n(input@.skip(cur as int), (n - i) as nat, p_bytes()) {
                        Option::Some(q) => {
                            assert(seq_views(pre) + (seq![b@] + q.0) =~= seq_views(items@) + q.0);
                        },
                        Option::None => {},
                    }
                }
            },
        }
    }
    Option::Some((items, cur))
}

/// The views of a row of vote entries.
pub open spec fn entry_views(s: Seq<VoteEntry>) -> Seq<EntryView> {
    Seq::new(s.len(), |i: int| s[i]@)
}

/// The views of a row of votes.
pub open spec fn vote_views(s: Seq<Vote>) -> Seq<VoteView> {
    Seq::new(s.len(), |i: int| s[i]@)
}

/// Parses a counted list of vote entries.
pub fn parse_entry_list(input: &[u8], pos: usize) -> (r: Option<(Vec<VoteEntry>, usize)>)
    requires
        pos <= input@.len(),
    ensures
        match r {
            Option::Some(p) => pos < p.1 <= input@.len() && sparse_list(
                input@.skip(pos as int),
                p_entry(),
            ) == Option::Some((entry_views(p.0@), input@.skip(p.1 as int))),
            Option::None => sparse_list(input@.skip(pos as int), p_entry()) is None,
        },
{
    let (n, p0) = match parse_u64(input, pos) {
        Option::Some(x) => x,
        Option::None => {
            return Option::None;
        },
    };
    let mut items: Vec<VoteEntry> = Vec::new();
    let mut cur: usize = p0;
    let mut i: u64 = 0;
    proof {
        assert(entry_views(items@) =~= Seq::<EntryView>::empty());
    }
    loop
        invariant_except_break
            i <= n,
            pos < cur <= input@.len(),
            entry_views(items@).len() == i,
            sparse_u64(input@.skip(pos as int)) == Option::Some((n, input@.skip(p0 as int))),
            sparse_n(input@.skip(p0 as int), n as nat, p_entry()) == (match sparse_n(
                input@.skip(cur as int),
                (n - i) as nat,
                p_entry(),
            ) {
                Option::Some(q) => Option::Some((entry_views(items@) + q.0, q.1)),
                Option::None => Option::None,
            }),
        ensures
            pos < cur <= input@.len(),
            sparse_list(input@.skip(pos as int), p_entry()) == Option::Some(
                (entry_views(items@), input@.skip(cur as int)),
            ),
        decreases n - i,
    {
        if i == n {
            proof {
                assert(entry_views(items@) + Seq::<EntryView>::empty() =~= entry_views(items@));
            }
            break;
        }
        let (plan, p1) = match parse_bytes(input, cur) {
            Option::None => {
                return Option::None;
            },
            Option::Some(x) => x,
        };
        let (weight, p2) = match parse_u64(input, p1) {
            Option::None => {
                proof {
                    assert(sparse_entry(input@.skip(cur as int)) is None);
                }
                return Option::None;
            },
            Option::Some(x) => x,
        };
        let ghost pre = items@;
        let ghost cur0 = cur;
        items.push(VoteEntry { plan, weight });
        cur = p2;
        i = i + 1;
        proof {
            let e = EntryView { plan: plan@, weight };
            assert(sparse_entry(input@.skip(cur0 as int)) == Option::Some(
                (e, input@.skip(cur as int)),
            ));
            assert(entry_views(items@) =~= entry_views(pre).push(e));
            match sparse_n(input@.skip(cur as int), (n - i) as nat, p_entry()) {
                Option::Some(q) => {
                    assert(entry_views(pre) + (seq![e] + q.0) =~= entry_views(items@) + q.0);
                },
                Option::None => {},
            }
        }
    }
    Option::Some((items, cur))
}

/// Parses a counted list of votes.
pub fn parse_vote_list(input: &[u8], pos: usize) -> (r: Option<(Vec<Vote>, usize)>)
    requires
        pos <= input@.len(),
    ensures
        match r {
            Option::Some(p) => pos < p.1 <= input@.len() && sparse_list(
                input@.skip(pos as int),
                p_vote(),
            ) == Option::Some((vote_views(p.0@), input@.skip(p.1 as int))),
            Option::None => sparse_list(input@.skip(pos as int), p_vote()) is None,
        },
{
    let (n, p0) = match parse_u64(input, pos) {
        Option::Some(x) => x,
        Option::None => {
            return Option::None;
        },
    };
    let mut items: Vec<Vote> = Vec::new();
    let mut cur: usize = p0;
    let mut i: u64 = 0;
    proof {
        assert(vote_views(items@) =~= Seq::<VoteView>::empty());
    }
    loop
        invariant_except_break
            i <= n,
            pos < cur <= input@.len(),
            vote_views(items@).len() == i,
            sparse_u64(input@.skip(pos as int)) == Option::Some((n, input@.skip(p0 as int))),
            sparse_n(input@.skip(p0 as int), n as nat, p_vote()) == (match sparse_n(
                input@.skip(cur as int),
                (n - i) as nat,
                p_vote(),
            ) {
                Option::Some(q) => Option::Some((vote_views(items@) + q.0, q.1)),
                Option::None => Option::None,
            }),
        ensures
            pos < cur <= input@.len(),
            sparse_list(input@.skip(pos as int), p_vote()) == Option::Some(
                (vote_views(items@), input@.skip(cur as int)),
            ),
        decreases n - i,
    {
        if i == n {
            proof {
                assert(vote_views(items@) + Seq::<VoteView>::empty() =~= vote_views(items@));
            }
            break;
        }
        let (voter, p1) = match parse_bytes(input, cur) {
            Option::None => {
                return Option::None;
            },
            Option::Some(x) => x,
        };
        let (entries, p2) = match parse_entry_list(input, p1) {
            Option::None => {
                proof {
                    assert(sparse_vote(input@.skip(cur as int)) is None);
                }
                return Option::None;
            },
            Option::Some(x) => x,
        };
        let ghost pre = items@;
        let ghost cur0 = cur;
        let vote = Vote { voter, entries };
        let ghost v = vote@;
        items.push(vote);
        cur = p2;
        i = i + 1;
        proof {
            assert(sparse_vote(input@.skip(cur0 as int)) == Option::Some(
                (v, input@.skip(cur as int)),
            ));
            assert(vote_views(items@) =~= vote_views(pre).push(v));
            match sparse_n(input@.skip(cur as int), (n - i) as nat, p_vote()) {
                Option::Some(q) => {
                    assert(vote_views(pre) + (seq![v] + q.0) =~= vote_views(items@) + q.0);
                },
                Option::None => {},
            }
        }
    }
    Option::Some((items, cur))
}

impl Setting {
    /// Parses a voting state, returning the position after it.
    pub fn parse(input: &[u8], pos: usize) -> (r: Option<(Setting, usize)>)
        requires
            pos <= input@.len(),
        ensures
            match r {
                Option::Some(p) => pos < p.1 <= input@.len() && sparse_setting(
                    input@.skip(pos as int),
                ) == Option::Some((p.0@, input@.skip(p.1 as int))),
                Option::None => sparse_setting(input@.skip(pos as int)) is None,
            },
    {
        let (voters, p1) = match parse_bytes_list(input, pos) {
            Option::None => {
                return Option::None;
            },
            Option::Some(x) => x,
        };
        let (plans, p2) = match parse_bytes_list(input, p1) {
            Option::None => {
                return Option::None;
            },
            Option::Some(x) => x,
        };
        let (votes, p3) = match parse_vote_list(input, p2) {
            Option::None => {
                return Option::None;
            },
            Option::Some(x) => x,
        };
        let setting = Setting { voters, plans, votes };
        proof {
            assert(setting@ =~= SettingView {
                voters: seq_views(voters@),
                plans: seq_views(plans@),
                votes: vote_views(votes@),
            });
        }
        Option::Some((setting, p3))
    }
}


// ---------------------------------------------------------------------
// mutation
// ---------------------------------------------------------------------
/// The row with every occurrence of `x` removed.
pub open spec fn row_remove(s: Seq<Seq<u8>>, x: Seq<u8>) -> Seq<Seq<u8>>
    decreases s.len(),
{
    if s.len() == 0 {
        Seq::empty()
    } else if s.last() == x {
        row_remove(s.drop_last(), x)
    } else {
        row_remove(s.drop_last(), x).push(s.last())
    }
}

/// The votes with every vote by `u` removed.
pub open spec fn votes_remove(vs: Seq<VoteView>, u: Seq<u8>) -> Seq<VoteView>
    decreases vs.len(),
{
    if vs.len() == 0 {
        Seq::empty()
    } else if vs.last().voter == u {
        votes_remove(vs.drop_last(), u)
    } else {
        votes_remove(vs.drop_last(), u).push(vs.last())
    }
}

/// What overwriting a vote does: the whole vote of an eligible voter is
/// replaced; a voter not in `voters` changes nothing.
pub open spec fn spec_overwrite_vote(sv: SettingView, u: Seq<u8>, entries: Seq<EntryView>) -> SettingView {
    if sv.voters.contains(u) {
        SettingView {
            votes: votes_remove(sv.votes, u).push(VoteView { voter: u, entries }),
            ..sv
        }
    } else {
        sv
    }
}

/// Whether a row holds `x`.
fn row_contains(row: &Vec<Vec<u8>>, x: &[u8]) -> (r: bool)
    ensures
        r == seq_views(row@).contains(x@),
{
    let n = row.len();
    let mut i: usize = 0;
    while i < n
        invariant
            n == row@.len(),
            i <= n,
            forall|j: int| 0 <= j < i ==> seq_views(row@)[j] != x@,
        decreases n - i,
    {
        if eq_bytes(row[i].as_slice(), x) {
            assert(seq_views(row@)[i as int] == x@);
            return true;
        }
        i = i + 1;
    }
    assert(!seq_views(row@).contains(x@));
    false
}

/// Removes every occurrence of `x` from the row.
fn row_delete(row: &mut Vec<Vec<u8>>, x: &[u8])
    ensures
        seq_views(final(row)@) == row_remove(seq_views(old(row)@), x@),
{
    let n = row.len();
    let mut out: Vec<Vec<u8>> = Vec::new();
    let mut i: usize = 0;
    proof {
        assert(seq_views(out@) =~= row_remove(seq_views(row@).take(0), x@));
    }
    while i < n
        invariant
            n == row@.len(),
            row@ == old(row)@,
            i <= n,
            seq_views(out@) == row_remove(seq_views(row@).take(i as int), x@),
        decreases n - i,
    {
        let keep = !eq_bytes(row[i].as_slice(), x);
        proof {
            assert(seq_views(row@).take(i + 1).drop_last() =~= seq_views(row@).take(i as int));
            assert(seq_views(row@).take(i + 1).last() == seq_views(row@)[i as int]);
        }
        if keep {
            let ghost pre = out@;
            out.push(vstd::slice::slice_to_vec(row[i].as_slice()));
            proof {
                assert(seq_views(out@) =~= seq_views(pre).push(seq_views(row@)[i as int]));
            }
        }
        i = i + 1;
    }
    proof {
        assert(seq_views(row@).take(n as int) =~= seq_views(row@));
    }
    *row = out;
}

impl Vote {
    /// An equal, independent copy of this vote.
    pub fn duplicate(&self) -> (r: Vote)
        ensures
            r@ == self@,
    {
        let voter = vstd::slice::slice_to_vec(self.voter.as_slice());
        let n = self.entries.len();
        let mut entries: Vec<VoteEntry> = Vec::new();
        let mut i: usize = 0;
        while i < n
            invariant
                n == self.entries@.len(),
                i <= n,
                entries@.len() == i,
                forall|j: int| 0 <= j < i ==> entries@[j]@ == self.entries@[j]@,
            decreases n - i,
        {
            let e = &self.entries[i];
            entries.push(VoteEntry { plan: vstd::slice::slice_to_vec(e.plan.as_slice()), weight: e.weight });
            i = i + 1;
        }
        let out = Vote { voter, entries };
        proof {
            assert(out@ =~= self@);
        }
        out
    }
}

impl Setting {
    /// Registers a voter; a voter already registered is not duplicated.
    pub fn add_voter(&mut self, user_id: &[u8])
        ensures
            final(self)@ == if old(self)@.voters.contains(user_id@) {
                old(self)@
            } else {
                SettingView { voters: old(self)@.voters.push(user_id@), ..old(self)@ }
            },
    {
        if !row_contains(&self.voters, user_id) {
            let ghost pre = self@;
            self.voters.push(vstd::slice::slice_to_vec(user_id));
            proof {
                assert(self@ =~= SettingView { voters: pre.voters.push(user_id@), ..pre });
            }
        }
    }

    /// Removes a voter. The voter's cast vote, if any, stays recorded
    /// until overwritten: removal bars future ballots, it does not
    /// strike past ones.
    pub fn delete_voter(&mut self, user_id: &[u8])
        ensures
            final(self)@ == (SettingView {
                voters: row_remove(old(self)@.voters, user_id@),
                ..old(self)@
            }),
    {
        let ghost pre = self@;
        row_delete(&mut self.voters, user_id);
        proof {
            assert(self@ =~= SettingView { voters: row_remove(pre.voters, user_id@), ..pre });
        }
    }

    /// Adds a plan id; a plan already listed is not duplicated.
    pub fn add_plan(&mut self, plan_id: &[u8])
        ensures
            final(self)@ == if old(self)@.plans.contains(plan_id@) {
                old(self)@
            } else {
                SettingView { plans: old(self)@.plans.push(plan_id@), ..old(self)@ }
            },
    {
        if !row_contains(&self.plans, plan_id) {
            let ghost pre = self@;
            self.plans.push(vstd::slice::slice_to_vec(plan_id));
            proof {
                assert(self@ =~= SettingView { plans: pre.plans.push(plan_id@), ..pre });
            }
        }
    }

    /// Removes a plan id.
    pub fn delete_plan(&mut self, plan_id: &[u8])
        ensures
            final(self)@ == (SettingView {
                plans: row_remove(old(self)@.plans, plan_id@),
                ..old(self)@
            }),
    {
        let ghost pre = self@;
        row_delete(&mut self.plans, plan_id);
        proof {
            assert(self@ =~= SettingView { plans: row_remove(pre.plans, plan_id@), ..pre });
        }
    }

    /// The registered voters.
    pub fn get_voters(&self) -> (r: Vec<Vec<u8>>)
        ensures
            seq_views(r@) == self@.voters,
    {
        let n = self.voters.len();
        let mut out: Vec<Vec<u8>> = Vec::new();
        let mut i: usize = 0;
        while i < n
            invariant
                n == self.voters@.len(),
                i <= n,
                out@.len() == i,
                forall|j: int| 0 <= j < i ==> out@[j]@ == self.voters@[j]@,
            decreases n - i,
        {
            out.push(vstd::slice::slice_to_vec(self.voters[i].as_slice()));
            i = i + 1;
        }
        proof {
            assert(seq_views(out@) =~= self@.voters);
        }
        out
    }

    /// Replaces (never merges) the whole vote of `user_id`, if and only
    /// if `user_id` is a registered voter; otherwise the state is left
    /// unchanged, silently.
    pub fn overwrite_vote(&mut self, user_id: &[u8], entries: Vec<VoteEntry>)
        ensures
            final(self)@ == spec_overwrite_vote(old(self)@, user_id@, entry_views(entries@)),
    {
        if !row_contains(&self.voters, user_id) {
            return ;
        }
        let n = self.votes.len();
        let mut kept: Vec<Vote> = Vec::new();
        let mut i: usize = 0;
        proof {
            assert(vote_views(kept@) =~= votes_remove(vote_views(self.votes@).take(0), user_id@));
        }
        while i < n
            invariant
                n == self.votes@.len(),
                self == old(self),
                i <= n,
                vote_views(kept@) == votes_remove(
                    vote_views(self.votes@).take(i as int),
                    user_id@,
                ),
            decreases n - i,
        {
            let keep = !eq_bytes(self.votes[i].voter.as_slice(), user_id);
            proof {
                assert(vote_views(self.votes@).take(i + 1).drop_last() =~= vote_views(
                    self.votes@,
                ).take(i as int));
                assert(vote_views(self.votes@).take(i + 1).last() == vote_views(
                    self.votes@,
                )[i as int]);
            }
            if keep {
                let ghost pre = kept@;
                let copy = self.votes[i].duplicate();
                kept.push(copy);
                proof {
                    assert(vote_views(kept@) =~= vote_views(pre).push(vote_views(
                        self.votes@,
                    )[i as int]));
                }
            }
            i = i + 1;
        }
        proof {
            assert(vote_views(self.votes@).take(n as int) =~= vote_views(self.votes@));
        }
        let ghost pre_votes = vote_views(kept@);
        let vote = Vote { voter: vstd::slice::slice_to_vec(user_id), entries };
        let ghost v = vote@;
        kept.push(vote);
        self.votes = kept;
        proof {
            assert(v =~= VoteView { voter: user_id@, entries: entry_views(entries@) });
            assert(vote_views(self.votes@) =~= pre_votes.push(v));
            assert(self@ =~= spec_overwrite_vote(old(self)@, user_id@, entry_views(entries@)));
        }
    }
}

} // verus!
