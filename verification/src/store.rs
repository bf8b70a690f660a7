//! In-memory model of the key-value backend.
//!
//! The service logic is verified against this model: a map from keys to
//! byte-string values (each with an optional expiry instant) and a map
//! from keys to member sets. The running system drives the same commands
//! against a networked store; this model states what each command does.
//!
//! A dual write through [`crate::keyed`] updates the record and its
//! membership set in one step, closing the primary/secondary drift gap
//! that a non-transactional backend leaves between two concurrent
//! single-key writes. The read-modify-write cycle on whole records is
//! still unguarded, by design: two interleaved updates of one record
//! race, and the later write wins.

use vstd::prelude::*;

verus! {

use crate::bytes::eq_bytes;

/// One stored value, with an optional expiry instant (seconds).
pub struct Record {
    pub key: Vec<u8>,
    pub value: Vec<u8>,
    pub expires_at: Option<u64>,
}

/// One membership set.
pub struct MemberRow {
    pub key: Vec<u8>,
    pub members: Vec<Vec<u8>>,
}

/// The store: records keyed by byte strings, and membership sets.
pub struct Store {
    pub records: Vec<Record>,
    pub rows: Vec<MemberRow>,
}

/// What one record contributes to the store's meaning.
pub open spec fn rec_val(r: Record) -> (Seq<u8>, Option<u64>) {
    (r.value@, r.expires_at)
}

/// The records as a map from key to value and expiry.
pub open spec fn kv_map(s: Seq<Record>) -> Map<Seq<u8>, (Seq<u8>, Option<u64>)>
    decreases s.len(),
{
    if s.len() == 0 {
        Map::empty()
    } else {
        kv_map(s.drop_last()).insert(s.last().key@, rec_val(s.last()))
    }
}

/// The members of one row as a set.
pub open spec fn mem_set(ms: Seq<Vec<u8>>) -> Set<Seq<u8>>
    decreases ms.len(),
{
    if ms.len() == 0 {
        Set::empty()
    } else {
        mem_set(ms.drop_last()).insert(ms.last()@)
    }
}

/// The rows as a map from key to member set.
pub open spec fn set_map(s: Seq<MemberRow>) -> Map<Seq<u8>, Set<Seq<u8>>>
    decreases s.len(),
{
    if s.len() == 0 {
        Map::empty()
    } else {
        set_map(s.drop_last()).insert(s.last().key@, mem_set(s.last().members@))
    }
}

/// A record is live at `now` unless its expiry has passed.
pub open spec fn live(v: (Seq<u8>, Option<u64>), now: u64) -> bool {
    match v.1 {
        Option::None => true,
        Option::Some(e) => now < e,
    }
}

pub open spec fn distinct_record_keys(s: Seq<Record>) -> bool {
    forall|i: int, j: int| 0 <= i < j < s.len() ==> s[i].key@ != s[j].key@
}

pub open spec fn distinct_row_keys(s: Seq<MemberRow>) -> bool {
    forall|i: int, j: int| 0 <= i < j < s.len() ==> s[i].key@ != s[j].key@
}

pub open spec fn distinct_mems(ms: Seq<Vec<u8>>) -> bool {
    forall|i: int, j: int| 0 <= i < j < ms.len() ==> ms[i]@ != ms[j]@
}

impl Store {
    /// Well-formedness: no key occurs twice.
    pub open spec fn inv(&self) -> bool {
        &&& distinct_record_keys(self.records@)
        &&& distinct_row_keys(self.rows@)
        &&& forall|i: int| 0 <= i < self.rows@.len() ==> distinct_mems(#[trigger] self.rows@[i].members@)
    }

    /// The meaning of the records.
    pub open spec fn kv(&self) -> Map<Seq<u8>, (Seq<u8>, Option<u64>)> {
        kv_map(self.records@)
    }

    /// The meaning of the membership sets.
    pub open spec fn sets(&self) -> Map<Seq<u8>, Set<Seq<u8>>> {
        set_map(self.rows@)
    }

    /// The member set under `key`, or the empty set.
    pub open spec fn set_at(&self, key: Seq<u8>) -> Set<Seq<u8>> {
        if self.sets().contains_key(key) {
            self.sets()[key]
        } else {
            Set::empty()
        }
    }

    /// An empty store.
    pub fn new() -> (r: Store)
        ensures
            r.inv(),
            r.kv() == Map::<Seq<u8>, (Seq<u8>, Option<u64>)>::empty(),
            r.sets() == Map::<Seq<u8>, Set<Seq<u8>>>::empty(),
    {
        Store { records: Vec::new(), rows: Vec::new() }
    }
}

/// A key absent from every record is absent from the map.
proof fn lemma_kv_absent(s: Seq<Record>, k: Seq<u8>)
    requires
        forall|i: int| 0 <= i < s.len() ==> s[i].key@ != k,
    ensures
        !kv_map(s).contains_key(k),
    decreases s.len(),
{
    if s.len() > 0 {
        lemma_kv_absent(s.drop_last(), k);
    }
}

/// With distinct keys, the record at `i` gives the map's entry.
proof fn lemma_kv_found(s: Seq<Record>, i: int)
    requires
        distinct_record_keys(s),
        0 <= i < s.len(),
    ensures
        kv_map(s).contains_key(s[i].key@),
        kv_map(s)[s[i].key@] == rec_val(s[i]),
    decreases s.len(),
{
    if i < s.len() - 1 {
        lemma_kv_found(s.drop_last(), i);
    }
}

/// Removing the record at `i` removes exactly its key.
proof fn lemma_kv_remove(s: Seq<Record>, i: int)
    requires
        distinct_record_keys(s),
        0 <= i < s.len(),
    ensures
        kv_map(s.remove(i)) == kv_map(s).remove(s[i].key@),
        distinct_record_keys(s.remove(i)),
    decreases s.len(),
{
    assert forall|x: int, y: int| 0 <= x < y < s.remove(i).len() implies s.remove(i)[x].key@ != s.remove(
        i,
    )[y].key@ by {
        assert(s.remove(i)[x] == if x < i {
            s[x]
        } else {
            s[x + 1]
        });
        assert(s.remove(i)[y] == if y < i {
            s[y]
        } else {
            s[y + 1]
        });
    }
    if i == s.len() - 1 {
        assert(s.remove(i) =~= s.drop_last());
        lemma_kv_absent(s.drop_last(), s[i].key@);
        assert(kv_map(s.drop_last()).remove(s[i].key@) =~= kv_map(s.drop_last()));
        assert(kv_map(s).remove(s[i].key@) =~= kv_map(s.drop_last()));
    } else {
        lemma_kv_remove(s.drop_last(), i);
        assert(s.remove(i).drop_last() =~= s.drop_last().remove(i));
        assert(s.remove(i).last() == s.last());
        assert(kv_map(s.remove(i)) == kv_map(s.drop_last().remove(i)).insert(
            s.last().key@,
            rec_val(s.last()),
        ));
        assert(kv_map(s).remove(s[i].key@) =~= kv_map(s.drop_last()).remove(s[i].key@).insert(
            s.last().key@,
            rec_val(s.last()),
        ));
    }
}

impl Store {
    /// The index of the record under `key`, if any.
    fn find_record(&self, key: &[u8]) -> (r: Option<usize>)
        ensures
            match r {
                Option::Some(i) => i < self.records@.len() && self.records@[i as int].key@ == key@,
                Option::None => forall|i: int|
                    0 <= i < self.records@.len() ==> self.records@[i].key@ != key@,
            },
    {
        let n = self.records.len();
        let mut i: usize = 0;
        while i < n
            invariant
                n == self.records@.len(),
                i <= n,
                forall|j: int| 0 <= j < i ==> self.records@[j].key@ != key@,
            decreases n - i,
        {
            if eq_bytes(self.records[i].key.as_slice(), key) {
                return Option::Some(i);
            }
            i = i + 1;
        }
        Option::None
    }

    /// Writes `value` under `key`, with no expiry. Commands `SET`.
    pub fn set_value(&mut self, key: &[u8], value: Vec<u8>)
        requires
            old(self).inv(),
        ensures
            final(self).inv(),
            final(self).kv() == old(self).kv().insert(key@, (value@, Option::None::<u64>)),
            final(self).sets() == old(self).sets(),
    {
        self.set_record(key, value, Option::None);
    }

    /// Writes `value` under `key`, expiring at `expires_at`. Commands
    /// `SET` then `EXPIRE`.
    pub fn set_value_expiring(&mut self, key: &[u8], value: Vec<u8>, expires_at: u64)
        requires
            old(self).inv(),
        ensures
            final(self).inv(),
            final(self).kv() == old(self).kv().insert(key@, (value@, Option::Some(expires_at))),
            final(self).sets() == old(self).sets(),
    {
        self.set_record(key, value, Option::Some(expires_at));
    }

    fn set_record(&mut self, key: &[u8], value: Vec<u8>, expires_at: Option<u64>)
        requires
            old(self).inv(),
        ensures
            final(self).inv(),
            final(self).kv() == old(self).kv().insert(key@, (value@, expires_at)),
            final(self).sets() == old(self).sets(),
    {
        match self.find_record(key) {
            Option::Some(i) => {
                proof {
                    lemma_kv_remove(self.records@, i as int);
                }
                let _ = self.records.remove(i);
            },
            Option::None => {
                proof {
                    lemma_kv_absent(self.records@, key@);
                    assert(kv_map(self.records@).remove(key@) =~= kv_map(self.records@));
                }
            },
        }
        let ghost mid = self.records@;
        let rec = Record { key: vstd::slice::slice_to_vec(key), value, expires_at };
        proof {
            assert(!kv_map(mid).contains_key(key@)) by {
                lemma_kv_absent(mid, key@);
            }
        }
        self.records.push(rec);
        proof {
            assert(self.records@.drop_last() =~= mid);
            assert(kv_map(self.records@) =~= kv_map(mid).insert(key@, (value@, expires_at)));
            assert(kv_map(self.records@) =~= old(self).kv().insert(key@, (value@, expires_at)));
            assert(forall|i: int|
                0 <= i < mid.len() ==> mid[i].key@ != key@);
        }
    }

    /// Reads the value under `key`, if present and live at `now`.
    /// Commands `GET`.
    pub fn get_value(&self, key: &[u8], now: u64) -> (r: Option<Vec<u8>>)
        requires
            self.inv(),
        ensures
            match r {
                Option::Some(v) => self.kv().contains_key(key@) && live(self.kv()[key@], now)
                    && v@ == self.kv()[key@].0,
                Option::None => !self.kv().contains_key(key@) || !live(self.kv()[key@], now),
            },
    {
        match self.find_record(key) {
            Option::Some(i) => {
                proof {
                    lemma_kv_found(self.records@, i as int);
                }
                let rec = &self.records[i];
                match rec.expires_at {
                    Option::Some(e) => {
                        if now < e {
                            Option::Some(vstd::slice::slice_to_vec(rec.value.as_slice()))
                        } else {
                            Option::None
                        }
                    },
                    Option::None => Option::Some(vstd::slice::slice_to_vec(rec.value.as_slice())),
                }
            },
            Option::None => {
                proof {
                    lemma_kv_absent(self.records@, key@);
                }
                Option::None
            },
        }
    }

    /// Deletes the record under `key`; reports whether one was there.
    /// Commands `DEL`.
    pub fn del_value(&mut self, key: &[u8]) -> (r: bool)
        requires
            old(self).inv(),
        ensures
            final(self).inv(),
            final(self).kv() == old(self).kv().remove(key@),
            final(self).sets() == old(self).sets(),
            r == old(self).kv().contains_key(key@),
    {
        match self.find_record(key) {
            Option::Some(i) => {
                proof {
                    lemma_kv_remove(self.records@, i as int);
                    lemma_kv_found(self.records@, i as int);
                }
                let _ = self.records.remove(i);
                true
            },
            Option::None => {
                proof {
                    lemma_kv_absent(self.records@, key@);
                    assert(kv_map(self.records@).remove(key@) =~= kv_map(self.records@));
                }
                false
            },
        }
    }
}


/// A member absent from the row is absent from its set.
proof fn lemma_mem_absent(ms: Seq<Vec<u8>>, m: Seq<u8>)
    requires
        forall|i: int| 0 <= i < ms.len() ==> ms[i]@ != m,
    ensures
        !mem_set(ms).contains(m),
    decreases ms.len(),
{
    if ms.len() > 0 {
        lemma_mem_absent(ms.drop_last(), m);
    }
}

/// Every listed member is in the set.
proof fn lemma_mem_found(ms: Seq<Vec<u8>>, i: int)
    requires
        0 <= i < ms.len(),
    ensures
        mem_set(ms).contains(ms[i]@),
    decreases ms.len(),
{
    if i < ms.len() - 1 {
        lemma_mem_found(ms.drop_last(), i);
    }
}

/// Removing the one occurrence of a member removes it from the set.
proof fn lemma_mem_remove(ms: Seq<Vec<u8>>, i: int)
    requires
        distinct_mems(ms),
        0 <= i < ms.len(),
    ensures
        mem_set(ms.remove(i)) == mem_set(ms).remove(ms[i]@),
        distinct_mems(ms.remove(i)),
    decreases ms.len(),
{
    assert forall|x: int, y: int| 0 <= x < y < ms.remove(i).len() implies ms.remove(i)[x]@ != ms.remove(
        i,
    )[y]@ by {
        assert(ms.remove(i)[x] == if x < i {
            ms[x]
        } else {
            ms[x + 1]
        });
        assert(ms.remove(i)[y] == if y < i {
            ms[y]
        } else {
            ms[y + 1]
        });
    }
    if i == ms.len() - 1 {
        assert(ms.remove(i) =~= ms.drop_last());
        lemma_mem_absent(ms.drop_last(), ms[i]@);
        assert(mem_set(ms).remove(ms[i]@) =~= mem_set(ms.drop_last()));
    } else {
        lemma_mem_remove(ms.drop_last(), i);
        assert(ms.remove(i).drop_last() =~= ms.drop_last().remove(i));
        assert(ms.remove(i).last() == ms.last());
        assert(mem_set(ms).remove(ms[i]@) =~= mem_set(ms.drop_last()).remove(ms[i]@).insert(
            ms.last()@,
        ));
    }
}

/// Rows with element-wise equal member views mean the same set.
proof fn lemma_mem_set_congruent(a: Seq<Vec<u8>>, b: Seq<Vec<u8>>)
    requires
        a.len() == b.len(),
        forall|i: int| 0 <= i < a.len() ==> a[i]@ == b[i]@,
    ensures
        mem_set(a) == mem_set(b),
    decreases a.len(),
{
    if a.len() > 0 {
        lemma_mem_set_congruent(a.drop_last(), b.drop_last());
        assert(mem_set(a) =~= mem_set(b));
    }
}

/// A key absent from every row is absent from the map.
proof fn lemma_set_absent(s: Seq<MemberRow>, k: Seq<u8>)
    requires
        forall|i: int| 0 <= i < s.len() ==> s[i].key@ != k,
    ensures
        !set_map(s).contains_key(k),
    decreases s.len(),
{
    if s.len() > 0 {
        lemma_set_absent(s.drop_last(), k);
    }
}

/// With distinct keys, the row at `i` gives the map's entry.
proof fn lemma_set_found(s: Seq<MemberRow>, i: int)
    requires
        distinct_row_keys(s),
        0 <= i < s.len(),
    ensures
        set_map(s).contains_key(s[i].key@),
        set_map(s)[s[i].key@] == mem_set(s[i].members@),
    decreases s.len(),
{
    if i < s.len() - 1 {
        lemma_set_found(s.drop_last(), i);
    }
}

/// Removing the row at `i` removes exactly its key.
proof fn lemma_set_remove(s: Seq<MemberRow>, i: int)
    requires
        distinct_row_keys(s),
        0 <= i < s.len(),
    ensures
        set_map(s.remove(i)) == set_map(s).remove(s[i].key@),
        distinct_row_keys(s.remove(i)),
    decreases s.len(),
{
    assert forall|x: int, y: int| 0 <= x < y < s.remove(i).len() implies s.remove(i)[x].key@ != s.remove(
        i,
    )[y].key@ by {
        assert(s.remove(i)[x] == if x < i {
            s[x]
        } else {
            s[x + 1]
        });
        assert(s.remove(i)[y] == if y < i {
            s[y]
        } else {
            s[y + 1]
        });
    }
    if i == s.len() - 1 {
        assert(s.remove(i) =~= s.drop_last());
        lemma_set_absent(s.drop_last(), s[i].key@);
        assert(set_map(s).remove(s[i].key@) =~= set_map(s.drop_last()));
    } else {
        lemma_set_remove(s.drop_last(), i);
        assert(s.remove(i).drop_last() =~= s.drop_last().remove(i));
        assert(s.remove(i).last() == s.last());
        assert(set_map(s).remove(s[i].key@) =~= set_map(s.drop_last()).remove(s[i].key@).insert(
            s.last().key@,
            mem_set(s.last().members@),
        ));
    }
}

impl Store {
    /// The index of the row under `key`, if any.
    fn find_row(&self, key: &[u8]) -> (r: Option<usize>)
        ensures
            match r {
                Option::Some(i) => i < self.rows@.len() && self.rows@[i as int].key@ == key@,
                Option::None => forall|i: int|
                    0 <= i < self.rows@.len() ==> self.rows@[i].key@ != key@,
            },
    {
        let n = self.rows.len();
        let mut i: usize = 0;
        while i < n
            invariant
                n == self.rows@.len(),
                i <= n,
                forall|j: int| 0 <= j < i ==> self.rows@[j].key@ != key@,
            decreases n - i,
        {
            if eq_bytes(self.rows[i].key.as_slice(), key) {
                return Option::Some(i);
            }
            i = i + 1;
        }
        Option::None
    }

    /// Adds `member` to the set under `key`. Commands `SADD`.
    pub fn sadd(&mut self, key: &[u8], member: &[u8])
        requires
            old(self).inv(),
        ensures
            final(self).inv(),
            final(self).kv() == old(self).kv(),
            final(self).sets() == old(self).sets().insert(
                key@,
                old(self).set_at(key@).insert(member@),
            ),
    {
        match self.find_row(key) {
            Option::None => {
                proof {
                    lemma_set_absent(self.rows@, key@);
                }
                let mut members: Vec<Vec<u8>> = Vec::new();
                members.push(vstd::slice::slice_to_vec(member));
                let ghost pre = self.rows@;
                self.rows.push(MemberRow { key: vstd::slice::slice_to_vec(key), members });
                proof {
                    assert(self.rows@.drop_last() =~= pre);
                    assert(self.rows@.last().members@.len() == 1);
                    assert(self.rows@.last().members@.drop_last() =~= Seq::<Vec<u8>>::empty());
                    assert(self.rows@.last().members@.last()@ == member@);
                    assert(mem_set(Seq::<Vec<u8>>::empty()) =~= Set::<Seq<u8>>::empty());
                    assert(mem_set(self.rows@.last().members@) =~= Set::<Seq<u8>>::empty().insert(
                        member@,
                    ));
                    assert(old(self).set_at(key@).insert(member@) =~= Set::<Seq<u8>>::empty().insert(
                        member@,
                    ));
                    assert(set_map(self.rows@) =~= old(self).sets().insert(
                        key@,
                        old(self).set_at(key@).insert(member@),
                    ));
                }
            },
            Option::Some(i) => {
                proof {
                    lemma_set_found(self.rows@, i as int);
                }
                let row = &self.rows[i];
                let n = row.members.len();
                let mut j: usize = 0;
                let mut present: bool = false;
                while j < n
                    invariant
                        n == self.rows@[i as int].members@.len(),
                        i < self.rows@.len(),
                        j <= n,
                        present ==> mem_set(self.rows@[i as int].members@).contains(member@),
                        !present ==> forall|t: int|
                            0 <= t < j ==> self.rows@[i as int].members@[t]@ != member@,
                        present ==> j == n,
                    decreases n - j,
                {
                    if eq_bytes(self.rows[i].members[j].as_slice(), member) {
                        proof {
                            lemma_mem_found(self.rows@[i as int].members@, j as int);
                        }
                        present = true;
                        j = n;
                    } else {
                        j = j + 1;
                    }
                }
                if present {
                    proof {
                        let st = old(self).sets();
                        assert(st[key@].insert(member@) =~= st[key@]);
                        assert(st.insert(key@, old(self).set_at(key@).insert(member@)) =~= st);
                    }
                } else {
                    proof {
                        lemma_mem_absent(self.rows@[i as int].members@, member@);
                        lemma_set_remove(self.rows@, i as int);
                    }
                    let mut row = self.rows.remove(i);
                    let ghost ms = row.members@;
                    row.members.push(vstd::slice::slice_to_vec(member));
                    let ghost pre = self.rows@;
                    self.rows.push(row);
                    proof {
                        assert(self.rows@.drop_last() =~= pre);
                        assert(self.rows@.last().members@.drop_last() =~= ms);
                        assert(mem_set(self.rows@.last().members@) =~= mem_set(ms).insert(member@));
                        assert(set_map(self.rows@) =~= old(self).sets().insert(
                            key@,
                            old(self).set_at(key@).insert(member@),
                        ));
                        assert forall|x: int, y: int|
                            0 <= x < y < self.rows@.last().members@.len() implies self.rows@.last().members@[x]@
                            != self.rows@.last().members@[y]@ by {
                            assert(forall|t: int| 0 <= t < ms.len() ==> ms[t]@ != member@);
                        }
                    }
                }
            },
        }
    }

    /// Removes `member` from the set under `key`, if both are there.
    /// Commands `SREM`.
    pub fn srem(&mut self, key: &[u8], member: &[u8])
        requires
            old(self).inv(),
        ensures
            final(self).inv(),
            final(self).kv() == old(self).kv(),
            final(self).sets() == if old(self).sets().contains_key(key@) {
                old(self).sets().insert(key@, old(self).sets()[key@].remove(member@))
            } else {
                old(self).sets()
            },
    {
        match self.find_row(key) {
            Option::None => {
                proof {
                    lemma_set_absent(self.rows@, key@);
                }
            },
            Option::Some(i) => {
                proof {
                    lemma_set_found(self.rows@, i as int);
                }
                let n = self.rows[i].members.len();
                let mut j: usize = 0;
                while j < n
                    invariant
                        old(self) == self,
                        self.inv(),
                        n == self.rows@[i as int].members@.len(),
                        i < self.rows@.len(),
                        self.rows@[i as int].key@ == key@,
                        j <= n,
                        forall|t: int| 0 <= t < j ==> self.rows@[i as int].members@[t]@ != member@,
                    decreases n - j,
                {
                    if eq_bytes(self.rows[i].members[j].as_slice(), member) {
                        proof {
                            lemma_set_found(self.rows@, i as int);
                            lemma_set_remove(self.rows@, i as int);
                            lemma_mem_remove(self.rows@[i as int].members@, j as int);
                        }
                        let mut row = self.rows.remove(i);
                        let _ = row.members.remove(j);
                        let ghost pre = self.rows@;
                        self.rows.push(row);
                        proof {
                            assert(self.rows@.drop_last() =~= pre);
                            assert(set_map(self.rows@) =~= old(self).sets().insert(
                                key@,
                                old(self).sets()[key@].remove(member@),
                            ));
                        }
                        return ;
                    }
                    j = j + 1;
                }
                proof {
                    lemma_mem_absent(self.rows@[i as int].members@, member@);
                    let st = old(self).sets();
                    assert(st[key@].remove(member@) =~= st[key@]);
                    assert(st.insert(key@, st[key@].remove(member@)) =~= st);
                }
            },
        }
    }

    /// All members of the set under `key`. Commands `SMEMBERS`.
    pub fn smembers(&self, key: &[u8]) -> (r: Vec<Vec<u8>>)
        requires
            self.inv(),
        ensures
            mem_set(r@) == self.set_at(key@),
            distinct_mems(r@),
    {
        match self.find_row(key) {
            Option::None => {
                proof {
                    lemma_set_absent(self.rows@, key@);
                }
                let r: Vec<Vec<u8>> = Vec::new();
                r
            },
            Option::Some(i) => {
                proof {
                    lemma_set_found(self.rows@, i as int);
                }
                let row = &self.rows[i];
                let n = row.members.len();
                let mut out: Vec<Vec<u8>> = Vec::new();
                let mut j: usize = 0;
                while j < n
                    invariant
                        i < self.rows@.len(),
                        n == self.rows@[i as int].members@.len(),
                        j <= n,
                        out@.len() == j,
                        forall|t: int|
                            0 <= t < j ==> out@[t]@ == self.rows@[i as int].members@[t]@,
                    decreases n - j,
                {
                    out.push(vstd::slice::slice_to_vec(self.rows[i].members[j].as_slice()));
                    j = j + 1;
                }
                proof {
                    lemma_mem_set_congruent(out@, self.rows@[i as int].members@);
                    assert forall|x: int, y: int| 0 <= x < y < out@.len() implies out@[x]@
                        != out@[y]@ by {}
                }
                out
            },
        }
    }
}

} // verus!
