//! The generic persistence contract: anything stored has a collection
//! prefix, a content-addressed id, a compact list item for the
//! collection's membership set, and a canonical encoding.
//!
//! `redis_add` and `redis_delete` update the primary record and the
//! membership set together; `redis_get_slice` and `redis_get_list` read
//! them back. Keys are `{prefix}:{id}`, membership sets live at
//! `{prefix}s`.

use vstd::prelude::*;

verus! {

use vstd::string::StringSliceAdditionalSpecFns;
use crate::store::{Store, live, mem_set, distinct_mems};
use crate::bytes::{bytes_of, concat_bytes, append_bytes};

/// The error taxonomy of the service.
#[derive(Debug, PartialEq, Eq, Clone, Copy)]
pub enum ServiceError {
    /// The backend could not be reached; surfaced, never retried.
    StoreUnavailable,
    /// The primary record is absent.
    NotFound,
    /// A missing, malformed or mismatched credential; fails closed.
    Unauthorized,
    /// A stored payload does not parse; recoverable, reported.
    CorruptData,
    /// A malformed request body.
    ValidationError,
}

/// An entity that the keyed store can hold.
pub trait Settable: Sized {
    /// The collection prefix, e.g. `user`.
    spec fn spec_domain_prefix() -> Seq<u8>;

    fn domain_prefix() -> (r: Vec<u8>)
        ensures
            r@ == Self::spec_domain_prefix(),
    ;

    /// The content-addressed id.
    spec fn spec_id(&self) -> Seq<u8>;

    fn id(&self) -> (r: Vec<u8>)
        ensures
            r@ == self.spec_id(),
    ;

    /// The compact payload added to the collection's membership set.
    spec fn spec_list_item(&self) -> Seq<u8>;

    fn list_item(&self) -> (r: Vec<u8>)
        ensures
            r@ == self.spec_list_item(),
    ;

    /// The canonical encoding of the record.
    spec fn spec_encoded(&self) -> Seq<u8>;

    fn encoded(&self) -> (r: Vec<u8>)
        ensures
            r@ == self.spec_encoded(),
    ;

    /// The primary key, `{prefix}:{id}`.
    fn domain(&self) -> (r: Vec<u8>)
        ensures
            r@ == spec_domain_of(Self::spec_domain_prefix(), self.spec_id()),
    {
        let prefix = Self::domain_prefix();
        let id = self.id();
        domain_of(prefix.as_slice(), id.as_slice())
    }
}

/// The membership-set key of a collection, `{prefix}s`.
pub open spec fn spec_plural(prefix: Seq<u8>) -> Seq<u8> {
    prefix + "s".spec_bytes()
}

/// The primary key of the record with `id` in the collection `prefix`.
pub open spec fn spec_domain_of(prefix: Seq<u8>, id: Seq<u8>) -> Seq<u8> {
    prefix + ":".spec_bytes() + id
}

pub fn domain_of(prefix: &[u8], id: &[u8]) -> (r: Vec<u8>)
    ensures
        r@ == spec_domain_of(prefix@, id@),
{
    let colon = bytes_of(":");
    let mut out = concat_bytes(prefix, colon.as_slice());
    append_bytes(&mut out, id);
    proof {
        assert(out@ =~= spec_domain_of(prefix@, id@));
    }
    out
}

pub fn plural_of(prefix: &[u8]) -> (r: Vec<u8>)
    ensures
        r@ == spec_plural(prefix@),
{
    let ess = bytes_of("s");
    concat_bytes(prefix, ess.as_slice())
}

/// What `redis_add` does to the store: the record is written under its
/// primary key and its list item joins the collection's membership set.
pub open spec fn spec_added<T: Settable>(obj: T, pre: Store, post: Store) -> bool {
    &&& post.kv() == pre.kv().insert(spec_domain_of(T::spec_domain_prefix(), obj.spec_id()), (obj.spec_encoded(), Option::None::<u64>))
    &&& post.sets() == pre.sets().insert(
        spec_plural(T::spec_domain_prefix()),
        pre.set_at(spec_plural(T::spec_domain_prefix())).insert(obj.spec_list_item()),
    )
}

/// Writes the primary record and its membership entry. Under this
/// store model the two writes land together: a backend that issues them
/// as separate commands can drift where this contract cannot.
pub fn redis_add<T: Settable>(obj: &T, store: &mut Store) -> (ok: bool)
    requires
        old(store).inv(),
    ensures
        final(store).inv(),
        ok,
        spec_added(*obj, *old(store), *final(store)),
{
    let domain = obj.domain();
    let value = obj.encoded();
    store.set_value(domain.as_slice(), value);
    let prefix = T::domain_prefix();
    let plural = plural_of(prefix.as_slice());
    let item = obj.list_item();
    store.sadd(plural.as_slice(), item.as_slice());
    true
}

/// Removes the primary record and its membership entry; reports whether
/// the record was there.
pub fn redis_delete<T: Settable>(obj: &T, store: &mut Store) -> (r: bool)
    requires
        old(store).inv(),
    ensures
        final(store).inv(),
        final(store).kv() == old(store).kv().remove(spec_domain_of(T::spec_domain_prefix(), obj.spec_id())),
        final(store).sets() == if old(store).sets().contains_key(
            spec_plural(T::spec_domain_prefix()),
        ) {
            old(store).sets().insert(
                spec_plural(T::spec_domain_prefix()),
                old(store).sets()[spec_plural(T::spec_domain_prefix())].remove(
                    obj.spec_list_item(),
                ),
            )
        } else {
            old(store).sets()
        },
        r == old(store).kv().contains_key(spec_domain_of(T::spec_domain_prefix(), obj.spec_id())),
{
    let domain = obj.domain();
    let deleted = store.del_value(domain.as_slice());
    let prefix = T::domain_prefix();
    let plural = plural_of(prefix.as_slice());
    let item = obj.list_item();
    store.srem(plural.as_slice(), item.as_slice());
    deleted
}

/// The stored bytes of the record with `id` in `prefix`, if present
/// and live at `now`.
pub open spec fn slice_at(store: &Store, prefix: Seq<u8>, id: Seq<u8>, now: u64) -> Option<
    Seq<u8>,
> {
    let key = spec_domain_of(prefix, id);
    if store.kv().contains_key(key) && live(store.kv()[key], now) {
        Option::Some(store.kv()[key].0)
    } else {
        Option::None
    }
}

/// Reads the raw stored bytes of the record with `id` in `prefix`, if
/// present and live at `now`.
pub fn redis_get_slice(id: &[u8], prefix: &[u8], store: &Store, now: u64) -> (r: Option<Vec<u8>>)
    requires
        store.inv(),
    ensures
        ({
            let key = spec_domain_of(prefix@, id@);
            match r {
                Option::Some(v) => store.kv().contains_key(key) && live(store.kv()[key], now)
                    && v@ == store.kv()[key].0,
                Option::None => !store.kv().contains_key(key) || !live(store.kv()[key], now),
            }
        }),
{
    let key = domain_of(prefix, id);
    store.get_value(key.as_slice(), now)
}

/// Reads the membership set of the collection `prefix`.
pub fn redis_get_list(prefix: &[u8], store: &Store) -> (r: Vec<Vec<u8>>)
    requires
        store.inv(),
    ensures
        mem_set(r@) == store.set_at(spec_plural(prefix@)),
        distinct_mems(r@),
{
    let plural = plural_of(prefix);
    store.smembers(plural.as_slice())
}


/// Reads the raw stored bytes of many records of one collection; fails
/// as a whole if any is absent or expired.
pub fn redis_get_slices(ids: &Vec<Vec<u8>>, prefix: &[u8], store: &Store, now: u64) -> (r: Result<
    Vec<Vec<u8>>,
    ServiceError,
>)
    requires
        store.inv(),
    ensures
        match r {
            Result::Ok(v) => {
                &&& v@.len() == ids@.len()
                &&& forall|i: int|
                    0 <= i < ids@.len() ==> slice_at(store, prefix@, ids@[i]@, now)
                        == Option::Some((#[trigger] v@[i])@)
            },
            Result::Err(e) => {
                &&& e == ServiceError::NotFound
                &&& exists|i: int|
                    0 <= i < ids@.len() && slice_at(store, prefix@, (#[trigger] ids@[i])@, now)
                        is None
            },
        },
{
    let n = ids.len();
    let mut out: Vec<Vec<u8>> = Vec::new();
    let mut i: usize = 0;
    while i < n
        invariant
            store.inv(),
            n == ids@.len(),
            i <= n,
            out@.len() == i,
            forall|j: int|
                0 <= j < i ==> slice_at(store, prefix@, ids@[j]@, now) == Option::Some(
                    (#[trigger] out@[j])@,
                ),
        decreases n - i,
    {
        match redis_get_slice(ids[i].as_slice(), prefix, store, now) {
            Option::Some(b) => {
                out.push(b);
            },
            Option::None => {
                return Result::Err(ServiceError::NotFound);
            },
        }
        i = i + 1;
    }
    Result::Ok(out)
}


/// The records after a row of entities is written, first to last.
pub open spec fn kv_after_adds<T: Settable>(
    kv: Map<Seq<u8>, (Seq<u8>, Option<u64>)>,
    items: Seq<T>,
) -> Map<Seq<u8>, (Seq<u8>, Option<u64>)>
    decreases items.len(),
{
    if items.len() == 0 {
        kv
    } else {
        kv_after_adds(kv, items.drop_last()).insert(
            spec_domain_of(T::spec_domain_prefix(), items.last().spec_id()),
            (items.last().spec_encoded(), Option::None),
        )
    }
}

/// The membership sets after a row of entities is written, first to
/// last.
pub open spec fn sets_after_adds<T: Settable>(
    sets: Map<Seq<u8>, Set<Seq<u8>>>,
    items: Seq<T>,
) -> Map<Seq<u8>, Set<Seq<u8>>>
    decreases items.len(),
{
    if items.len() == 0 {
        sets
    } else {
        let prev = sets_after_adds(sets, items.drop_last());
        let plural = spec_plural(T::spec_domain_prefix());
        prev.insert(
            plural,
            (if prev.contains_key(plural) {
                prev[plural]
            } else {
                Set::empty()
            }).insert(items.last().spec_list_item()),
        )
    }
}

/// Writes a whole row of entities, records and membership entries.
pub fn redis_add_all<T: Settable>(items: &Vec<T>, store: &mut Store)
    requires
        old(store).inv(),
    ensures
        final(store).inv(),
        final(store).kv() == kv_after_adds(old(store).kv(), items@),
        final(store).sets() == sets_after_adds(old(store).sets(), items@),
{
    let n = items.len();
    let mut i: usize = 0;
    proof {
        assert(items@.take(0) =~= Seq::<T>::empty());
    }
    while i < n
        invariant
            n == items@.len(),
            i <= n,
            store.inv(),
            store.kv() == kv_after_adds(old(store).kv(), items@.take(i as int)),
            store.sets() == sets_after_adds(old(store).sets(), items@.take(i as int)),
        decreases n - i,
    {
        let _ = redis_add(&items[i], store);
        proof {
            assert(items@.take(i + 1).drop_last() =~= items@.take(i as int));
            assert(items@.take(i + 1).last() == items@[i as int]);
        }
        i = i + 1;
    }
    proof {
        assert(items@.take(n as int) =~= items@);
    }
}

} // verus!
