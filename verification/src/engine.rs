//! The storage-engine boundary: every call into the `kv` crate (backed by
//! sled) and into `wildmatch` stands here, behind trusted declarations whose
//! contracts the rest of the library is verified against.
//!
//! The contents of the partition a `Bucket` is bound to are modelled by
//! `bucket_view`. The contracts below describe the engine under the intended
//! discipline of this layer: writes to a partition go through the handle at
//! hand. Two handles opened onto the same partition share state that the
//! model cannot see.

use vstd::prelude::*;

use crate::errors::KvError;
use crate::model::{entries_match, insert_all, pairs_view};

verus! {

/// kv::Store: the handle to one open storage-engine instance at one
/// filesystem location. Opaque to this layer; partitions are reached
/// through it.
#[verifier::external_type_specification]
#[verifier::external_body]
pub struct ExStore(kv::Store);

/// A typed handle bound to one named partition of one open store. It holds
/// the engine's tree for that partition and does not cache decoded records.
#[verifier::external_body]
pub struct Bucket {
    tree: kv::Bucket<'static, kv::Raw, kv::Raw>,
}

/// The byte-keyed contents of the partition this handle is bound to.
pub uninterp spec fn bucket_view(b: Bucket) -> Map<Seq<u8>, Seq<u8>>;

/// Relies on kv::Config::new and kv::Store::new (sled open): opens, creating
/// it when absent, the storage engine at the given location. Any engine
/// failure is reported, never a panic.
#[verifier::external_body]
pub(crate) fn engine_open(path: &str) -> (r: Result<kv::Store, KvError>)
    ensures
        match r {
            Ok(_) => true,
            Err(e) => e == KvError::StorageFailure,
        },
{
    match kv::Store::new(kv::Config::new(path)) {
        Ok(s) => Ok(s),
        Err(_) => Err(KvError::StorageFailure),
    }
}

/// Relies on kv::Store::bucket (sled open_tree): opens or creates the named
/// partition of this store. The new handle's contents are whatever the
/// engine holds for that partition; nothing is assumed of them.
#[verifier::external_body]
pub(crate) fn engine_bucket(store: &kv::Store, name: &str) -> (r: Result<Bucket, KvError>)
    ensures
        match r {
            Ok(_) => true,
            Err(e) => e == KvError::StorageFailure,
        },
{
    match store.bucket::<kv::Raw, kv::Raw>(Some(name)) {
        Ok(t) => Ok(Bucket { tree: t }),
        Err(_) => Err(KvError::StorageFailure),
    }
}

/// Relies on kv::Bucket::get (sled Tree::get): returns the value stored under
/// the key, or nothing when the key is absent — absence is not an error.
#[verifier::external_body]
pub(crate) fn engine_get(b: &Bucket, key: &[u8]) -> (r: Result<Option<Vec<u8>>, KvError>)
    ensures
        match r {
            Ok(Some(v)) => bucket_view(*b).contains_key(key@) && bucket_view(*b)[key@] == v@,
            Ok(None) => !bucket_view(*b).contains_key(key@),
            Err(e) => e == KvError::StorageFailure,
        },
{
    match b.tree.get(kv::Raw::from(key)) {
        Ok(Some(v)) => Ok(Some(v.to_vec())),
        Ok(None) => Ok(None),
        Err(_) => Err(KvError::StorageFailure),
    }
}

/// Relies on kv::Bucket::set (sled Tree::insert): stores the value under the
/// key, overwriting any prior value, as one atomic single-key write; on
/// failure the write is not applied.
#[verifier::external_body]
pub(crate) fn engine_set(b: &mut Bucket, key: &[u8], value: &[u8]) -> (r: Result<(), KvError>)
    ensures
        match r {
            Ok(_) => bucket_view(*final(b)) == bucket_view(*old(b)).insert(key@, value@),
            Err(e) => e == KvError::StorageFailure && bucket_view(*final(b)) == bucket_view(*old(b)),
        },
{
    match b.tree.set(kv::Raw::from(key), kv::Raw::from(value)) {
        Ok(()) => Ok(()),
        Err(_) => Err(KvError::StorageFailure),
    }
}

/// Relies on kv::Bucket::remove (sled Tree::remove): deletes the key's entry;
/// removing an absent key is a success that changes nothing.
#[verifier::external_body]
pub(crate) fn engine_remove(b: &mut Bucket, key: &[u8]) -> (r: Result<(), KvError>)
    ensures
        match r {
            Ok(_) => bucket_view(*final(b)) == bucket_view(*old(b)).remove(key@),
            Err(e) => e == KvError::StorageFailure && bucket_view(*final(b)) == bucket_view(*old(b)),
        },
{
    match b.tree.remove(kv::Raw::from(key)) {
        Ok(()) => Ok(()),
        Err(_) => Err(KvError::StorageFailure),
    }
}

/// Relies on kv::Batch and kv::Bucket::batch (sled Tree::apply_batch): every
/// pair is written as one atomic unit — after the call the partition holds
/// either all the writes, in order, or, on failure, exactly what it held
/// before. Nothing is applied until the single batch commit.
#[verifier::external_body]
pub(crate) fn engine_transaction(b: &mut Bucket, entries: &Vec<(Vec<u8>, Vec<u8>)>) -> (r: Result<
    (),
    KvError,
>)
    ensures
        match r {
            Ok(_) => bucket_view(*final(b)) == insert_all(bucket_view(*old(b)), pairs_view(entries@)),
            Err(e) => e == KvError::TransactionAborted && bucket_view(*final(b)) == bucket_view(*old(b)),
        },
{
    let mut batch = kv::Batch::<kv::Raw, kv::Raw>::new();
    for (k, v) in entries.iter() {
        if batch.set(kv::Raw::from(k.as_slice()), kv::Raw::from(v.as_slice())).is_err() {
            return Err(KvError::TransactionAborted);
        }
    }
    match b.tree.batch(batch) {
        Ok(()) => Ok(()),
        Err(_) => Err(KvError::TransactionAborted),
    }
}

/// Relies on kv::Bucket::iter (sled Tree::iter): enumerates every live entry
/// of the partition, in ascending byte-key order, as raw key and value bytes.
#[verifier::external_body]
pub fn iter(b: &Bucket) -> (r: Result<Vec<(Vec<u8>, Vec<u8>)>, KvError>)
    ensures
        match r {
            Ok(es) => entries_match(bucket_view(*b), pairs_view(es@)),
            Err(e) => e == KvError::StorageFailure,
        },
{
    let mut out: Vec<(Vec<u8>, Vec<u8>)> = Vec::new();
    for item in b.tree.iter() {
        let pair = match item {
            Ok(i) => match (i.key::<kv::Raw>(), i.value::<kv::Raw>()) {
                (Ok(k), Ok(v)) => (k.to_vec(), v.to_vec()),
                _ => return Err(KvError::StorageFailure),
            },
            Err(_) => return Err(KvError::StorageFailure),
        };
        out.push(pair);
    }
    Ok(out)
}

/// What the glob matcher answers for a pattern and a subject. The result
/// depends on the two character sequences alone.
pub uninterp spec fn wild_match(pattern: Seq<char>, subject: Seq<char>) -> bool;

/// Relies on wildmatch::WildMatch::new and WildMatch::matches: compiles the
/// glob pattern (`*` matches any sequence, `?` one character) and tests the
/// subject against it.
#[verifier::external_body]
pub(crate) fn glob_match(pattern: &str, subject: &str) -> (r: bool)
    ensures
        r == wild_match(pattern@, subject@),
{
    wildmatch::WildMatch::new(pattern).matches(subject)
}

} // verus!
