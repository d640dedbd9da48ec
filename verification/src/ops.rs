//! The command dispatcher and the iteration/filter engine: the four typed
//! operations over one bucket, bulk enumeration with an optional conjunctive
//! glob filter, and the lifecycle calls that lead to a bucket handle.

use vstd::prelude::*;
use vstd::utf8::{decode_utf8, valid_utf8, encode_utf8};

use crate::codec::{dec_record, decode, enc_record, encode, utf8_to_str};
use crate::config::StorageConfig;
use crate::engine::{
    bucket_view, engine_bucket, engine_get, engine_open, engine_remove, engine_set,
    engine_transaction, glob_match, iter, wild_match, Bucket,
};
use crate::errors::KvError;
use crate::model::{entries_match, insert_all, pairs_view};
use crate::record::{record_wf, Filter, FilterView, KVRecord, KVRecordView, Record};

verus! {

/// Opens (or creates) the storage engine at the configured location. With no
/// location configured this is `StorageNotConfigured`, never a silent
/// default.
pub fn open_store(config: &StorageConfig) -> (r: Result<kv::Store, KvError>)
    ensures
        match r {
            Ok(_) => config@ is Some,
            Err(e) => if config@ is None {
                e == KvError::StorageNotConfigured
            } else {
                e == KvError::StorageFailure
            },
        },
{
    match config.active_path() {
        None => Err(KvError::StorageNotConfigured),
        Some(p) => engine_open(p.as_str()),
    }
}

/// Obtains a typed handle to the named bucket of an open store, creating the
/// bucket on first use. Each call is an independent, cheap handle
/// acquisition.
pub fn open_bucket(store: &kv::Store, name: &str) -> (r: Result<Bucket, KvError>)
    ensures
        r is Err ==> r == Err::<Bucket, KvError>(KvError::StorageFailure),
{
    engine_bucket(store, name)
}

/// Retrieves the entry stored under `key`, decoded. An absent key is an
/// empty result, not an error; bytes that do not decode are `CorruptRecord`.
pub fn get(bucket: &Bucket, key: &str) -> (r: Result<Option<KVRecord>, KvError>)
    ensures
        ({
            let m = bucket_view(*bucket);
            let kb = encode_utf8(key@);
            match r {
                Ok(opt) => match opt {
                    Some(kvr) => m.contains_key(kb) && dec_record(m[kb]) == Some(kvr.record@)
                        && kvr.key@ == key@,
                    None => !m.contains_key(kb),
                },
                Err(e) => match e {
                    KvError::CorruptRecord => m.contains_key(kb) && dec_record(m[kb]) is None,
                    KvError::StorageFailure => true,
                    _ => false,
                },
            }
        }),
{
    match engine_get(bucket, key.as_bytes()) {
        Err(e) => Err(e),
        Ok(None) => Ok(None),
        Ok(Some(vb)) => match decode(&vb) {
            Ok(rec) => Ok(Some(KVRecord { key: key.to_owned(), record: rec })),
            Err(e) => Err(e),
        },
    }
}

/// Stores `val` under `key`, overwriting any existing entry, as one atomic
/// single-key write; on failure the bucket is unchanged.
pub fn set(bucket: &mut Bucket, key: &str, val: Record) -> (r: Result<(), KvError>)
    ensures
        record_wf(val@),
        match r {
            Ok(_) => bucket_view(*final(bucket)) == bucket_view(*old(bucket)).insert(
                encode_utf8(key@),
                enc_record(val@),
            ),
            Err(e) => e == KvError::StorageFailure && bucket_view(*final(bucket)) == bucket_view(
                *old(bucket),
            ),
        },
{
    let vb = encode(&val);
    engine_set(bucket, key.as_bytes(), vb.as_slice())
}

/// Deletes the entry under `key`. Removing an absent key is a success that
/// changes nothing, so a repeated remove succeeds too; on failure the bucket
/// is unchanged.
pub fn remove(bucket: &mut Bucket, key: &str) -> (r: Result<(), KvError>)
    ensures
        match r {
            Ok(_) => bucket_view(*final(bucket)) == bucket_view(*old(bucket)).remove(encode_utf8(key@)),
            Err(e) => e == KvError::StorageFailure && bucket_view(*final(bucket)) == bucket_view(
                *old(bucket),
            ),
        },
{
    engine_remove(bucket, key.as_bytes())
}

/// The writes of a transaction batch, as byte pairs.
pub open spec fn tx_view(ts: Seq<(String, Record)>) -> Seq<(Seq<u8>, Seq<u8>)> {
    ts.map_values(|p: (String, Record)| (encode_utf8(p.0@), enc_record(p.1@)))
}

/// Applies every pair of `ts` as one atomic unit: after an `Ok` the bucket
/// holds all the writes — for a key written more than once, its last write —
/// and after an `Err` it holds exactly what it held before. There is no
/// partial application.
pub fn transaction(bucket: &mut Bucket, ts: &Vec<(String, Record)>) -> (r: Result<(), KvError>)
    ensures
        forall|j: int| 0 <= j < ts@.len() ==> record_wf((#[trigger] ts@[j]).1@),
        match r {
            Ok(_) => bucket_view(*final(bucket)) == insert_all(bucket_view(*old(bucket)), tx_view(ts@)),
            Err(e) => e == KvError::TransactionAborted && bucket_view(*final(bucket)) == bucket_view(
                *old(bucket),
            ),
        },
{
    let mut entries: Vec<(Vec<u8>, Vec<u8>)> = Vec::new();
    let n = ts.len();
    let mut i: usize = 0;
    while i < n
        invariant
            i <= n,
            n == ts@.len(),
            entries@.len() == i,
            pairs_view(entries@) == tx_view(ts@.take(i as int)),
            forall|j: int| 0 <= j < i ==> record_wf((#[trigger] ts@[j]).1@),
        decreases n - i,
    {
        let pair = &ts[i];
        let kb = pair.0.as_str().as_bytes_vec();
        let vb = encode(&pair.1);
        let ghost entries_before = entries@;
        let ghost kbv = kb@;
        let ghost vbv = vb@;
        entries.push((kb, vb));
        proof {
            assert(kbv == encode_utf8(ts@[i as int].0@));
            assert(vbv == enc_record(ts@[i as int].1@));
            assert(pairs_view(entries@) =~= pairs_view(entries_before).push((kbv, vbv)));
            assert(ts@.take(i + 1) =~= ts@.take(i as int).push(ts@[i as int]));
            assert(tx_view(ts@.take(i + 1)) =~= tx_view(ts@.take(i as int)).push(
                (encode_utf8(ts@[i as int].0@), enc_record(ts@[i as int].1@)),
            ));
            assert(pairs_view(entries@) =~= tx_view(ts@.take(i + 1)));
        }
        i = i + 1;
    }
    proof {
        assert(ts@.take(n as int) =~= ts@);
    }
    engine_transaction(bucket, &entries)
}

/// The view of an optional borrowed filter.
pub open spec fn opt_filter_view(filter: Option<&Filter>) -> Option<FilterView> {
    match filter {
        Some(f) => Some(f@),
        None => None,
    }
}

/// Whether an entry with this key and record name passes the filter: both
/// constraints must hold (conjunction), and an absent constraint passes
/// everything.
pub open spec fn filter_pass(f: Option<FilterView>, key: Seq<char>, name: Seq<char>) -> bool {
    match f {
        None => true,
        Some(ff) => {
            &&& match ff.key {
                Some(p) => wild_match(p, key),
                None => true,
            }
            &&& match ff.name {
                Some(p) => wild_match(p, name),
                None => true,
            }
        },
    }
}

/// What a scan yields from the raw entries, in their order: each key's bytes
/// read back as a string, each value decoded as a record, and the filtered
/// entries kept. Any entry whose key or value does not decode makes the whole
/// scan corrupt: one malformed entry aborts the enumeration rather than being
/// silently skipped.
pub open spec fn scan_spec(es: Seq<(Seq<u8>, Seq<u8>)>, f: Option<FilterView>) -> Option<
    Seq<KVRecordView>,
>
    decreases es.len(),
{
    if es.len() == 0 {
        Some(Seq::empty())
    } else if !valid_utf8(es[0].0) {
        None
    } else {
        match dec_record(es[0].1) {
            None => None,
            Some(rec) => match scan_spec(es.skip(1), f) {
                None => None,
                Some(rest) => {
                    let key = decode_utf8(es[0].0);
                    if filter_pass(f, key, rec.name) {
                        Some(seq![KVRecordView { key, record: rec }] + rest)
                    } else {
                        Some(rest)
                    }
                },
            },
        }
    }
}

/// Decodes and filters raw entries, exactly as `scan_spec` says: the verified
/// half of a scan, applicable to any enumeration the engine hands back.
pub fn filter_entries(entries: &Vec<(Vec<u8>, Vec<u8>)>, filter: Option<&Filter>) -> (r: Result<
    Vec<KVRecord>,
    KvError,
>)
    ensures
        ({
            let fv = opt_filter_view(filter);
            match r {
                Ok(v) => scan_spec(pairs_view(entries@), fv) == Some(
                    v@.map_values(|x: KVRecord| x@),
                ),
                Err(e) => e == KvError::CorruptRecord && scan_spec(pairs_view(entries@), fv)
                    is None,
            }
        }),
{
    let ghost pv = pairs_view(entries@);
    let ghost fv = opt_filter_view(filter);
    let mut out: Vec<KVRecord> = Vec::new();
    let n = entries.len();
    let mut i: usize = 0;
    proof {
        assert forall|rest: Seq<KVRecordView>| Seq::<KVRecordView>::empty() + rest == rest by {
            assert(Seq::<KVRecordView>::empty() + rest =~= rest);
        }
        assert(pv.skip(0) =~= pv);
        assert(out@.map_values(|x: KVRecord| x@) =~= Seq::<KVRecordView>::empty());
    }
    while i < n
        invariant
            i <= n,
            n == entries@.len(),
            pv == pairs_view(entries@),
            fv == opt_filter_view(filter),
            pv.len() == n,
            ({
                let full = scan_spec(pv, fv);
                match scan_spec(pv.skip(i as int), fv) {
                    Some(rest) => full == Some(out@.map_values(|x: KVRecord| x@) + rest),
                    None => full is None,
                }
            }),
        decreases n - i,
    {
        let entry = &entries[i];
        proof {
            assert(pv.skip(i as int)[0] == pv[i as int]);
            assert(pv[i as int] == (entry.0@, entry.1@));
            assert(pv.skip(i as int).skip(1) =~= pv.skip(i + 1));
        }
        let key_str = match utf8_to_str(entry.0.as_slice()) {
            Some(s) => s,
            None => {
                return Err(KvError::CorruptRecord);
            },
        };
        let rec = match decode(&entry.1) {
            Ok(rec) => rec,
            Err(_) => {
                return Err(KvError::CorruptRecord);
            },
        };
        let passes = match filter {
            None => true,
            Some(f) => {
                let key_ok = match &f.key {
                    Some(p) => glob_match(p.as_str(), key_str),
                    None => true,
                };
                let name_ok = if key_ok {
                    match &f.name {
                        Some(p) => glob_match(p.as_str(), rec.name.as_str()),
                        None => true,
                    }
                } else {
                    false
                };
                key_ok && name_ok
            },
        };
        proof {
            assert(passes == filter_pass(fv, decode_utf8(entry.0@), rec@.name));
        }
        let ghost prev_map = out@.map_values(|x: KVRecord| x@);
        if passes {
            let item = KVRecord { key: key_str.to_owned(), record: rec };
            proof {
                let rest1 = scan_spec(pv.skip(i + 1), fv);
                match rest1 {
                    Some(rest) => {
                        assert(out@.push(item).map_values(|x: KVRecord| x@) =~= prev_map.push(
                            item@,
                        ));
                        assert(prev_map + (seq![item@] + rest) =~= prev_map.push(item@) + rest);
                    },
                    None => {},
                }
            }
            out.push(item);
        }
        i = i + 1;
    }
    proof {
        assert(pv.skip(n as int).len() == 0);
        assert(out@.map_values(|x: KVRecord| x@) + Seq::<KVRecordView>::empty() =~= out@.map_values(
            |x: KVRecord| x@,
        ));
    }
    Ok(out)
}

/// Walks every live entry of the bucket, in the engine's ascending key order,
/// decodes each through the record model, and applies the optional
/// conjunctive filter. The result is materialized in full: a snapshot, not a
/// cursor. Any two sorted enumerations of the same contents coincide
/// (`crate::model::lemma_entries_match_unique`), so the result is a function
/// of the bucket's contents and the filter.
pub fn get_all(bucket: &Bucket, filter: Option<&Filter>) -> (r: Result<Vec<KVRecord>, KvError>)
    ensures
        ({
            let m = bucket_view(*bucket);
            let fv = opt_filter_view(filter);
            match r {
                Ok(v) => exists|es: Seq<(Seq<u8>, Seq<u8>)>|
                    #[trigger] entries_match(m, es) && scan_spec(es, fv) == Some(
                        v@.map_values(|x: KVRecord| x@),
                    ),
                Err(e) => e == KvError::StorageFailure || (e == KvError::CorruptRecord
                    && exists|es: Seq<(Seq<u8>, Seq<u8>)>|
                    #[trigger] entries_match(m, es) && scan_spec(es, fv) is None),
            }
        }),
{
    match iter(bucket) {
        Err(e) => Err(e),
        Ok(entries) => {
            let ghost es = pairs_view(entries@);
            let r = filter_entries(&entries, filter);
            proof {
                assert(entries_match(bucket_view(*bucket), es));
            }
            r
        },
    }
}

} // verus!
