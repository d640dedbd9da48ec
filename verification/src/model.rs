//! The mathematical model of a bucket: a map from byte keys to byte values,
//! together with the laws the command dispatcher's contracts are stated over.

use vstd::prelude::*;
use vstd::utf8::{encode_utf8, encode_utf8_decode_utf8};

verus! {

/// Strict lexicographic order over byte sequences: the order in which the
/// engine enumerates its keys.
pub open spec fn lex_lt(a: Seq<u8>, b: Seq<u8>) -> bool
    decreases a.len(),
{
    if b.len() == 0 {
        false
    } else if a.len() == 0 {
        true
    } else if a[0] < b[0] {
        true
    } else if a[0] > b[0] {
        false
    } else {
        lex_lt(a.skip(1), b.skip(1))
    }
}

/// The views of a list of byte-pair buffers.
pub open spec fn pairs_view(s: Seq<(Vec<u8>, Vec<u8>)>) -> Seq<(Seq<u8>, Seq<u8>)> {
    s.map_values(|p: (Vec<u8>, Vec<u8>)| (p.0@, p.1@))
}

/// `es` enumerates exactly the entries of `m`, in strictly ascending byte-key
/// order.
pub open spec fn entries_match(m: Map<Seq<u8>, Seq<u8>>, es: Seq<(Seq<u8>, Seq<u8>)>) -> bool {
    &&& forall|i: int, j: int| 0 <= i < j < es.len() ==> lex_lt(es[i].0, es[j].0)
    &&& forall|i: int|
        0 <= i < es.len() ==> m.contains_key(#[trigger] es[i].0) && m[es[i].0] == es[i].1
    &&& forall|k: Seq<u8>|
        m.contains_key(k) ==> exists|i: int| 0 <= i < es.len() && (#[trigger] es[i].0) == k
}

pub proof fn lemma_lex_irreflexive(a: Seq<u8>)
    ensures
        !lex_lt(a, a),
    decreases a.len(),
{
    if a.len() > 0 {
        lemma_lex_irreflexive(a.skip(1));
    }
}

pub proof fn lemma_lex_asymmetric(a: Seq<u8>, b: Seq<u8>)
    requires
        lex_lt(a, b),
    ensures
        !lex_lt(b, a),
    decreases a.len(),
{
    if b.len() == 0 {
    } else if a.len() == 0 {
    } else if a[0] < b[0] {
    } else if a[0] > b[0] {
    } else {
        lemma_lex_asymmetric(a.skip(1), b.skip(1));
    }
}

/// A sorted enumeration of given contents is unique: any two entry lists that
/// both enumerate `m` in strictly ascending key order are the same list. So a
/// scan's output is a function of the bucket's contents.
pub proof fn lemma_entries_match_unique(
    m: Map<Seq<u8>, Seq<u8>>,
    es1: Seq<(Seq<u8>, Seq<u8>)>,
    es2: Seq<(Seq<u8>, Seq<u8>)>,
)
    requires
        entries_match(m, es1),
        entries_match(m, es2),
    ensures
        es1 == es2,
    decreases es1.len(),
{
    if es1.len() == 0 {
        if es2.len() > 0 {
            assert(m.contains_key(es2[0].0));
            assert(exists|i: int| 0 <= i < es1.len() && (#[trigger] es1[i].0) == es2[0].0);
        }
        assert(es1 =~= es2);
    } else if es2.len() == 0 {
        assert(m.contains_key(es1[0].0));
        assert(exists|i: int| 0 <= i < es2.len() && (#[trigger] es2[i].0) == es1[0].0);
    } else {
        let k1 = es1[0].0;
        let k2 = es2[0].0;
        assert(m.contains_key(k1) && m.contains_key(k2));
        let j = choose|j: int| 0 <= j < es2.len() && (#[trigger] es2[j].0) == k1;
        let i = choose|i: int| 0 <= i < es1.len() && (#[trigger] es1[i].0) == k2;
        if j > 0 && i > 0 {
            assert(lex_lt(k2, k1));
            assert(lex_lt(k1, k2));
            lemma_lex_asymmetric(k1, k2);
        }
        assert(k1 == k2);
        let t1 = es1.skip(1);
        let t2 = es2.skip(1);
        let m2 = m.remove(k1);
        assert forall|i: int| 0 <= i < t1.len() implies m2.contains_key(
            (#[trigger] t1[i]).0,
        ) && m2[t1[i].0] == t1[i].1 by {
            assert(t1[i] == es1[i + 1]);
            assert(lex_lt(k1, es1[i + 1].0));
            if es1[i + 1].0 == k1 {
                lemma_lex_irreflexive(k1);
            }
        }
        assert forall|k: Seq<u8>| m2.contains_key(k) implies exists|i: int|
            0 <= i < t1.len() && (#[trigger] t1[i].0) == k by {
            let i = choose|i: int| 0 <= i < es1.len() && (#[trigger] es1[i].0) == k;
            assert(i != 0);
            assert(t1[i - 1].0 == k);
        }
        assert forall|i: int| 0 <= i < t2.len() implies m2.contains_key(
            (#[trigger] t2[i]).0,
        ) && m2[t2[i].0] == t2[i].1 by {
            assert(t2[i] == es2[i + 1]);
            assert(lex_lt(k2, es2[i + 1].0));
            if es2[i + 1].0 == k2 {
                lemma_lex_irreflexive(k2);
            }
        }
        assert forall|k: Seq<u8>| m2.contains_key(k) implies exists|i: int|
            0 <= i < t2.len() && (#[trigger] t2[i].0) == k by {
            let i = choose|i: int| 0 <= i < es2.len() && (#[trigger] es2[i].0) == k;
            assert(i != 0);
            assert(t2[i - 1].0 == k);
        }
        assert(entries_match(m2, t1));
        assert(entries_match(m2, t2));
        lemma_entries_match_unique(m2, t1, t2);
        assert(es1[0].1 == m[k1] && es2[0].1 == m[k1]);
        assert forall|i: int| 0 <= i < es1.len() implies es1[i] == es2[i] by {
            if i > 0 {
                assert(es1[i] == t1[i - 1] && es2[i] == t2[i - 1]);
            }
        }
        assert(es1 =~= es2);
    }
}

/// The contents after writing every pair of `es`, in order.
pub open spec fn insert_all(m: Map<Seq<u8>, Seq<u8>>, es: Seq<(Seq<u8>, Seq<u8>)>) -> Map<
    Seq<u8>,
    Seq<u8>,
>
    decreases es.len(),
{
    if es.len() == 0 {
        m
    } else {
        insert_all(m.insert(es[0].0, es[0].1), es.skip(1))
    }
}

/// True when some pair of `es` writes the key `k`.
pub open spec fn writes_key(es: Seq<(Seq<u8>, Seq<u8>)>, k: Seq<u8>) -> bool {
    exists|i: int| 0 <= i < es.len() && (#[trigger] es[i].0) == k
}

/// The value of the last write of `k` in `es`.
pub open spec fn last_write(es: Seq<(Seq<u8>, Seq<u8>)>, k: Seq<u8>) -> Seq<u8>
    decreases es.len(),
{
    if es.len() == 0 {
        Seq::empty()
    } else if writes_key(es.skip(1), k) {
        last_write(es.skip(1), k)
    } else if es[0].0 == k {
        es[0].1
    } else {
        last_write(es.skip(1), k)
    }
}

/// What a batch of writes does to each key: a written key holds the value of
/// its last write, and every other key is untouched.
pub proof fn lemma_insert_all_effect(m: Map<Seq<u8>, Seq<u8>>, es: Seq<(Seq<u8>, Seq<u8>)>, k: Seq<u8>)
    ensures
        writes_key(es, k) ==> insert_all(m, es).contains_key(k) && insert_all(m, es)[k]
            == last_write(es, k),
        !writes_key(es, k) ==> insert_all(m, es).contains_key(k) == m.contains_key(k) && (
        m.contains_key(k) ==> insert_all(m, es)[k] == m[k]),
    decreases es.len(),
{
    if es.len() == 0 {
    } else {
        let m1 = m.insert(es[0].0, es[0].1);
        let tail = es.skip(1);
        lemma_insert_all_effect(m1, tail, k);
        if writes_key(tail, k) {
            let i = choose|i: int| 0 <= i < tail.len() && tail[i].0 == k;
            assert(es[i + 1].0 == k);
            assert(writes_key(es, k));
        } else {
            if es[0].0 == k {
                assert(writes_key(es, k));
                assert(last_write(es, k) == es[0].1);
            } else {
                assert(!writes_key(es, k)) by {
                    if writes_key(es, k) {
                        let i = choose|i: int| 0 <= i < es.len() && es[i].0 == k;
                        assert(i != 0);
                        assert(tail[i - 1].0 == k);
                        assert(writes_key(tail, k));
                    }
                }
            }
        }
    }
}

/// Idempotence of removal: removing a key twice leaves the same contents as
/// removing it once, and the key is gone either way. Together with `remove`'s
/// contract this says a repeated `remove` succeeds and changes nothing more.
pub proof fn lemma_remove_idempotent(m: Map<Seq<u8>, Seq<u8>>, k: Seq<u8>)
    ensures
        m.remove(k).remove(k) == m.remove(k),
        !m.remove(k).contains_key(k),
{
    assert(m.remove(k).remove(k) =~= m.remove(k));
}

/// Atomicity of a transaction: the contents after the call are either exactly
/// the prior contents with every write of the batch applied — each written
/// key holding its last written value, every other key untouched — or, when
/// the transaction failed, exactly the prior contents. No third outcome, and
/// in particular no partial application, satisfies `transaction`'s contract.
pub proof fn lemma_transaction_atomic(
    pre: Map<Seq<u8>, Seq<u8>>,
    es: Seq<(Seq<u8>, Seq<u8>)>,
    post: Map<Seq<u8>, Seq<u8>>,
    k: Seq<u8>,
)
    requires
        post == insert_all(pre, es) || post == pre,
    ensures
        post == pre ==> post.contains_key(k) == pre.contains_key(k) && (pre.contains_key(k)
            ==> post[k] == pre[k]),
        post == insert_all(pre, es) && writes_key(es, k) ==> post.contains_key(k) && post[k]
            == last_write(es, k),
        post == insert_all(pre, es) && !writes_key(es, k) ==> post.contains_key(k)
            == pre.contains_key(k) && (pre.contains_key(k) ==> post[k] == pre[k]),
{
    lemma_insert_all_effect(pre, es, k);
}

/// Distinct string keys are stored under distinct byte keys: UTF-8 encoding
/// is injective. Hence a write to one key is invisible to every other key.
pub proof fn lemma_utf8_injective(a: Seq<char>, b: Seq<char>)
    requires
        encode_utf8(a) == encode_utf8(b),
    ensures
        a == b,
{
    encode_utf8_decode_utf8(a);
    encode_utf8_decode_utf8(b);
}

/// Key isolation inside one bucket: writing under one string key changes
/// nothing a read of any other string key observes. Isolation across buckets
/// needs no law: every operation's contract constrains the one handle it
/// takes, so the contents of every other bucket stay what they were.
pub proof fn lemma_write_other_key_invisible(
    m: Map<Seq<u8>, Seq<u8>>,
    written: Seq<char>,
    read: Seq<char>,
    v: Seq<u8>,
)
    requires
        written != read,
    ensures
        ({
            let m2 = m.insert(encode_utf8(written), v);
            let kb = encode_utf8(read);
            m2.contains_key(kb) == m.contains_key(kb) && (m.contains_key(kb) ==> m2[kb] == m[kb])
        }),
{
    if encode_utf8(written) == encode_utf8(read) {
        lemma_utf8_injective(written, read);
    }
}

} // verus!
