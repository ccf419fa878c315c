//! The pool as a list of entries: what it means to put a transaction in, and
//! how the list relates to a map from keys to transactions.

use vstd::prelude::*;
use crate::blockchain::TransactionView;

verus! {

/// Whether no two of the entries have the same sender and nonce.
pub open spec fn distinct_keys(entries: Seq<TransactionView>) -> bool {
    forall|i: int, j: int|
        0 <= i < j < entries.len() ==> (#[trigger] entries[i]).key() != (#[trigger] entries[j]).key()
}

/// Whether one of the entries has the key.
pub open spec fn has_key(entries: Seq<TransactionView>, key: (Seq<char>, u64)) -> bool {
    exists|i: int| 0 <= i < entries.len() && (#[trigger] entries[i]).key() == key
}

/// The place of the first entry with the key.
pub open spec fn position(entries: Seq<TransactionView>, key: (Seq<char>, u64)) -> int {
    choose|i: int|
        0 <= i < entries.len() && (#[trigger] entries[i]).key() == key && forall|j: int|
            0 <= j < i ==> (#[trigger] entries[j]).key() != key
}

/// The entries after `tx` was put among them: it takes the place of the
/// entry with its key, or comes last where there is none.
pub open spec fn inserted(entries: Seq<TransactionView>, tx: TransactionView) -> Seq<TransactionView> {
    if has_key(entries, tx.key()) {
        entries.update(position(entries, tx.key()), tx)
    } else {
        entries.push(tx)
    }
}

/// The entries by their keys. Of two entries with one key the later counts.
pub open spec fn keyed(entries: Seq<TransactionView>) -> Map<(Seq<char>, u64), TransactionView>
    decreases entries.len(),
{
    if entries.len() == 0 {
        Map::empty()
    } else {
        keyed(entries.drop_last()).insert(entries.last().key(), entries.last())
    }
}

/// The first entry with a key is where `position` says.
pub proof fn lemma_position(entries: Seq<TransactionView>, key: (Seq<char>, u64), at: int)
    requires
        0 <= at < entries.len(),
        entries[at].key() == key,
        forall|j: int| 0 <= j < at ==> (#[trigger] entries[j]).key() != key,
    ensures
        has_key(entries, key),
        position(entries, key) == at,
{
    let found = position(entries, key);
    assert(0 <= found < entries.len() && entries[found].key() == key && forall|j: int|
        0 <= j < found ==> (#[trigger] entries[j]).key() != key);
    if found < at {
        assert(entries[found].key() != key);
    }
    if at < found {
        assert(entries[at].key() != key);
    }
}

/// The keys of `keyed` are the keys of the entries.
pub proof fn lemma_keyed_dom(entries: Seq<TransactionView>)
    ensures
        keyed(entries).dom().finite(),
        forall|k: (Seq<char>, u64)| #[trigger] keyed(entries).contains_key(k) <==> has_key(entries, k),
    decreases entries.len(),
{
    if entries.len() > 0 {
        let front = entries.drop_last();
        let last = entries.last();
        lemma_keyed_dom(front);
        assert forall|k: (Seq<char>, u64)| #[trigger]
            keyed(entries).contains_key(k) <==> has_key(entries, k) by {
            if has_key(entries, k) {
                let i = choose|i: int| 0 <= i < entries.len() && (#[trigger] entries[i]).key() == k;
                if i < entries.len() - 1 {
                    assert(front[i].key() == k);
                    assert(has_key(front, k));
                }
            }
            if keyed(entries).contains_key(k) {
                if k == last.key() {
                    assert(entries[entries.len() - 1].key() == k);
                } else {
                    assert(has_key(front, k));
                    let i = choose|i: int| 0 <= i < front.len() && (#[trigger] front[i]).key() == k;
                    assert(entries[i].key() == k);
                }
            }
        }
    }
}

/// Where no key occurs twice, `keyed` holds each entry under its key, and as
/// many keys as there are entries.
pub proof fn lemma_keyed_distinct(entries: Seq<TransactionView>)
    requires
        distinct_keys(entries),
    ensures
        keyed(entries).dom().finite(),
        keyed(entries).dom().len() == entries.len(),
        forall|i: int|
            0 <= i < entries.len() ==> keyed(entries).contains_key((#[trigger] entries[i]).key())
                && keyed(entries)[entries[i].key()] == entries[i],
    decreases entries.len(),
{
    lemma_keyed_dom(entries);
    if entries.len() > 0 {
        let front = entries.drop_last();
        let last = entries.last();
        assert forall|i: int, j: int| 0 <= i < j < front.len() implies (#[trigger] front[i]).key()
            != (#[trigger] front[j]).key() by {
            assert(front[i] == entries[i] && front[j] == entries[j]);
        }
        lemma_keyed_distinct(front);
        lemma_keyed_dom(front);
        if has_key(front, last.key()) {
            let i = choose|i: int| 0 <= i < front.len() && (#[trigger] front[i]).key() == last.key();
            assert(entries[i].key() == entries[entries.len() - 1].key());
        }
        assert(!keyed(front).dom().contains(last.key()));
        assert(keyed(entries).dom() =~= keyed(front).dom().insert(last.key()));
        assert forall|i: int| 0 <= i < entries.len() implies keyed(entries).contains_key(
            (#[trigger] entries[i]).key(),
        ) && keyed(entries)[entries[i].key()] == entries[i] by {
            if i < entries.len() - 1 {
                assert(front[i] == entries[i]);
                assert(entries[i].key() != entries[entries.len() - 1].key());
            }
        }
    } else {
        assert(keyed(entries).dom() =~= Set::<(Seq<char>, u64)>::empty());
    }
}

/// Putting a transaction among entries with distinct keys leaves the keys
/// distinct, and by key it is a plain insertion: the transaction is held
/// under its key, whatever was there before, and nothing else changes.
pub proof fn lemma_inserted(entries: Seq<TransactionView>, tx: TransactionView)
    requires
        distinct_keys(entries),
    ensures
        distinct_keys(inserted(entries, tx)),
        keyed(inserted(entries, tx)) == keyed(entries).insert(tx.key(), tx),
        inserted(entries, tx).len() == if has_key(entries, tx.key()) {
            entries.len()
        } else {
            entries.len() + 1
        },
{
    let after = inserted(entries, tx);
    if has_key(entries, tx.key()) {
        let at = position(entries, tx.key());
        assert forall|i: int| 0 <= i < after.len() implies (#[trigger] after[i]).key()
            == entries[i].key() by {}
        assert forall|i: int, j: int| 0 <= i < j < after.len() implies (#[trigger] after[i]).key()
            != (#[trigger] after[j]).key() by {
            assert(entries[i].key() != entries[j].key());
        }
        lemma_keyed_distinct(entries);
        lemma_keyed_distinct(after);
        lemma_keyed_dom(entries);
        lemma_keyed_dom(after);
        let target = keyed(entries).insert(tx.key(), tx);
        assert forall|k: (Seq<char>, u64)| keyed(after).contains_key(k) implies #[trigger]
            target.contains_key(k) && keyed(after)[k] == target[k] by {
            let i = choose|i: int| 0 <= i < after.len() && (#[trigger] after[i]).key() == k;
            assert(entries[i].key() == k);
            if i != at {
                if i < at {
                    assert(entries[i].key() != entries[at].key());
                } else {
                    assert(entries[at].key() != entries[i].key());
                }
            }
        }
        assert forall|k: (Seq<char>, u64)| target.contains_key(k) implies #[trigger]
            keyed(after).contains_key(k) by {
            if k == tx.key() {
                assert(after[at].key() == k);
            } else {
                let i = choose|i: int| 0 <= i < entries.len() && (#[trigger] entries[i]).key() == k;
                assert(after[i].key() == k);
            }
        }
        assert(keyed(after) =~= target);
    } else {
        assert(after.drop_last() =~= entries);
        assert forall|i: int, j: int| 0 <= i < j < after.len() implies (#[trigger] after[i]).key()
            != (#[trigger] after[j]).key() by {
            if j == after.len() - 1 {
                assert(entries[i].key() != tx.key());
            } else {
                assert(entries[i].key() != entries[j].key());
            }
        }
    }
}

} // verus!
