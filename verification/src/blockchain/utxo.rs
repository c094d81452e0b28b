//! Outpoints and the set of unspent transaction outputs.

use vstd::prelude::*;

use crate::blockchain::transaction::{OutputModel, TransactionOutput};
use crate::utils::bytes::bytes_eq;

verus! {

/// Represents an outpoint, referencing a specific output in a transaction.
pub struct OutPoint {
    /// Transaction ID.
    pub txid: Vec<u8>,
    /// Output index.
    pub index: u32,
}

/// The key of an outpoint: a transaction id and an output index.
pub type OutKey = (Seq<u8>, u32);

impl View for OutPoint {
    type V = OutKey;

    open spec fn view(&self) -> OutKey {
        (self.txid@, self.index)
    }
}

impl Clone for OutPoint {
    fn clone(&self) -> (res: Self)
        ensures
            res@ == self@,
    {
        OutPoint { txid: self.txid.clone(), index: self.index }
    }
}

/// The mathematical UTXO set: outpoint keys to outputs.
pub type UtxoMap = Map<OutKey, OutputModel>;

/// The set of unspent transaction outputs, keyed by outpoint.
pub struct UtxoSet {
    entries: Vec<(OutPoint, TransactionOutput)>,
}

pub open spec fn entry_key(e: (OutPoint, TransactionOutput)) -> OutKey {
    e.0@
}

/// No two entries share a key.
pub open spec fn entries_distinct(s: Seq<(OutPoint, TransactionOutput)>) -> bool {
    forall|i: int, j: int|
        0 <= i < s.len() && 0 <= j < s.len() && i != j ==> entry_key(#[trigger] s[i]) != entry_key(
            #[trigger] s[j],
        )
}

pub open spec fn has_key_at(s: Seq<(OutPoint, TransactionOutput)>, i: int, k: OutKey) -> bool {
    0 <= i < s.len() && entry_key(s[i]) == k
}

/// The map that a list of entries stands for.
pub open spec fn entries_view(s: Seq<(OutPoint, TransactionOutput)>) -> UtxoMap {
    Map::new(
        |k: OutKey| exists|i: int| #[trigger] has_key_at(s, i, k),
        |k: OutKey| s[choose|i: int| #[trigger] has_key_at(s, i, k)].1@,
    )
}

pub proof fn lemma_view_at(s: Seq<(OutPoint, TransactionOutput)>, i: int)
    requires
        entries_distinct(s),
        0 <= i < s.len(),
    ensures
        entries_view(s).contains_key(entry_key(s[i])),
        entries_view(s)[entry_key(s[i])] == s[i].1@,
{
    let k = entry_key(s[i]);
    assert(has_key_at(s, i, k));
    let j = choose|j: int| #[trigger] has_key_at(s, j, k);
    assert(has_key_at(s, j, k));
    if j != i {
        assert(entry_key(s[i]) != entry_key(s[j]));
    }
}

impl View for UtxoSet {
    type V = UtxoMap;

    closed spec fn view(&self) -> UtxoMap {
        entries_view(self.entries@)
    }
}

impl UtxoSet {
    /// The set is well formed: no outpoint occurs twice.
    pub closed spec fn wf(&self) -> bool {
        entries_distinct(self.entries@)
    }

    /// An empty set.
    pub fn new() -> (res: Self)
        ensures
            res.wf(),
            res@ == Map::<OutKey, OutputModel>::empty(),
    {
        let res = UtxoSet { entries: Vec::new() };
        assert(res@ =~= Map::<OutKey, OutputModel>::empty());
        res
    }

    /// The number of unspent outputs.
    pub fn len(&self) -> (res: usize)
        requires
            self.wf(),
        ensures
            res == self@.len(),
    {
        proof {
            self.lemma_len();
        }
        self.entries.len()
    }

    proof fn lemma_len(&self)
        requires
            self.wf(),
        ensures
            self@.dom().finite(),
            self@.len() == self.entries@.len(),
        decreases self.entries@.len(),
    {
        let s = self.entries@;
        let keys = s.map_values(|e: (OutPoint, TransactionOutput)| entry_key(e));
        assert forall|k: OutKey| self@.contains_key(k) <==> keys.contains(k) by {
            if self@.contains_key(k) {
                let i = choose|i: int| #[trigger] has_key_at(s, i, k);
                assert(keys[i] == k);
            }
            if keys.contains(k) {
                let i = choose|i: int| 0 <= i < keys.len() && keys[i] == k;
                assert(has_key_at(s, i, k));
            }
        }
        assert(self@.dom() =~= keys.to_set());
        assert forall|i: int, j: int| 0 <= i < keys.len() && 0 <= j < keys.len() && i != j implies keys[i] != keys[j] by {
            assert(entry_key(s[i]) != entry_key(s[j]));
        }
        keys.unique_seq_to_set();
    }

    /// The position of the entry with the given key, if any.
    fn find(&self, txid: &[u8], index: u32) -> (res: Option<usize>)
        ensures
            match res {
                Some(i) => has_key_at(self.entries@, i as int, (txid@, index)),
                None => forall|i: int| !(#[trigger] has_key_at(self.entries@, i, (txid@, index))),
            },
    {
        let n = self.entries.len();
        let mut i: usize = 0;
        while i < n
            invariant
                n == self.entries@.len(),
                i <= n,
                forall|j: int| 0 <= j < i ==> !(#[trigger] has_key_at(self.entries@, j, (txid@, index))),
            decreases n - i,
        {
            let e = &self.entries[i];
            if e.0.index == index && bytes_eq(e.0.txid.as_slice(), txid) {
                return Some(i);
            }
            i = i + 1;
        }
        None
    }

    /// Whether the outpoint `(txid, index)` is unspent.
    pub fn contains_key(&self, txid: &[u8], index: u32) -> (res: bool)
        requires
            self.wf(),
        ensures
            res == self@.contains_key((txid@, index)),
    {
        match self.find(txid, index) {
            Some(i) => {
                proof {
                    lemma_view_at(self.entries@, i as int);
                }
                true
            },
            None => false,
        }
    }

    /// A copy of the output at outpoint `(txid, index)`, if it is unspent.
    pub fn get(&self, txid: &[u8], index: u32) -> (res: Option<TransactionOutput>)
        requires
            self.wf(),
        ensures
            match res {
                Some(o) => self@.contains_key((txid@, index)) && o@ == self@[(txid@, index)],
                None => !self@.contains_key((txid@, index)),
            },
    {
        match self.find(txid, index) {
            Some(i) => {
                proof {
                    lemma_view_at(self.entries@, i as int);
                }
                Some(self.entries[i].1.clone())
            },
            None => None,
        }
    }

    /// Removes the outpoint `(txid, index)`, if present.
    pub fn remove(&mut self, txid: &[u8], index: u32)
        requires
            old(self).wf(),
        ensures
            final(self).wf(),
            final(self)@ == old(self)@.remove((txid@, index)),
    {
        let ghost k = (txid@, index);
        match self.find(txid, index) {
            Some(i) => {
                let ghost s = self.entries@;
                self.entries.remove(i);
                let ghost t = self.entries@;
                proof {
                    assert(t =~= s.remove(i as int));
                    assert forall|a: int, b: int|
                        0 <= a < t.len() && 0 <= b < t.len() && a != b implies entry_key(
                        #[trigger] t[a],
                    ) != entry_key(#[trigger] t[b]) by {
                        let a2 = if a < i { a } else { a + 1 };
                        let b2 = if b < i { b } else { b + 1 };
                        assert(t[a] == s[a2] && t[b] == s[b2]);
                        assert(entry_key(s[a2]) != entry_key(s[b2]));
                    }
                    assert forall|k2: OutKey| #[trigger] entries_view(t).contains_key(k2) <==> (
                    entries_view(s).contains_key(k2) && k2 != k) by {
                        if entries_view(t).contains_key(k2) {
                            let a = choose|a: int| #[trigger] has_key_at(t, a, k2);
                            let a2 = if a < i { a } else { a + 1 };
                            assert(t[a] == s[a2]);
                            assert(has_key_at(s, a2, k2));
                            assert(entry_key(s[a2]) != entry_key(s[i as int]));
                        }
                        if entries_view(s).contains_key(k2) && k2 != k {
                            let a = choose|a: int| #[trigger] has_key_at(s, a, k2);
                            assert(a != i);
                            let a2 = if a < i { a } else { a - 1 };
                            assert(t[a2] == s[a]);
                            assert(has_key_at(t, a2, k2));
                        }
                    }
                    assert forall|k2: OutKey| #[trigger] entries_view(t).contains_key(k2) implies entries_view(
                    t)[k2] == entries_view(s)[k2] by {
                        let a = choose|a: int| #[trigger] has_key_at(t, a, k2);
                        let a2 = if a < i { a } else { a + 1 };
                        assert(t[a] == s[a2]);
                        lemma_view_at(t, a);
                        lemma_view_at(s, a2);
                    }
                    assert(entries_view(t) =~= entries_view(s).remove(k));
                }
            },
            None => {
                assert(self@ =~= old(self)@.remove(k));
            },
        }
    }

    /// Inserts `output` at `outpoint`, replacing what was there.
    pub fn insert(&mut self, outpoint: OutPoint, output: TransactionOutput)
        requires
            old(self).wf(),
        ensures
            final(self).wf(),
            final(self)@ == old(self)@.insert(outpoint@, output@),
    {
        let ghost k = outpoint@;
        let ghost v = output@;
        self.remove(outpoint.txid.as_slice(), outpoint.index);
        let ghost s = self.entries@;
        assert(!entries_view(s).contains_key(k));
        self.entries.push((outpoint, output));
        let ghost t = self.entries@;
        proof {
            assert(t =~= s.push((t[s.len() as int].0, t[s.len() as int].1)));
            assert forall|a: int, b: int|
                0 <= a < t.len() && 0 <= b < t.len() && a != b implies entry_key(#[trigger] t[a])
                != entry_key(#[trigger] t[b]) by {
                if a < s.len() && b < s.len() {
                    assert(t[a] == s[a] && t[b] == s[b]);
                } else if a < s.len() {
                    assert(t[a] == s[a]);
                    assert(has_key_at(s, a, entry_key(s[a])));
                } else {
                    assert(t[b] == s[b]);
                    assert(has_key_at(s, b, entry_key(s[b])));
                }
            }
            assert forall|k2: OutKey| #[trigger] entries_view(t).contains_key(k2) <==> (
            entries_view(s).contains_key(k2) || k2 == k) by {
                if entries_view(t).contains_key(k2) && k2 != k {
                    let a = choose|a: int| #[trigger] has_key_at(t, a, k2);
                    assert(a < s.len());
                    assert(has_key_at(s, a, k2));
                }
                if entries_view(s).contains_key(k2) {
                    let a = choose|a: int| #[trigger] has_key_at(s, a, k2);
                    assert(has_key_at(t, a, k2));
                }
                if k2 == k {
                    assert(has_key_at(t, s.len() as int, k2));
                }
            }
            assert forall|k2: OutKey| #[trigger] entries_view(t).contains_key(k2) implies entries_view(
            t)[k2] == entries_view(s).insert(k, v)[k2] by {
                let a = choose|a: int| #[trigger] has_key_at(t, a, k2);
                lemma_view_at(t, a);
                if a < s.len() {
                    assert(t[a] == s[a]);
                    lemma_view_at(s, a);
                }
            }
            assert(entries_view(t) =~= entries_view(s).insert(k, v));
        }
    }

    /// The entries of the set, in their stored order.
    pub fn entries(&self) -> (res: Vec<(OutPoint, TransactionOutput)>)
        requires
            self.wf(),
        ensures
            entries_distinct(res@),
            entries_view(res@) == self@,
            res@.len() == self@.len(),
    {
        proof {
            self.lemma_len();
        }
        let n = self.entries.len();
        let mut out: Vec<(OutPoint, TransactionOutput)> = Vec::new();
        let mut i: usize = 0;
        while i < n
            invariant
                n == self.entries@.len(),
                i <= n,
                out@.len() == i,
                forall|j: int| 0 <= j < i ==> #[trigger] out@[j].0@ == self.entries@[j].0@ && out@[j].1@
                    == self.entries@[j].1@,
            decreases n - i,
        {
            let e = &self.entries[i];
            out.push((e.0.clone(), e.1.clone()));
            i = i + 1;
        }
        proof {
            let s = self.entries@;
            let t = out@;
            assert forall|a: int, b: int|
                0 <= a < t.len() && 0 <= b < t.len() && a != b implies entry_key(#[trigger] t[a])
                != entry_key(#[trigger] t[b]) by {
                assert(entry_key(s[a]) != entry_key(s[b]));
            }
            assert forall|k2: OutKey| #[trigger] entries_view(t).contains_key(k2) <==> entries_view(
            s).contains_key(k2) by {
                if entries_view(t).contains_key(k2) {
                    let a = choose|a: int| #[trigger] has_key_at(t, a, k2);
                    assert(has_key_at(s, a, k2));
                }
                if entries_view(s).contains_key(k2) {
                    let a = choose|a: int| #[trigger] has_key_at(s, a, k2);
                    assert(has_key_at(t, a, k2));
                }
            }
            assert forall|k2: OutKey| #[trigger] entries_view(t).contains_key(k2) implies entries_view(
            t)[k2] == entries_view(s)[k2] by {
                let a = choose|a: int| #[trigger] has_key_at(t, a, k2);
                lemma_view_at(t, a);
                lemma_view_at(s, a);
            }
            assert(entries_view(t) =~= entries_view(s));
        }
        out
    }
}

impl Clone for UtxoSet {
    fn clone(&self) -> (res: Self)
        ensures
            self.wf() ==> res.wf() && res@ == self@,
    {
        let mut out: Vec<(OutPoint, TransactionOutput)> = Vec::new();
        let n = self.entries.len();
        let mut i: usize = 0;
        while i < n
            invariant
                n == self.entries@.len(),
                i <= n,
                out@.len() == i,
                forall|j: int| 0 <= j < i ==> #[trigger] out@[j].0@ == self.entries@[j].0@ && out@[j].1@
                    == self.entries@[j].1@,
            decreases n - i,
        {
            let e = &self.entries[i];
            out.push((e.0.clone(), e.1.clone()));
            i = i + 1;
        }
        let res = UtxoSet { entries: out };
        proof {
            if self.wf() {
                let s = self.entries@;
                let t = out@;
                assert forall|a: int, b: int|
                    0 <= a < t.len() && 0 <= b < t.len() && a != b implies entry_key(#[trigger] t[a])
                    != entry_key(#[trigger] t[b]) by {
                    assert(entry_key(s[a]) != entry_key(s[b]));
                }
                assert forall|k2: OutKey| #[trigger] entries_view(t).contains_key(k2) <==> entries_view(
                s).contains_key(k2) by {
                    if entries_view(t).contains_key(k2) {
                        let a = choose|a: int| #[trigger] has_key_at(t, a, k2);
                        assert(has_key_at(s, a, k2));
                    }
                    if entries_view(s).contains_key(k2) {
                        let a = choose|a: int| #[trigger] has_key_at(s, a, k2);
                        assert(has_key_at(t, a, k2));
                    }
                }
                assert forall|k2: OutKey| #[trigger] entries_view(t).contains_key(k2) implies entries_view(
                t)[k2] == entries_view(s)[k2] by {
                    let a = choose|a: int| #[trigger] has_key_at(t, a, k2);
                    lemma_view_at(t, a);
                    lemma_view_at(s, a);
                }
                assert(entries_view(t) =~= entries_view(s));
            }
        }
        res
    }
}

} // verus!
