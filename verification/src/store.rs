//! The key-value store: a single mapping from byte-string key to byte-string
//! value, viewed as a `Map<Seq<u8>, Seq<u8>>`. Keys are unique; there is no
//! delete, no expiry and no size limit. Callers receive copies on read and
//! hand over ownership on write.

use vstd::prelude::*;
use vstd::pervasive::VecAdditionalExecFns;
use vstd::slice::slice_to_vec;

use crate::bytes::bytes_eq;

verus! {

/// The association-list reading of the entries, later entries winning. With
/// unique keys every entry is visible.
spec fn entries_map(es: Seq<(Vec<u8>, Vec<u8>)>) -> Map<Seq<u8>, Seq<u8>>
    decreases es.len(),
{
    if es.len() == 0 {
        Map::empty()
    } else {
        entries_map(es.drop_last()).insert(es.last().0@, es.last().1@)
    }
}

/// Pairwise distinct keys.
spec fn unique_keys(es: Seq<(Vec<u8>, Vec<u8>)>) -> bool {
    forall|i: int, j: int| 0 <= i < j < es.len() ==> es[i].0@ != es[j].0@
}

/// A key held by no entry is not in the map.
proof fn lemma_entries_map_no_key(es: Seq<(Vec<u8>, Vec<u8>)>, k: Seq<u8>)
    requires
        forall|j: int| 0 <= j < es.len() ==> es[j].0@ != k,
    ensures
        !entries_map(es).contains_key(k),
    decreases es.len(),
{
    if es.len() > 0 {
        lemma_entries_map_no_key(es.drop_last(), k);
    }
}

/// With unique keys, the entry holding `k` gives the map's value at `k`.
proof fn lemma_entries_map_at(es: Seq<(Vec<u8>, Vec<u8>)>, i: int)
    requires
        unique_keys(es),
        0 <= i < es.len(),
    ensures
        entries_map(es).contains_key(es[i].0@),
        entries_map(es)[es[i].0@] == es[i].1@,
    decreases es.len(),
{
    if i + 1 < es.len() {
        lemma_entries_map_at(es.drop_last(), i);
    }
}

/// Replacing the entry that holds `k` is inserting at `k`.
proof fn lemma_entries_map_update(es: Seq<(Vec<u8>, Vec<u8>)>, i: int, e: (Vec<u8>, Vec<u8>))
    requires
        unique_keys(es),
        0 <= i < es.len(),
        es[i].0@ == e.0@,
    ensures
        entries_map(es.update(i, e)) == entries_map(es).insert(e.0@, e.1@),
    decreases es.len(),
{
    let upd = es.update(i, e);
    if i + 1 == es.len() {
        assert(upd.drop_last() =~= es.drop_last());
        assert(upd.last() == e);
        assert(entries_map(es.drop_last()).insert(es.last().0@, es.last().1@).insert(e.0@, e.1@)
            =~= entries_map(es.drop_last()).insert(e.0@, e.1@));
    } else {
        lemma_entries_map_update(es.drop_last(), i, e);
        assert(upd.drop_last() =~= es.drop_last().update(i, e));
        assert(upd.last() == es.last());
        assert(es[i].0@ != es.last().0@);
        assert(entries_map(es.drop_last()).insert(e.0@, e.1@).insert(es.last().0@, es.last().1@)
            =~= entries_map(es.drop_last()).insert(es.last().0@, es.last().1@).insert(
            e.0@,
            e.1@,
        ));
    }
}

/// Appending a fresh key is inserting it.
proof fn lemma_entries_map_push(es: Seq<(Vec<u8>, Vec<u8>)>, e: (Vec<u8>, Vec<u8>))
    ensures
        entries_map(es.push(e)) == entries_map(es).insert(e.0@, e.1@),
{
    assert(es.push(e).drop_last() =~= es);
    assert(es.push(e).last() == e);
}

/// Finds the entry holding `key`, if any.
fn find_idx(es: &Vec<(Vec<u8>, Vec<u8>)>, key: &Vec<u8>) -> (r: Option<usize>)
    ensures
        match r {
            Some(i) => i < es@.len() && es@[i as int].0@ == key@,
            None => forall|j: int| 0 <= j < es@.len() ==> es@[j].0@ != key@,
        },
{
    let n = es.len();
    let mut i: usize = 0;
    while i < n
        invariant
            i <= n,
            n == es@.len(),
            forall|j: int| 0 <= j < i ==> es@[j].0@ != key@,
        decreases n - i,
    {
        if bytes_eq(es[i].0.as_slice(), key.as_slice()) {
            return Some(i);
        }
        i = i + 1;
    }
    None
}

/// The process-wide mapping from key to value. Created once, shared by every
/// connection; the connection glue serializes access to it, so each call here
/// is one critical section's worth of work and nothing more.
pub struct Store {
    entries: Vec<(Vec<u8>, Vec<u8>)>,
}

impl View for Store {
    type V = Map<Seq<u8>, Seq<u8>>;

    closed spec fn view(&self) -> Map<Seq<u8>, Seq<u8>> {
        entries_map(self.entries@)
    }
}

impl Store {
    /// Every key appears in at most one entry.
    #[verifier::type_invariant]
    spec fn wf(&self) -> bool {
        unique_keys(self.entries@)
    }

    /// An empty store.
    pub fn new() -> (s: Store)
        ensures
            s@ == Map::<Seq<u8>, Seq<u8>>::empty(),
    {
        Store { entries: Vec::new() }
    }

    /// A copy of the current value under `key`, or `None` if the key was
    /// never written.
    pub fn get(&self, key: &Vec<u8>) -> (r: Option<Vec<u8>>)
        ensures
            match r {
                Some(v) => self@.contains_key(key@) && v@ == self@[key@],
                None => !self@.contains_key(key@),
            },
    {
        proof {
            use_type_invariant(self);
        }
        match find_idx(&self.entries, key) {
            Some(i) => {
                proof {
                    lemma_entries_map_at(self.entries@, i as int);
                }
                Some(slice_to_vec(self.entries[i].1.as_slice()))
            },
            None => {
                proof {
                    lemma_entries_map_no_key(self.entries@, key@);
                }
                None
            },
        }
    }

    /// Inserts or overwrites the value under `key`.
    pub fn set(&mut self, key: Vec<u8>, value: Vec<u8>)
        ensures
            final(self)@ == old(self)@.insert(key@, value@),
    {
        proof {
            use_type_invariant(&*self);
        }
        let mut es: Vec<(Vec<u8>, Vec<u8>)> = Vec::new();
        core::mem::swap(&mut es, &mut self.entries);
        let ghost old_es = es@;
        match find_idx(&es, &key) {
            Some(i) => {
                proof {
                    lemma_entries_map_update(old_es, i as int, (key, value));
                }
                es.set(i, (key, value));
            },
            None => {
                proof {
                    lemma_entries_map_push(old_es, (key, value));
                }
                es.push((key, value));
            },
        }
        proof {
            assert(unique_keys(es@));
        }
        self.entries = es;
    }
}

} // verus!
