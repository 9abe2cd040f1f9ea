//! The attribute container of one annotation: a mapping from attribute key to
//! [`TodoAttributeValue`], keys unique, where a later insert of a key
//! overwrites the earlier one. Its view is a `Map<Seq<char>, AttrValueModel>`.

use vstd::prelude::*;

use crate::text::str_eq;
use crate::{AttrValueModel, TodoAttributeValue};

verus! {

/// One key/value pair held by an [`AttrMap`].
#[derive(Debug, Clone)]
pub struct AttrEntry {
    pub key: String,
    pub value: TodoAttributeValue,
}

/// No key occurs twice among `es`.
pub open spec fn unique_keys(es: Seq<AttrEntry>) -> bool {
    forall|i: int, j: int| 0 <= i < j < es.len() ==> es[i].key@ != es[j].key@
}

/// Some entry of `es` has key `k`.
pub open spec fn seq_has_key(es: Seq<AttrEntry>, k: Seq<char>) -> bool {
    exists|i: int| 0 <= i < es.len() && es[i].key@ == k
}

/// The index of the entry with key `k`.
pub open spec fn seq_key_index(es: Seq<AttrEntry>, k: Seq<char>) -> int {
    choose|i: int| 0 <= i < es.len() && es[i].key@ == k
}

/// The mapping that a sequence of entries denotes.
pub open spec fn entries_map(es: Seq<AttrEntry>) -> Map<Seq<char>, AttrValueModel> {
    Map::new(
        |k: Seq<char>| seq_has_key(es, k),
        |k: Seq<char>| es[seq_key_index(es, k)].value@,
    )
}

proof fn lemma_key_index(es: Seq<AttrEntry>, k: Seq<char>, i: int)
    requires
        unique_keys(es),
        0 <= i < es.len(),
        es[i].key@ == k,
    ensures
        seq_key_index(es, k) == i,
        entries_map(es)[k] == es[i].value@,
        entries_map(es).dom().contains(k),
{
    assert(seq_has_key(es, k));
    let j = seq_key_index(es, k);
    assert(0 <= j < es.len() && es[j].key@ == k);
    if j < i {
        assert(es[j].key@ != es[i].key@);
    } else if j > i {
        assert(es[i].key@ != es[j].key@);
    }
}

proof fn lemma_push_entry(es: Seq<AttrEntry>, e: AttrEntry)
    requires
        unique_keys(es),
        !seq_has_key(es, e.key@),
    ensures
        unique_keys(es.push(e)),
        entries_map(es.push(e)) == entries_map(es).insert(e.key@, e.value@),
{
    let es2 = es.push(e);
    assert forall|i: int, j: int| 0 <= i < j < es2.len() implies es2[i].key@ != es2[j].key@ by {
        if j < es.len() {
            assert(es[i].key@ != es[j].key@);
        } else {
            if es2[i].key@ == e.key@ {
                assert(es[i].key@ == e.key@);
            }
        }
    }
    let m1 = entries_map(es2);
    let m2 = entries_map(es).insert(e.key@, e.value@);
    assert forall|k: Seq<char>| #[trigger] m1.dom().contains(k) implies m2.dom().contains(k)
        && m1[k] == m2[k] by {
        let w = seq_key_index(es2, k);
        assert(0 <= w < es2.len() && es2[w].key@ == k);
        if w == es.len() {
            lemma_key_index(es2, k, es.len() as int);
            assert(m1[k] == e.value@);
        } else {
            assert(es[w].key@ == k);
            assert(seq_has_key(es, k));
            assert(k != e.key@);
            lemma_key_index(es2, k, w);
            lemma_key_index(es, k, w);
        }
    }
    assert forall|k: Seq<char>| #[trigger] m2.dom().contains(k) implies m1.dom().contains(k) by {
        if k == e.key@ {
            assert(es2[es.len() as int].key@ == k);
            assert(seq_has_key(es2, k));
        } else {
            let w = seq_key_index(es, k);
            assert(0 <= w < es.len() && es[w].key@ == k);
            assert(es2[w].key@ == k);
            assert(seq_has_key(es2, k));
        }
    }
    assert(m1 =~= m2);
}

proof fn lemma_remove_entry(es: Seq<AttrEntry>, i: int)
    requires
        unique_keys(es),
        0 <= i < es.len(),
    ensures
        unique_keys(es.remove(i)),
        !seq_has_key(es.remove(i), es[i].key@),
        entries_map(es.remove(i)) == entries_map(es).remove(es[i].key@),
{
    let k0 = es[i].key@;
    let rem = es.remove(i);
    assert forall|a: int, b: int| 0 <= a < b < rem.len() implies rem[a].key@ != rem[b].key@ by {
        let a2 = if a < i { a } else { a + 1 };
        let b2 = if b < i { b } else { b + 1 };
        assert(rem[a] == es[a2]);
        assert(rem[b] == es[b2]);
        assert(es[a2].key@ != es[b2].key@);
    }
    assert forall|j: int| 0 <= j < rem.len() implies rem[j].key@ != k0 by {
        let j2 = if j < i { j } else { j + 1 };
        assert(rem[j] == es[j2]);
        if j2 < i {
            assert(es[j2].key@ != es[i].key@);
        } else {
            assert(es[i].key@ != es[j2].key@);
        }
    }
    let m1 = entries_map(rem);
    let m2 = entries_map(es).remove(k0);
    assert forall|k: Seq<char>| #[trigger] m1.dom().contains(k) implies m2.dom().contains(k)
        && m1[k] == m2[k] by {
        let w = seq_key_index(rem, k);
        assert(0 <= w < rem.len() && rem[w].key@ == k);
        assert(k != k0);
        let w2 = if w < i { w } else { w + 1 };
        assert(rem[w] == es[w2]);
        lemma_key_index(rem, k, w);
        lemma_key_index(es, k, w2);
    }
    assert forall|k: Seq<char>| #[trigger] m2.dom().contains(k) implies m1.dom().contains(k) by {
        let w = seq_key_index(es, k);
        assert(0 <= w < es.len() && es[w].key@ == k);
        assert(k != k0);
        assert(w != i);
        let w2 = if w < i { w } else { w - 1 };
        assert(rem[w2] == es[w]);
        assert(seq_has_key(rem, k));
    }
    assert(m1 =~= m2);
}

fn find_key(es: &Vec<AttrEntry>, key: &str) -> (r: Option<usize>)
    ensures
        match r {
            Some(i) => i < es@.len() && es@[i as int].key@ == key@,
            None => !seq_has_key(es@, key@),
        },
{
    let mut i: usize = 0;
    while i < es.len()
        invariant
            i <= es@.len(),
            forall|j: int| 0 <= j < i ==> es@[j].key@ != key@,
        decreases es@.len() - i,
    {
        if str_eq(es[i].key.as_str(), key) {
            return Some(i);
        }
        i += 1;
    }
    proof {
        if seq_has_key(es@, key@) {
            let w = seq_key_index(es@, key@);
            assert(0 <= w < es@.len() && es@[w].key@ == key@);
        }
    }
    None
}

/// The attribute set of one annotation.
#[derive(Debug, Clone)]
pub struct AttrMap {
    entries: Vec<AttrEntry>,
}

impl View for AttrMap {
    type V = Map<Seq<char>, AttrValueModel>;

    closed spec fn view(&self) -> Map<Seq<char>, AttrValueModel> {
        entries_map(self.entries@)
    }
}

impl AttrMap {
    /// Each key is held at most once.
    pub closed spec fn wf(&self) -> bool {
        unique_keys(self.entries@)
    }

    /// The entries as stored, in insertion order.
    pub closed spec fn spec_entries(&self) -> Seq<AttrEntry> {
        self.entries@
    }

    /// The empty attribute set.
    pub fn new() -> (r: AttrMap)
        ensures
            r.wf(),
            r@ == Map::<Seq<char>, AttrValueModel>::empty(),
    {
        let r = AttrMap { entries: Vec::new() };
        proof {
            assert(r@ =~= Map::<Seq<char>, AttrValueModel>::empty());
        }
        r
    }

    /// Insert `value` under `key`; an existing entry with that key is
    /// overwritten.
    pub fn insert(&mut self, key: String, value: TodoAttributeValue)
        requires
            old(self).wf(),
        ensures
            final(self).wf(),
            final(self)@ == old(self)@.insert(key@, value@),
    {
        let found = find_key(&self.entries, key.as_str());
        let ghost es0 = self.entries@;
        match found {
            Some(i) => {
                proof {
                    lemma_remove_entry(es0, i as int);
                }
                let _ = self.entries.remove(i);
                let e = AttrEntry { key, value };
                proof {
                    lemma_push_entry(es0.remove(i as int), e);
                }
                self.entries.push(e);
                proof {
                    assert(self@ =~= old(self)@.insert(e.key@, e.value@));
                }
            },
            None => {
                let e = AttrEntry { key, value };
                proof {
                    lemma_push_entry(es0, e);
                }
                self.entries.push(e);
            },
        }
    }

    /// Look the key up; `None` exactly when no entry has it.
    pub fn get(&self, key: &str) -> (r: Option<&TodoAttributeValue>)
        requires
            self.wf(),
        ensures
            match r {
                Some(v) => self@.dom().contains(key@) && v@ == self@[key@],
                None => !self@.dom().contains(key@),
            },
    {
        match find_key(&self.entries, key) {
            Some(i) => {
                proof {
                    lemma_key_index(self.entries@, key@, i as int);
                }
                Some(&self.entries[i].value)
            },
            None => None,
        }
    }

    /// How many entries are held.
    pub fn len(&self) -> (n: usize)
        ensures
            n == self.spec_entries().len(),
    {
        self.entries.len()
    }

    /// The key of the entry at `i`, in insertion order.
    pub fn key_at(&self, i: usize) -> (r: &String)
        requires
            i < self.spec_entries().len(),
        ensures
            r@ == self.spec_entries()[i as int].key@,
    {
        &self.entries[i].key
    }

    /// The value of the entry at `i`, in insertion order.
    pub fn value_at(&self, i: usize) -> (r: &TodoAttributeValue)
        requires
            i < self.spec_entries().len(),
        ensures
            r@ == self.spec_entries()[i as int].value@,
    {
        &self.entries[i].value
    }
}

} // verus!
