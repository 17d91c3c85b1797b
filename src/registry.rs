//! The module registry: module handles keyed by lowercase module name.
use vstd::prelude::*;
use crate::text::{lower_of, lowercase};

verus! {

/// One registered module: its lowercase name and its handle.
pub struct Entry<H> {
    pub key: String,
    pub handle: H,
}

/// The map that a list of entries stands for, later entries overriding
/// earlier ones.
pub open spec fn map_of<H>(entries: Seq<Entry<H>>) -> Map<Seq<char>, H>
    decreases entries.len(),
{
    if entries.len() == 0 {
        Map::empty()
    } else {
        map_of(entries.drop_last()).insert(entries.last().key@, entries.last().handle)
    }
}

/// No two entries share a key.
pub open spec fn keys_distinct<H>(entries: Seq<Entry<H>>) -> bool {
    forall|i: int, j: int|
        0 <= i < entries.len() && 0 <= j < entries.len() && i != j
            ==> #[trigger] entries[i].key@ != #[trigger] entries[j].key@
}

/// The key under which a module declaring `name` is registered and found.
pub open spec fn key_of(name: Seq<char>) -> Seq<char> {
    lower_of(name)
}

proof fn lemma_map_of_absent<H>(entries: Seq<Entry<H>>, k: Seq<char>)
    requires
        forall|i: int| 0 <= i < entries.len() ==> #[trigger] entries[i].key@ != k,
    ensures
        !map_of(entries).contains_key(k),
    decreases entries.len(),
{
    if entries.len() > 0 {
        lemma_map_of_absent(entries.drop_last(), k);
    }
}

proof fn lemma_map_of_at<H>(entries: Seq<Entry<H>>, i: int)
    requires
        keys_distinct(entries),
        0 <= i < entries.len(),
    ensures
        map_of(entries).contains_key(entries[i].key@),
        map_of(entries)[entries[i].key@] == entries[i].handle,
    decreases entries.len(),
{
    if i < entries.len() - 1 {
        let rest = entries.drop_last();
        assert(rest[i] == entries[i]);
        assert(keys_distinct(rest)) by {
            assert forall|a: int, b: int|
                0 <= a < rest.len() && 0 <= b < rest.len() && a != b
                    implies #[trigger] rest[a].key@ != #[trigger] rest[b].key@ by {
                assert(rest[a] == entries[a] && rest[b] == entries[b]);
            }
        }
        lemma_map_of_at(rest, i);
        assert(entries.last().key@ != entries[i].key@);
    }
}

proof fn lemma_map_of_len<H>(entries: Seq<Entry<H>>)
    requires
        keys_distinct(entries),
    ensures
        map_of(entries).dom().finite(),
        map_of(entries).len() == entries.len(),
    decreases entries.len(),
{
    if entries.len() > 0 {
        let rest = entries.drop_last();
        assert(keys_distinct(rest)) by {
            assert forall|a: int, b: int|
                0 <= a < rest.len() && 0 <= b < rest.len() && a != b
                    implies #[trigger] rest[a].key@ != #[trigger] rest[b].key@ by {
                assert(rest[a] == entries[a] && rest[b] == entries[b]);
            }
        }
        lemma_map_of_len(rest);
        assert forall|i: int| 0 <= i < rest.len() implies #[trigger] rest[i].key@
            != entries.last().key@ by {
            assert(rest[i] == entries[i]);
        }
        lemma_map_of_absent(rest, entries.last().key@);
    }
}

proof fn lemma_map_of_update<H>(entries: Seq<Entry<H>>, i: int, e: Entry<H>)
    requires
        keys_distinct(entries),
        0 <= i < entries.len(),
        e.key@ == entries[i].key@,
    ensures
        map_of(entries.update(i, e)) == map_of(entries).insert(e.key@, e.handle),
    decreases entries.len(),
{
    let updated = entries.update(i, e);
    if i == entries.len() - 1 {
        assert(updated.drop_last() == entries.drop_last());
        let rest = entries.drop_last();
        assert forall|j: int| 0 <= j < rest.len() implies #[trigger] rest[j].key@ != e.key@ by {
            assert(rest[j] == entries[j]);
        }
        lemma_map_of_absent(rest, e.key@);
        assert(map_of(updated) =~= map_of(entries).insert(e.key@, e.handle));
    } else {
        let rest = entries.drop_last();
        assert(keys_distinct(rest)) by {
            assert forall|a: int, b: int|
                0 <= a < rest.len() && 0 <= b < rest.len() && a != b
                    implies #[trigger] rest[a].key@ != #[trigger] rest[b].key@ by {
                assert(rest[a] == entries[a] && rest[b] == entries[b]);
            }
        }
        lemma_map_of_update(rest, i, e);
        assert(updated.drop_last() == rest.update(i, e));
        assert(updated.last() == entries.last());
        assert(entries.last().key@ != e.key@);
        assert(map_of(updated) =~= map_of(entries).insert(e.key@, e.handle));
    }
}

/// Validated module handles, each under the lowercase form of the name its
/// module declared. A name is present only once its handle is complete.
pub struct ModuleRegistry<H> {
    entries: Vec<Entry<H>>,
}

impl<H> View for ModuleRegistry<H> {
    type V = Map<Seq<char>, H>;

    closed spec fn view(&self) -> Map<Seq<char>, H> {
        map_of(self.entries@)
    }
}

impl<H: Copy> ModuleRegistry<H> {
    /// The registry's internal invariant: one entry per key.
    pub closed spec fn wf(&self) -> bool {
        keys_distinct(self.entries@)
    }

    /// An empty registry.
    pub fn new() -> (r: Self)
        ensures
            r.wf(),
            r@ == Map::<Seq<char>, H>::empty(),
    {
        ModuleRegistry { entries: Vec::new() }
    }

    /// The number of registered modules.
    pub fn len(&self) -> (r: usize)
        requires
            self.wf(),
        ensures
            self@.dom().finite(),
            r == self@.len(),
    {
        proof {
            lemma_map_of_len(self.entries@);
        }
        self.entries.len()
    }

    /// The position of the entry under `key`, if any.
    fn position(&self, key: &String) -> (r: Option<usize>)
        requires
            self.wf(),
        ensures
            match r {
                Some(i) => i < self.entries@.len() && self.entries@[i as int].key@ == key@,
                None => forall|i: int|
                    0 <= i < self.entries@.len() ==> #[trigger] self.entries@[i].key@ != key@,
            },
    {
        let mut i: usize = 0;
        while i < self.entries.len()
            invariant
                i <= self.entries@.len(),
                forall|j: int| 0 <= j < i ==> #[trigger] self.entries@[j].key@ != key@,
            decreases self.entries@.len() - i,
        {
            if self.entries[i].key == *key {
                return Some(i);
            }
            i = i + 1;
        }
        None
    }

    /// Registers `handle` under the lowercase form of `name`, replacing any
    /// handle registered under the same key.
    pub fn register(&mut self, name: &str, handle: H)
        requires
            old(self).wf(),
        ensures
            final(self).wf(),
            final(self)@ == old(self)@.insert(key_of(name@), handle),
    {
        let key = lowercase(name);
        match self.position(&key) {
            Some(i) => {
                proof {
                    lemma_map_of_update(self.entries@, i as int, Entry { key, handle });
                }
                self.entries.set(i, Entry { key, handle });
            },
            None => {
                let ghost before = self.entries@;
                self.entries.push(Entry { key, handle });
                proof {
                    assert(self.entries@.drop_last() == before);
                }
            },
        }
    }

    /// The handle registered under the lowercase form of `name`, if any.
    pub fn lookup(&self, name: &str) -> (r: Option<H>)
        requires
            self.wf(),
        ensures
            r == (if self@.contains_key(key_of(name@)) {
                Some(self@[key_of(name@)])
            } else {
                None::<H>
            }),
    {
        let key = lowercase(name);
        match self.position(&key) {
            Some(i) => {
                proof {
                    lemma_map_of_at(self.entries@, i as int);
                }
                Some(self.entries[i].handle)
            },
            None => {
                proof {
                    lemma_map_of_absent(self.entries@, key@);
                }
                None
            },
        }
    }
}

} // verus!
