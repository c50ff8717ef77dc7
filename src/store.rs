use vstd::prelude::*;

use std::collections::HashMap;

use crate::clock::now_millis;

verus! {

broadcast use vstd::std_specs::hash::group_hash_axioms;

/// The page sets of the live sessions, each under its session key.
pub struct PaginationStore {
    sessions: HashMap<u64, Vec<String>>,
}

impl View for PaginationStore {
    type V = Map<u64, Seq<String>>;

    closed spec fn view(&self) -> Map<u64, Seq<String>> {
        self.sessions@.map_values(|pages: Vec<String>| pages@)
    }
}

/// The page at `index` of the session `key`, if both exist.
pub open spec fn page_at(m: Map<u64, Seq<String>>, key: u64, index: usize) -> Option<String> {
    if m.contains_key(key) && index < m[key].len() {
        Some(m[key][index as int])
    } else {
        None
    }
}

impl PaginationStore {
    /// A store with no sessions.
    pub fn new() -> (r: PaginationStore)
        ensures
            r@ == Map::<u64, Seq<String>>::empty(),
    {
        let r = PaginationStore { sessions: HashMap::new() };
        proof {
            assert(r@ =~= Map::<u64, Seq<String>>::empty());
        }
        r
    }

    /// Stores `pages` under `key`, in place of what was there.
    pub fn insert_at(&mut self, key: u64, pages: Vec<String>)
        ensures
            final(self)@ == old(self)@.insert(key, pages@),
    {
        self.sessions.insert(key, pages);
        proof {
            assert(final(self)@ =~= old(self)@.insert(key, pages@));
        }
    }

    /// Stores `pages` under a fresh key taken from the clock, the current time in
    /// milliseconds, and returns that key.
    pub fn insert(&mut self, pages: Vec<String>) -> (key: u64)
        ensures
            final(self)@ == old(self)@.insert(key, pages@),
    {
        let key = now_millis() as u64;
        self.insert_at(key, pages);
        key
    }

    /// The page at `index` of the session `key`; nothing when the session is gone or
    /// the index is out of range.
    pub fn get(&self, key: u64, index: usize) -> (r: Option<String>)
        ensures
            r == page_at(self@, key, index),
    {
        match self.sessions.get(&key) {
            Some(pages) => {
                if index < pages.len() {
                    Some(pages[index].clone())
                } else {
                    None
                }
            },
            None => None,
        }
    }

    /// The number of pages of the session `key`, if it is live.
    pub fn page_count(&self, key: u64) -> (r: Option<usize>)
        ensures
            r matches Some(n) ==> self@.contains_key(key) && n == self@[key].len(),
            r is None <==> !self@.contains_key(key),
    {
        match self.sessions.get(&key) {
            Some(pages) => Some(pages.len()),
            None => None,
        }
    }

    /// Ends the session `key`; nothing happens when there is none.
    pub fn remove(&mut self, key: u64)
        ensures
            final(self)@ == old(self)@.remove(key),
    {
        self.sessions.remove(&key);
        proof {
            assert(final(self)@ =~= old(self)@.remove(key));
        }
    }
}

/// Reading a page right after storing a page set gives that set's page, whatever the
/// store held before, and other sessions keep theirs.
pub proof fn lemma_get_after_insert(
    before: Map<u64, Seq<String>>,
    key: u64,
    pages: Seq<String>,
    other: u64,
    index: usize,
)
    ensures
        page_at(before.insert(key, pages), key, index) == (if index < pages.len() {
            Some(pages[index as int])
        } else {
            None::<String>
        }),
        other != key ==> page_at(before.insert(key, pages), other, index) == page_at(before, other, index),
        other != key ==> page_at(before.remove(other), key, index) == page_at(before, key, index),
{
}

/// The store after a run of operations, each either storing a page set under a key
/// (`true`) or removing a key (`false`).
pub open spec fn after_ops(m: Map<u64, Seq<String>>, ops: Seq<(bool, u64, Seq<String>)>) -> Map<
    u64,
    Seq<String>,
>
    decreases ops.len(),
{
    if ops.len() == 0 {
        m
    } else {
        let last = ops.last();
        let prior = after_ops(m, ops.drop_last());
        if last.0 {
            prior.insert(last.1, last.2)
        } else {
            prior.remove(last.1)
        }
    }
}

/// A session's pages stay readable, unchanged, through any run of inserts and removes
/// on other keys, in any interleaving.
pub proof fn lemma_sessions_isolated(
    before: Map<u64, Seq<String>>,
    key: u64,
    pages: Seq<String>,
    ops: Seq<(bool, u64, Seq<String>)>,
    index: usize,
)
    requires
        forall|j: int| 0 <= j < ops.len() ==> (#[trigger] ops[j]).1 != key,
    ensures
        page_at(after_ops(before.insert(key, pages), ops), key, index) == (if index < pages.len() {
            Some(pages[index as int])
        } else {
            None::<String>
        }),
    decreases ops.len(),
{
    if ops.len() > 0 {
        assert forall|j: int| 0 <= j < ops.drop_last().len() implies (
        #[trigger] ops.drop_last()[j]).1 != key by {
            assert(ops.drop_last()[j] == ops[j]);
        }
        lemma_sessions_isolated(before, key, pages, ops.drop_last(), index);
        assert(ops.last() == ops[ops.len() - 1]);
    }
}

/// After a session is removed, none of its pages can be read, whatever the store held.
pub proof fn lemma_get_after_remove(before: Map<u64, Seq<String>>, key: u64, index: usize)
    ensures
        page_at(before.remove(key), key, index) is None,
{
}

} // verus!
