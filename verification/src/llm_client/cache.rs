//! A cache of replies in memory: what was written last under a key is what
//! is read under it.

use crate::llm_client::message::{CacheKey, CacheKeyView, CacheVal, CacheValView};
use vstd::prelude::*;

verus! {

/// The replies that are kept, each under the key of its request.
#[derive(Clone, Debug, PartialEq, Eq)]
pub struct Cache {
    pub entries: Vec<(CacheKey, CacheVal)>,
}

/// What a list of entries holds, entry by entry.
pub open spec fn entry_views(entries: Seq<(CacheKey, CacheVal)>) -> Seq<
    (CacheKeyView, CacheValView),
> {
    Seq::new(entries.len(), |i: int| (entries[i].0@, entries[i].1@))
}

/// The map that a list of entries stands for: a later entry replaces an
/// earlier one of the same key.
pub open spec fn stored(entries: Seq<(CacheKeyView, CacheValView)>) -> Map<
    CacheKeyView,
    CacheValView,
>
    decreases entries.len(),
{
    if entries.len() == 0 {
        Map::empty()
    } else {
        stored(entries.drop_last()).insert(entries.last().0, entries.last().1)
    }
}

impl View for Cache {
    type V = Map<CacheKeyView, CacheValView>;

    open spec fn view(&self) -> Map<CacheKeyView, CacheValView> {
        stored(entry_views(self.entries@))
    }
}

impl Cache {
    /// A cache that holds nothing.
    pub fn new() -> (cache: Cache)
        ensures
            cache@ == Map::<CacheKeyView, CacheValView>::empty(),
    {
        let cache = Cache { entries: Vec::new() };
        assert(entry_views(cache.entries@) =~= Seq::empty());
        cache
    }

    /// The reply that is kept under `key`, if any.
    pub fn get(&self, key: &CacheKey) -> (found: Option<CacheVal>)
        ensures
            match found {
                Some(val) => self@.contains_key(key@) && self@[key@] == val@,
                None => !self@.contains_key(key@),
            },
    {
        let ghost all = entry_views(self.entries@);
        let mut i: usize = self.entries.len();
        assert(all.take(i as int) =~= all);
        while i > 0
            invariant
                i <= self.entries.len(),
                all == entry_views(self.entries@),
                self@.contains_key(key@) == stored(all.take(i as int)).contains_key(key@),
                self@.contains_key(key@) ==> self@[key@] == stored(all.take(i as int))[key@],
            decreases i,
        {
            proof {
                assert(all.take(i as int).drop_last() =~= all.take(i - 1));
                assert(all.take(i as int).last() == all[i - 1]);
            }
            i -= 1;
            if self.entries[i].0.same_as(key) {
                return Some(self.entries[i].1.copy());
            }
        }
        None
    }

    /// Keeps `val` under `key`, in place of what was kept under it before.
    pub fn insert(&mut self, key: CacheKey, val: CacheVal)
        ensures
            final(self)@ == old(self)@.insert(key@, val@),
    {
        let ghost before = entry_views(self.entries@);
        self.entries.push((key, val));
        proof {
            let after = entry_views(self.entries@);
            assert(after.drop_last() =~= before);
            assert(after.last() == (key@, val@));
        }
    }
}

} // verus!
