use vstd::prelude::*;
use vstd::seq_lib::lemma_seq_contains_after_push;

use crate::{canonical, CollisionMapKey};

verus! {

/// The overlap state table: the pairs that the last scan found overlapping.
/// Every operation takes a key as an unordered pair: `(a, b)` and `(b, a)`
/// name the same entry.
#[derive(Clone, Debug, Default)]
pub struct CollisionMap {
    pub map: Vec<CollisionMapKey>,
}

impl View for CollisionMap {
    type V = Set<CollisionMapKey>;

    open spec fn view(&self) -> Set<CollisionMapKey> {
        Set::new(|k: CollisionMapKey| self.map@.contains(k))
    }
}

impl CollisionMap {
    pub fn new() -> (r: Self)
        ensures
            r@ == Set::<CollisionMapKey>::empty(),
    {
        let r = CollisionMap { map: Vec::new() };
        assert(r@ =~= Set::<CollisionMapKey>::empty());
        r
    }

    pub fn contains(&self, key: &CollisionMapKey) -> (r: bool)
        ensures
            r == self@.contains(canonical(*key)),
    {
        let wanted = key.canonical();
        let mut i: usize = 0;
        while i < self.map.len()
            invariant
                i <= self.map@.len(),
                wanted == canonical(*key),
                forall|k: int| 0 <= k < i ==> self.map@[k] != wanted,
            decreases self.map@.len() - i,
        {
            if self.map[i] == wanted {
                assert(self.map@[i as int] == wanted);
                assert(self.map@.contains(wanted));
                return true;
            }
            i = i + 1;
        }
        false
    }

    pub fn insert(&mut self, key: CollisionMapKey)
        ensures
            final(self)@ == old(self)@.insert(canonical(key)),
    {
        broadcast use vstd::seq_lib::group_seq_properties;

        let key = key.canonical();
        if !self.contains(&key) {
            self.map.push(key);
        }
        assert(self@ =~= old(self)@.insert(key));
    }

    /// Keeps the entries that mention neither `entity` (when `Some`) nor are
    /// `key` (when `Some`).
    fn retain_other(&mut self, key: Option<CollisionMapKey>, entity: Option<u64>)
        ensures
            forall|k: CollisionMapKey|
                #[trigger] final(self)@.contains(k) <==> (old(self)@.contains(k) && !dropped(
                    k,
                    key,
                    entity,
                )),
    {
        let mut kept: Vec<CollisionMapKey> = Vec::new();
        let mut i: usize = 0;
        while i < self.map.len()
            invariant
                i <= self.map@.len(),
                forall|d: CollisionMapKey|
                    #[trigger] kept@.contains(d) <==> (!dropped(d, key, entity) && self.map@.take(
                        i as int,
                    ).contains(d)),
            decreases self.map@.len() - i,
        {
            let c = self.map[i];
            let ghost before = kept@;
            assert(self.map@.take(i + 1) == self.map@.take(i as int).push(c));
            let drop = match key {
                Some(k) => c == k,
                None => false,
            } || match entity {
                Some(e) => c.entity_a == e || c.entity_b == e,
                None => false,
            };
            if !drop {
                kept.push(c);
            }
            assert forall|d: CollisionMapKey|
                #[trigger] kept@.contains(d) <==> (!dropped(d, key, entity) && self.map@.take(
                    i + 1,
                ).contains(d)) by {
                lemma_seq_contains_after_push(self.map@.take(i as int), c, d);
                lemma_seq_contains_after_push(before, c, d);
            }
            i = i + 1;
        }
        assert(self.map@.take(i as int) == self.map@);
        self.map = kept;
    }

    pub fn remove(&mut self, key: &CollisionMapKey)
        ensures
            final(self)@ == old(self)@.remove(canonical(*key)),
    {
        let key = key.canonical();
        self.retain_other(Some(key), None);
        assert(self@ =~= old(self)@.remove(key));
    }

    /// Purges every entry that involves `entity`; the host calls this when
    /// the entity is destroyed.
    pub fn on_entity_removed(&mut self, entity: u64)
        ensures
            final(self)@ == old(self)@.filter(
                |k: CollisionMapKey| k.entity_a != entity && k.entity_b != entity,
            ),
    {
        self.retain_other(None, Some(entity));
        assert(self@ =~= old(self)@.filter(
            |k: CollisionMapKey| k.entity_a != entity && k.entity_b != entity,
        ));
    }
}

spec fn dropped(k: CollisionMapKey, key: Option<CollisionMapKey>, entity: Option<u64>) -> bool {
    (key == Some(k)) || (match entity {
        Some(e) => k.entity_a == e || k.entity_b == e,
        None => false,
    })
}

} // verus!
