//! Axis-aligned box overlap detection with a begin / ongoing / end lifecycle
//! per pair of entities, filtered by directional layer/mask visibility.
use vstd::prelude::*;
use std::collections::HashSet;

pub mod components;
pub mod events;
pub mod resources;
pub mod lifecycle;

use components::{boxes_overlap, sees, Collider, Collisions, Collision};
use events::{CollisionBegin, CollisionEnd, CollisionEvent, CollisionNotice};
use resources::CollisionMap;

verus! {

/// Unordered identity of a pair of entities. `new` stores the smaller
/// identifier first so that `(a, b)` and `(b, a)` give equal keys; the overlap
/// table puts every key it is handed in that order before using it, and
/// `same_pair` compares keys as unordered pairs whatever their field order.
#[derive(Clone, Copy, Debug, PartialEq, Eq, Hash, Structural)]
pub struct CollisionMapKey {
    pub entity_a: u64,
    pub entity_b: u64,
}

pub open spec fn pair_key(a: u64, b: u64) -> CollisionMapKey {
    if a <= b {
        CollisionMapKey { entity_a: a, entity_b: b }
    } else {
        CollisionMapKey { entity_a: b, entity_b: a }
    }
}

/// The key's two identifiers as an unordered pair, smaller first.
pub open spec fn canonical(k: CollisionMapKey) -> CollisionMapKey {
    pair_key(k.entity_a, k.entity_b)
}

impl CollisionMapKey {
    pub fn new(entity_a: u64, entity_b: u64) -> (r: Self)
        ensures
            r == pair_key(entity_a, entity_b),
    {
        if entity_a <= entity_b {
            Self { entity_a, entity_b }
        } else {
            Self { entity_a: entity_b, entity_b: entity_a }
        }
    }

    /// The same pair with the smaller identifier first.
    pub fn canonical(&self) -> (r: Self)
        ensures
            r == canonical(*self),
    {
        Self::new(self.entity_a, self.entity_b)
    }

    /// Whether both keys name the same two entities, in either order.
    pub fn same_pair(&self, other: &CollisionMapKey) -> (r: bool)
        ensures
            r == ((self.entity_a == other.entity_a && self.entity_b == other.entity_b) || (
            self.entity_a == other.entity_b && self.entity_b == other.entity_a)),
            r == (canonical(*self) == canonical(*other)),
    {
        (self.entity_a == other.entity_a && self.entity_b == other.entity_b) || (self.entity_a
            == other.entity_b && self.entity_b == other.entity_a)
    }
}

/// A pair is left out of a step when either box is disabled, when neither
/// entity can see the other, or when both entries name the same entity.
pub open spec fn pair_skipped(a: Collider, b: Collider) -> bool {
    ||| a.collision_box.disabled
    ||| b.collision_box.disabled
    ||| (!sees(a.group, b.group) && !sees(b.group, a.group))
    ||| a.entity == b.entity
}

/// What `a` is told about `b` in a step, given whether the pair was in the
/// overlap table before the step.
pub open spec fn direction_notices(a: Collider, b: Collider, was: bool) -> Seq<CollisionNotice> {
    if !sees(a.group, b.group) {
        seq![]
    } else if boxes_overlap(a, b) {
        if was {
            seq![CollisionNotice::Ongoing(CollisionEvent { entity: a.entity, detected: b.entity })]
        } else {
            seq![CollisionNotice::Begin(CollisionBegin { entity: a.entity, detected: b.entity })]
        }
    } else if was {
        seq![CollisionNotice::End(CollisionEnd { entity: a.entity, left: b.entity })]
    } else {
        seq![]
    }
}

/// One pair's effect on the table and the notifications it adds. The
/// transition is decided once per unordered pair against the table; each
/// direction whose observer sees the other entity then receives it.
pub open spec fn pair_step(a: Collider, b: Collider, t: Set<CollisionMapKey>) -> (
    Set<CollisionMapKey>,
    Seq<CollisionNotice>,
) {
    let k = pair_key(a.entity, b.entity);
    if pair_skipped(a, b) {
        (t, seq![])
    } else {
        let was = t.contains(k);
        (
            if boxes_overlap(a, b) {
                t.insert(k)
            } else {
                t.remove(k)
            },
            direction_notices(a, b, was) + direction_notices(b, a, was),
        )
    }
}

/// One visit of the index pair holding `a` and `b` during a step: entries
/// that name the same entity are passed over, a pair whose key was already
/// seen in this step is passed over, and any other pair is marked seen and
/// processed by `pair_step`. Returns the table, the seen keys and the added
/// notifications.
pub open spec fn visit_pair(
    a: Collider,
    b: Collider,
    t: Set<CollisionMapKey>,
    seen: Set<CollisionMapKey>,
) -> (Set<CollisionMapKey>, Set<CollisionMapKey>, Seq<CollisionNotice>) {
    let k = pair_key(a.entity, b.entity);
    if a.entity == b.entity || seen.contains(k) {
        (t, seen, seq![])
    } else {
        (pair_step(a, b, t).0, seen.insert(k), pair_step(a, b, t).1)
    }
}

/// Table, seen keys and notifications after the pairs `(i, k)` with
/// `i < k < j`, starting from table `t` and seen keys `seen`.
pub open spec fn row_fold(
    s: Seq<Collider>,
    t: Set<CollisionMapKey>,
    seen: Set<CollisionMapKey>,
    i: nat,
    j: nat,
) -> (Set<CollisionMapKey>, Set<CollisionMapKey>, Seq<CollisionNotice>)
    decreases j,
{
    if j <= i + 1 {
        (t, seen, seq![])
    } else {
        let (t1, s1, o1) = row_fold(s, t, seen, i, (j - 1) as nat);
        let (t2, s2, o2) = visit_pair(s[i as int], s[j - 1], t1, s1);
        (t2, s2, o1 + o2)
    }
}

/// Table, seen keys and notifications after every pair whose first index is
/// below `i`, starting with no key seen.
pub open spec fn rows_fold(s: Seq<Collider>, t: Set<CollisionMapKey>, i: nat) -> (
    Set<CollisionMapKey>,
    Set<CollisionMapKey>,
    Seq<CollisionNotice>,
)
    decreases i,
{
    if i == 0 {
        (t, Set::empty(), seq![])
    } else {
        let (t1, s1, o1) = rows_fold(s, t, (i - 1) as nat);
        let (t2, s2, o2) = row_fold(s, t1, s1, (i - 1) as nat, s.len());
        (t2, s2, o1 + o2)
    }
}

/// The outcome of one step over snapshot `s` with prior table `t`: every
/// unordered pair of positions once, in order `(0, 1), (0, 2), .., (1, 2), ..`,
/// each unordered pair of entities at most once.
pub open spec fn scan(s: Seq<Collider>, t: Set<CollisionMapKey>) -> (
    Set<CollisionMapKey>,
    Seq<CollisionNotice>,
) {
    (rows_fold(s, t, s.len()).0, rows_fold(s, t, s.len()).2)
}

/// A pair key as one 128-bit number, the first identifier in the high half.
pub open spec fn pair_code(k: CollisionMapKey) -> int {
    k.entity_a as int * 0x1_0000_0000_0000_0000 + k.entity_b as int
}

/// The 128-bit codes in `c` are exactly those of the keys in `keys`.
pub open spec fn codes_match(c: Set<u128>, keys: Set<CollisionMapKey>) -> bool {
    forall|k: CollisionMapKey| #[trigger] keys.contains(k) == c.contains(pair_code(k) as u128)
}

proof fn lemma_pair_code_range(k: CollisionMapKey)
    ensures
        0 <= pair_code(k) <= u128::MAX,
{
    let a = k.entity_a as int;
    let b = k.entity_b as int;
    assert(0 <= a * 0x1_0000_0000_0000_0000 <= 0xffff_ffff_ffff_ffff * 0x1_0000_0000_0000_0000)
        by (nonlinear_arith)
        requires
            0 <= a <= 0xffff_ffff_ffff_ffff,
    ;
}

proof fn lemma_pair_code_injective(k1: CollisionMapKey, k2: CollisionMapKey)
    requires
        pair_code(k1) == pair_code(k2),
    ensures
        k1 == k2,
{
    let a1 = k1.entity_a as int;
    let b1 = k1.entity_b as int;
    let a2 = k2.entity_a as int;
    let b2 = k2.entity_b as int;
    assert(a1 == a2) by (nonlinear_arith)
        requires
            a1 * 0x1_0000_0000_0000_0000 + b1 == a2 * 0x1_0000_0000_0000_0000 + b2,
            0 <= b1 < 0x1_0000_0000_0000_0000,
            0 <= b2 < 0x1_0000_0000_0000_0000,
    ;
}

proof fn lemma_codes_match_insert(c: Set<u128>, keys: Set<CollisionMapKey>, key: CollisionMapKey)
    requires
        codes_match(c, keys),
    ensures
        codes_match(c.insert(pair_code(key) as u128), keys.insert(key)),
        c.contains(pair_code(key) as u128) == keys.contains(key),
{
    lemma_pair_code_range(key);
    assert forall|k: CollisionMapKey| #[trigger] keys.insert(key).contains(k) == c.insert(
        pair_code(key) as u128,
    ).contains(pair_code(k) as u128) by {
        lemma_pair_code_range(k);
        if pair_code(k) as u128 == pair_code(key) as u128 {
            lemma_pair_code_injective(k, key);
        }
    }
}

fn pair_code_of(k: &CollisionMapKey) -> (r: u128)
    ensures
        r == pair_code(*k) as u128,
{
    proof {
        lemma_pair_code_range(*k);
    }
    (k.entity_a as u128) * 0x1_0000_0000_0000_0000u128 + k.entity_b as u128
}

/// Partners that Begin notifications in `o` report to `owner`, each mapped
/// to its `Collision` record.
pub open spec fn begun(o: Seq<CollisionNotice>, owner: u64) -> Map<u64, Collision>
    decreases o.len(),
{
    if o.len() == 0 {
        Map::empty()
    } else {
        let rest = begun(o.drop_last(), owner);
        match o.last() {
            CollisionNotice::Begin(e) => if e.entity == owner {
                rest.insert(e.detected, Collision { entity: e.detected })
            } else {
                rest
            },
            _ => rest,
        }
    }
}

/// Partners that End notifications in `o` report to `owner`.
pub open spec fn ended(o: Seq<CollisionNotice>, owner: u64) -> Set<u64>
    decreases o.len(),
{
    if o.len() == 0 {
        Set::empty()
    } else {
        let rest = ended(o.drop_last(), owner);
        match o.last() {
            CollisionNotice::End(e) => if e.entity == owner {
                rest.insert(e.left)
            } else {
                rest
            },
            _ => rest,
        }
    }
}

/// Drives the per-step scan and the per-entity bookkeeping.
pub struct CollisionsPlugin;

impl CollisionsPlugin {
    /// One simulation step: visits every pair of the snapshot once, updates
    /// the overlap table and returns the lifecycle notifications in order.
    /// A set of the pair keys met in this step keeps any unordered pair of
    /// entities from being processed twice, even when the snapshot repeats an
    /// entity; entries that name the same entity are never paired.
    pub fn update(colliders: &Vec<Collider>, collision_map: &mut CollisionMap) -> (r: Vec<
        CollisionNotice,
    >)
        ensures
            (final(collision_map)@, r@) == scan(colliders@, old(collision_map)@),
    {
        let ghost s = colliders@;
        let ghost t0 = old(collision_map)@;
        let n = colliders.len();
        broadcast use vstd::std_specs::hash::group_hash_axioms;

        let mut out: Vec<CollisionNotice> = Vec::new();
        let mut seen: HashSet<u128> = HashSet::new();
        let mut i: usize = 0;
        while i < n
            invariant
                n == s.len(),
                s == colliders@,
                i <= n,
                collision_map@ == rows_fold(s, t0, i as nat).0,
                codes_match(seen@, rows_fold(s, t0, i as nat).1),
                out@ == rows_fold(s, t0, i as nat).2,
            decreases n - i,
        {
            let ghost ti = collision_map@;
            let ghost si = rows_fold(s, t0, i as nat).1;
            let ghost oi = out@;
            let mut j: usize = i + 1;
            while j < n
                invariant
                    n == s.len(),
                    s == colliders@,
                    i < n,
                    i + 1 <= j <= n,
                    collision_map@ == row_fold(s, ti, si, i as nat, j as nat).0,
                    codes_match(seen@, row_fold(s, ti, si, i as nat, j as nat).1),
                    out@ == oi + row_fold(s, ti, si, i as nat, j as nat).2,
                decreases n - j,
            {
                let a = &colliders[i];
                let b = &colliders[j];
                let ghost r = row_fold(s, ti, si, i as nat, j as nat);
                if a.entity != b.entity {
                    let key = CollisionMapKey::new(a.entity, b.entity);
                    let code = pair_code_of(&key);
                    proof {
                        lemma_codes_match_insert(seen@, r.1, key);
                    }
                    if seen.insert(code) {
                        Self::handle_collision(a, b, collision_map, &mut out);
                        proof {
                            let p = pair_step(s[i as int], s[j as int], r.0).1;
                            assert(oi + r.2 + p == oi + (r.2 + p));
                        }
                    } else {
                        assert(r.2 + seq![] == r.2);
                    }
                } else {
                    assert(r.2 + seq![] == r.2);
                }
                j = j + 1;
            }
            proof {
                let r = row_fold(s, ti, si, i as nat, n as nat).2;
                assert(oi + r == rows_fold(s, t0, (i + 1) as nat).2);
            }
            i = i + 1;
        }
        out
    }

    /// Adds to `owner`'s set every entity that a Begin notification reports
    /// to `owner`.
    pub fn collision_begin(owner: u64, collisions: &mut Collisions, notices: &Vec<CollisionNotice>)
        ensures
            final(collisions)@ == old(collisions)@.union_prefer_right(begun(notices@, owner)),
    {
        let mut i: usize = 0;
        while i < notices.len()
            invariant
                i <= notices@.len(),
                collisions@ == old(collisions)@.union_prefer_right(
                    begun(notices@.take(i as int), owner),
                ),
            decreases notices@.len() - i,
        {
            assert(notices@.take(i + 1).drop_last() == notices@.take(i as int));
            if let CollisionNotice::Begin(e) = notices[i] {
                if e.entity == owner {
                    collisions.insert(Collision::new(e.detected));
                }
            }
            assert(collisions@ =~= old(collisions)@.union_prefer_right(
                begun(notices@.take(i + 1), owner),
            ));
            i = i + 1;
        }
        assert(notices@.take(i as int) == notices@);
    }

    /// Removes from `owner`'s set every entity that an End notification
    /// reports to `owner`.
    pub fn collision_end(owner: u64, collisions: &mut Collisions, notices: &Vec<CollisionNotice>)
        ensures
            final(collisions)@ == old(collisions)@.remove_keys(ended(notices@, owner)),
    {
        let mut i: usize = 0;
        while i < notices.len()
            invariant
                i <= notices@.len(),
                collisions@ == old(collisions)@.remove_keys(ended(notices@.take(i as int), owner)),
            decreases notices@.len() - i,
        {
            assert(notices@.take(i + 1).drop_last() == notices@.take(i as int));
            if let CollisionNotice::End(e) = notices[i] {
                if e.entity == owner {
                    collisions.remove(e.left);
                }
            }
            assert(collisions@ =~= old(collisions)@.remove_keys(ended(notices@.take(i + 1), owner)));
            i = i + 1;
        }
        assert(notices@.take(i as int) == notices@);
    }

    /// Processes one pair: visibility in each direction, the overlap test,
    /// and the transition against the table.
    fn handle_collision(
        a: &Collider,
        b: &Collider,
        collision_map: &mut CollisionMap,
        out: &mut Vec<CollisionNotice>,
    )
        ensures
            final(collision_map)@ == pair_step(*a, *b, old(collision_map)@).0,
            final(out)@ == old(out)@ + pair_step(*a, *b, old(collision_map)@).1,
    {
        if a.collision_box.disabled || b.collision_box.disabled || a.entity == b.entity {
            assert(old(out)@ + seq![] == old(out)@);
            return ;
        }
        let a_sees_b = a.group.can_see(&b.group);
        let b_sees_a = b.group.can_see(&a.group);
        if !a_sees_b && !b_sees_a {
            assert(old(out)@ + seq![] == old(out)@);
            return ;
        }
        let key = CollisionMapKey::new(a.entity, b.entity);
        let was = collision_map.contains(&key);
        let now = Self::check_collision(a, b);
        Self::push_transition(a, b, a_sees_b, was, now, out);
        Self::push_transition(b, a, b_sees_a, was, now, out);
        assert(out@ == old(out)@ + (direction_notices(*a, *b, was) + direction_notices(*b, *a, was)));
        if now {
            if !was {
                collision_map.insert(key);
            } else {
                assert(collision_map@.insert(key) =~= collision_map@);
            }
        } else if was {
            collision_map.remove(&key);
        } else {
            assert(collision_map@.remove(key) =~= collision_map@);
        }
    }

    /// Appends what `a` is told about `b`.
    fn push_transition(
        a: &Collider,
        b: &Collider,
        a_sees_b: bool,
        was: bool,
        now: bool,
        out: &mut Vec<CollisionNotice>,
    )
        requires
            a_sees_b == sees(a.group, b.group),
            now == boxes_overlap(*a, *b),
        ensures
            final(out)@ == old(out)@ + direction_notices(*a, *b, was),
    {
        if !a_sees_b {
            assert(old(out)@ + seq![] == old(out)@);
            return ;
        }
        if now {
            if was {
                out.push(CollisionNotice::Ongoing(CollisionEvent { entity: a.entity, detected: b.entity }));
            } else {
                out.push(CollisionNotice::Begin(CollisionBegin { entity: a.entity, detected: b.entity }));
            }
        } else if was {
            out.push(CollisionNotice::End(CollisionEnd { entity: a.entity, left: b.entity }));
        } else {
            assert(old(out)@ + seq![] == old(out)@);
        }
    }

    /// The overlap predicate: strict on both axes, so touching edges do not
    /// count.
    pub fn check_collision(a: &Collider, b: &Collider) -> (r: bool)
        ensures
            r == boxes_overlap(*a, *b),
    {
        let dx: i64 = a.position.x as i64 - b.position.x as i64;
        let dy: i64 = a.position.y as i64 - b.position.y as i64;
        let adx: i64 = if dx >= 0 { dx } else { -dx };
        let ady: i64 = if dy >= 0 { dy } else { -dy };
        2 * adx < a.collision_box.size.x as i64 + b.collision_box.size.x as i64 && 2 * ady
            < a.collision_box.size.y as i64 + b.collision_box.size.y as i64
    }
}

} // verus!
