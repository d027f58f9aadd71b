//! What a scan tells each entity about each other entity, step by step.
use vstd::prelude::*;

use crate::components::{boxes_overlap, sees, Collider, Collision};
use crate::events::{CollisionBegin, CollisionEnd, CollisionEvent, CollisionNotice};
use crate::{
    begun, direction_notices, ended, pair_key, pair_skipped, pair_step, row_fold, rows_fold, scan, visit_pair,
    CollisionMapKey,
};

verus! {

/// The notifications of `o` that `x` receives about `y`, in order.
pub open spec fn about(o: Seq<CollisionNotice>, x: u64, y: u64) -> Seq<CollisionNotice> {
    o.filter(|n: CollisionNotice| n.observer() == x && n.observed() == y)
}

/// Each entity appears at most once in the snapshot.
pub open spec fn distinct_entities(s: Seq<Collider>) -> bool {
    forall|i: int, j: int|
        0 <= i < s.len() && 0 <= j < s.len() && i != j ==> s[i].entity != s[j].entity
}

/// Whether the pair is in the table after its step, given whether it was before.
pub open spec fn pair_next(a: Collider, b: Collider, was: bool) -> bool {
    if pair_skipped(a, b) {
        was
    } else {
        boxes_overlap(a, b)
    }
}

/// What `a` receives about `b` in a step, given whether the pair was in the table.
pub open spec fn pair_about(a: Collider, b: Collider, was: bool) -> Seq<CollisionNotice> {
    if pair_skipped(a, b) {
        seq![]
    } else {
        direction_notices(a, b, was)
    }
}

proof fn lemma_about_empty(x: u64, y: u64)
    ensures
        about(Seq::<CollisionNotice>::empty(), x, y) == Seq::<CollisionNotice>::empty(),
{
    reveal_with_fuel(Seq::filter, 1);
}

proof fn lemma_about_add(o1: Seq<CollisionNotice>, o2: Seq<CollisionNotice>, x: u64, y: u64)
    ensures
        about(o1 + o2, x, y) == about(o1, x, y) + about(o2, x, y),
{
    Seq::filter_distributes_over_add(
        o1,
        o2,
        |n: CollisionNotice| n.observer() == x && n.observed() == y,
    );
}

proof fn lemma_about_direction(a: Collider, b: Collider, was: bool, x: u64, y: u64)
    ensures
        about(direction_notices(a, b, was), x, y) == if x == a.entity && y == b.entity {
            direction_notices(a, b, was)
        } else {
            Seq::<CollisionNotice>::empty()
        },
{
    reveal_with_fuel(Seq::filter, 2);
    let d = direction_notices(a, b, was);
    if d.len() == 1 {
        assert(d.drop_last() =~= Seq::<CollisionNotice>::empty());
    } else {
        assert(d =~= Seq::<CollisionNotice>::empty());
    }
}

/// A pair with another key leaves `k`'s entry alone and says nothing about
/// the two entities of `k`.
proof fn lemma_pair_step_frame(a: Collider, b: Collider, t: Set<CollisionMapKey>, x: u64, y: u64)
    requires
        pair_key(a.entity, b.entity) != pair_key(x, y),
    ensures
        pair_step(a, b, t).0.contains(pair_key(x, y)) == t.contains(pair_key(x, y)),
        about(pair_step(a, b, t).1, x, y) == Seq::<CollisionNotice>::empty(),
        about(pair_step(a, b, t).1, y, x) == Seq::<CollisionNotice>::empty(),
{
    lemma_about_empty(x, y);
    lemma_about_empty(y, x);
    if !pair_skipped(a, b) {
        let was = t.contains(pair_key(a.entity, b.entity));
        lemma_about_add(direction_notices(a, b, was), direction_notices(b, a, was), x, y);
        lemma_about_add(direction_notices(a, b, was), direction_notices(b, a, was), y, x);
        lemma_about_direction(a, b, was, x, y);
        lemma_about_direction(b, a, was, x, y);
        lemma_about_direction(a, b, was, y, x);
        lemma_about_direction(b, a, was, y, x);
        assert(Seq::<CollisionNotice>::empty() + Seq::<CollisionNotice>::empty() =~= Seq::<
            CollisionNotice,
        >::empty());
    }
}

/// The pair's own step, seen from both of its directions.
proof fn lemma_pair_step_own(a: Collider, b: Collider, t: Set<CollisionMapKey>)
    requires
        a.entity != b.entity,
    ensures
        pair_step(a, b, t).0.contains(pair_key(a.entity, b.entity)) == pair_next(
            a,
            b,
            t.contains(pair_key(a.entity, b.entity)),
        ),
        about(pair_step(a, b, t).1, a.entity, b.entity) == pair_about(
            a,
            b,
            t.contains(pair_key(a.entity, b.entity)),
        ),
        about(pair_step(a, b, t).1, b.entity, a.entity) == pair_about(
            b,
            a,
            t.contains(pair_key(a.entity, b.entity)),
        ),
{
    let x = a.entity;
    let y = b.entity;
    lemma_about_empty(x, y);
    lemma_about_empty(y, x);
    let was = t.contains(pair_key(x, y));
    if !pair_skipped(a, b) {
        let e = Seq::<CollisionNotice>::empty();
        lemma_about_add(direction_notices(a, b, was), direction_notices(b, a, was), x, y);
        lemma_about_add(direction_notices(a, b, was), direction_notices(b, a, was), y, x);
        lemma_about_direction(a, b, was, x, y);
        lemma_about_direction(b, a, was, x, y);
        lemma_about_direction(a, b, was, y, x);
        lemma_about_direction(b, a, was, y, x);
        assert(direction_notices(a, b, was) + e =~= direction_notices(a, b, was));
        assert(e + direction_notices(b, a, was) =~= direction_notices(b, a, was));
    }
}

proof fn lemma_row(
    s: Seq<Collider>,
    tr: Set<CollisionMapKey>,
    sr: Set<CollisionMapKey>,
    i: nat,
    j: nat,
    p: int,
    q: int,
)
    requires
        distinct_entities(s),
        0 <= p < q < s.len(),
        i < s.len(),
        i + 1 <= j <= s.len(),
        sr.contains(pair_key(s[p].entity, s[q].entity)) == (p < i),
    ensures
        ({
            let k = pair_key(s[p].entity, s[q].entity);
            let c = tr.contains(k);
            let done = i == p && q < j;
            let (t2, s2, o2) = row_fold(s, tr, sr, i, j);
            &&& t2.contains(k) == if done {
                pair_next(s[p], s[q], c)
            } else {
                c
            }
            &&& s2.contains(k) == (p < i || done)
            &&& about(o2, s[p].entity, s[q].entity) == if done {
                pair_about(s[p], s[q], c)
            } else {
                Seq::<CollisionNotice>::empty()
            }
            &&& about(o2, s[q].entity, s[p].entity) == if done {
                pair_about(s[q], s[p], c)
            } else {
                Seq::<CollisionNotice>::empty()
            }
        }),
    decreases j,
{
    let x = s[p].entity;
    let y = s[q].entity;
    lemma_about_empty(x, y);
    lemma_about_empty(y, x);
    if j > i + 1 {
        lemma_row(s, tr, sr, i, (j - 1) as nat, p, q);
        let (t1, s1, o1) = row_fold(s, tr, sr, i, (j - 1) as nat);
        let a = s[i as int];
        let b = s[j - 1];
        let o2 = visit_pair(a, b, t1, s1).2;
        lemma_about_add(o1, o2, x, y);
        lemma_about_add(o1, o2, y, x);
        if i == p && j - 1 == q {
            lemma_pair_step_own(a, b, t1);
            assert(Seq::<CollisionNotice>::empty() + pair_about(a, b, t1.contains(pair_key(x, y)))
                =~= pair_about(a, b, t1.contains(pair_key(x, y))));
            assert(Seq::<CollisionNotice>::empty() + pair_about(b, a, t1.contains(pair_key(x, y)))
                =~= pair_about(b, a, t1.contains(pair_key(x, y))));
        } else {
            assert(a.entity != x || b.entity != y);
            assert(a.entity != y || b.entity != x);
            lemma_pair_step_frame(a, b, t1, x, y);
            assert(about(o1, x, y) + Seq::<CollisionNotice>::empty() =~= about(o1, x, y));
            assert(about(o1, y, x) + Seq::<CollisionNotice>::empty() =~= about(o1, y, x));
        }
    }
}

proof fn lemma_rows(s: Seq<Collider>, t: Set<CollisionMapKey>, i: nat, p: int, q: int)
    requires
        distinct_entities(s),
        0 <= p < q < s.len(),
        i <= s.len(),
    ensures
        ({
            let k = pair_key(s[p].entity, s[q].entity);
            let c = t.contains(k);
            let done = p < i;
            let (t2, s2, o2) = rows_fold(s, t, i);
            &&& t2.contains(k) == if done {
                pair_next(s[p], s[q], c)
            } else {
                c
            }
            &&& s2.contains(k) == done
            &&& about(o2, s[p].entity, s[q].entity) == if done {
                pair_about(s[p], s[q], c)
            } else {
                Seq::<CollisionNotice>::empty()
            }
            &&& about(o2, s[q].entity, s[p].entity) == if done {
                pair_about(s[q], s[p], c)
            } else {
                Seq::<CollisionNotice>::empty()
            }
        }),
    decreases i,
{
    let x = s[p].entity;
    let y = s[q].entity;
    lemma_about_empty(x, y);
    lemma_about_empty(y, x);
    if i > 0 {
        lemma_rows(s, t, (i - 1) as nat, p, q);
        let (t1, s1, o1) = rows_fold(s, t, (i - 1) as nat);
        lemma_row(s, t1, s1, (i - 1) as nat, s.len(), p, q);
        let o2 = row_fold(s, t1, s1, (i - 1) as nat, s.len()).2;
        lemma_about_add(o1, o2, x, y);
        lemma_about_add(o1, o2, y, x);
        assert(Seq::<CollisionNotice>::empty() + about(o2, x, y) =~= about(o2, x, y));
        assert(Seq::<CollisionNotice>::empty() + about(o2, y, x) =~= about(o2, y, x));
        assert(about(o1, x, y) + Seq::<CollisionNotice>::empty() =~= about(o1, x, y));
        assert(about(o1, y, x) + Seq::<CollisionNotice>::empty() =~= about(o1, y, x));
    }
}

/// For any two entries of a snapshot, what a step tells each about the other,
/// and whether their pair is in the table afterwards, depends only on the
/// two entries and on whether the pair was in the table before.
pub proof fn lemma_scan_pair(s: Seq<Collider>, t: Set<CollisionMapKey>, i: int, j: int)
    requires
        distinct_entities(s),
        0 <= i < s.len(),
        0 <= j < s.len(),
        i != j,
    ensures
        ({
            let k = pair_key(s[i].entity, s[j].entity);
            let (t2, o2) = scan(s, t);
            &&& t2.contains(k) == pair_next(s[i], s[j], t.contains(k))
            &&& about(o2, s[i].entity, s[j].entity) == pair_about(s[i], s[j], t.contains(k))
        }),
{
    if i < j {
        lemma_rows(s, t, s.len(), i, j);
    } else {
        lemma_rows(s, t, s.len(), j, i);
        assert(pair_key(s[i].entity, s[j].entity) == pair_key(s[j].entity, s[i].entity));
    }
}

/// Both boxes enabled, `s[i]` sees `s[j]`, the boxes overlap and the pair was
/// not in the table: `s[i]` receives exactly one Begin about `s[j]`, and the
/// pair enters the table.
pub proof fn lemma_begin_on_first_overlap(s: Seq<Collider>, t: Set<CollisionMapKey>, i: int, j: int)
    requires
        distinct_entities(s),
        0 <= i < s.len(),
        0 <= j < s.len(),
        i != j,
        !s[i].collision_box.disabled,
        !s[j].collision_box.disabled,
        sees(s[i].group, s[j].group),
        boxes_overlap(s[i], s[j]),
        !t.contains(pair_key(s[i].entity, s[j].entity)),
    ensures
        about(scan(s, t).1, s[i].entity, s[j].entity) == seq![
            CollisionNotice::Begin(CollisionBegin { entity: s[i].entity, detected: s[j].entity }),
        ],
        scan(s, t).0.contains(pair_key(s[i].entity, s[j].entity)),
{
    lemma_scan_pair(s, t, i, j);
}

/// While the pair stays in the table and the boxes still overlap, `s[i]`
/// receives exactly one Ongoing about a visible `s[j]` each step, no Begin,
/// and the pair stays in the table.
pub proof fn lemma_ongoing_while_overlapping(
    s: Seq<Collider>,
    t: Set<CollisionMapKey>,
    i: int,
    j: int,
)
    requires
        distinct_entities(s),
        0 <= i < s.len(),
        0 <= j < s.len(),
        i != j,
        !s[i].collision_box.disabled,
        !s[j].collision_box.disabled,
        sees(s[i].group, s[j].group),
        boxes_overlap(s[i], s[j]),
        t.contains(pair_key(s[i].entity, s[j].entity)),
    ensures
        about(scan(s, t).1, s[i].entity, s[j].entity) == seq![
            CollisionNotice::Ongoing(CollisionEvent { entity: s[i].entity, detected: s[j].entity }),
        ],
        scan(s, t).0.contains(pair_key(s[i].entity, s[j].entity)),
{
    lemma_scan_pair(s, t, i, j);
}

/// When boxes in the table stop overlapping, `s[i]` receives exactly one End
/// about a visible `s[j]`, and the pair leaves the table.
pub proof fn lemma_end_on_separation(s: Seq<Collider>, t: Set<CollisionMapKey>, i: int, j: int)
    requires
        distinct_entities(s),
        0 <= i < s.len(),
        0 <= j < s.len(),
        i != j,
        !s[i].collision_box.disabled,
        !s[j].collision_box.disabled,
        sees(s[i].group, s[j].group),
        !boxes_overlap(s[i], s[j]),
        t.contains(pair_key(s[i].entity, s[j].entity)),
    ensures
        about(scan(s, t).1, s[i].entity, s[j].entity) == seq![
            CollisionNotice::End(CollisionEnd { entity: s[i].entity, left: s[j].entity }),
        ],
        !scan(s, t).0.contains(pair_key(s[i].entity, s[j].entity)),
{
    lemma_scan_pair(s, t, i, j);
}

/// A pair outside the table whose boxes do not overlap produces nothing in
/// either direction and stays outside the table: after an End, no Ongoing or
/// End comes until a new Begin.
pub proof fn lemma_quiet_while_apart(s: Seq<Collider>, t: Set<CollisionMapKey>, i: int, j: int)
    requires
        distinct_entities(s),
        0 <= i < s.len(),
        0 <= j < s.len(),
        i != j,
        !boxes_overlap(s[i], s[j]),
        !t.contains(pair_key(s[i].entity, s[j].entity)),
    ensures
        about(scan(s, t).1, s[i].entity, s[j].entity) == Seq::<CollisionNotice>::empty(),
        about(scan(s, t).1, s[j].entity, s[i].entity) == Seq::<CollisionNotice>::empty(),
        !scan(s, t).0.contains(pair_key(s[i].entity, s[j].entity)),
{
    lemma_scan_pair(s, t, i, j);
    lemma_scan_pair(s, t, j, i);
    assert(pair_key(s[i].entity, s[j].entity) == pair_key(s[j].entity, s[i].entity));
}

/// Two steps over a pair that overlaps in both, each box enabled and `s1[i1]`
/// seeing its partner: starting outside the table, the observer gets exactly
/// one Begin on the first step and exactly one Ongoing on the second.
pub proof fn lemma_begin_then_ongoing(
    s1: Seq<Collider>,
    s2: Seq<Collider>,
    t: Set<CollisionMapKey>,
    i1: int,
    j1: int,
    i2: int,
    j2: int,
)
    requires
        distinct_entities(s1),
        distinct_entities(s2),
        0 <= i1 < s1.len(),
        0 <= j1 < s1.len(),
        i1 != j1,
        0 <= i2 < s2.len(),
        0 <= j2 < s2.len(),
        i2 != j2,
        s1[i1].entity == s2[i2].entity,
        s1[j1].entity == s2[j2].entity,
        !s1[i1].collision_box.disabled,
        !s1[j1].collision_box.disabled,
        !s2[i2].collision_box.disabled,
        !s2[j2].collision_box.disabled,
        sees(s1[i1].group, s1[j1].group),
        sees(s2[i2].group, s2[j2].group),
        boxes_overlap(s1[i1], s1[j1]),
        boxes_overlap(s2[i2], s2[j2]),
        !t.contains(pair_key(s1[i1].entity, s1[j1].entity)),
    ensures
        about(scan(s1, t).1, s1[i1].entity, s1[j1].entity) == seq![
            CollisionNotice::Begin(CollisionBegin { entity: s1[i1].entity, detected: s1[j1].entity }),
        ],
        about(scan(s2, scan(s1, t).0).1, s1[i1].entity, s1[j1].entity) == seq![
            CollisionNotice::Ongoing(CollisionEvent { entity: s1[i1].entity, detected: s1[j1].entity }),
        ],
{
    lemma_begin_on_first_overlap(s1, t, i1, j1);
    lemma_ongoing_while_overlapping(s2, scan(s1, t).0, i2, j2);
}

/// Two steps over a pair in the table whose boxes are apart in both, each
/// box enabled and `s1[i1]` seeing its partner: the observer gets exactly one
/// End on the first step and nothing on the second.
pub proof fn lemma_end_then_quiet(
    s1: Seq<Collider>,
    s2: Seq<Collider>,
    t: Set<CollisionMapKey>,
    i1: int,
    j1: int,
    i2: int,
    j2: int,
)
    requires
        distinct_entities(s1),
        distinct_entities(s2),
        0 <= i1 < s1.len(),
        0 <= j1 < s1.len(),
        i1 != j1,
        0 <= i2 < s2.len(),
        0 <= j2 < s2.len(),
        i2 != j2,
        s1[i1].entity == s2[i2].entity,
        s1[j1].entity == s2[j2].entity,
        !s1[i1].collision_box.disabled,
        !s1[j1].collision_box.disabled,
        sees(s1[i1].group, s1[j1].group),
        !boxes_overlap(s1[i1], s1[j1]),
        !boxes_overlap(s2[i2], s2[j2]),
        t.contains(pair_key(s1[i1].entity, s1[j1].entity)),
    ensures
        about(scan(s1, t).1, s1[i1].entity, s1[j1].entity) == seq![
            CollisionNotice::End(CollisionEnd { entity: s1[i1].entity, left: s1[j1].entity }),
        ],
        about(scan(s2, scan(s1, t).0).1, s1[i1].entity, s1[j1].entity) == Seq::<
            CollisionNotice,
        >::empty(),
{
    lemma_end_on_separation(s1, t, i1, j1);
    lemma_quiet_while_apart(s2, scan(s1, t).0, i2, j2);
}

/// `n` is addressed between two different entries of the snapshot.
pub open spec fn between_entries(s: Seq<Collider>, n: CollisionNotice) -> bool {
    exists|p: int, q: int|
        0 <= p < s.len() && 0 <= q < s.len() && p != q && n.observer() == s[p].entity
            && n.observed() == s[q].entity
}

proof fn lemma_about_none(o: Seq<CollisionNotice>, x: u64, y: u64)
    requires
        forall|k: int| 0 <= k < o.len() ==> !(o[k].observer() == x && o[k].observed() == y),
    ensures
        about(o, x, y).len() == 0,
    decreases o.len(),
{
    reveal(Seq::filter);
    if o.len() > 0 {
        lemma_about_none(o.drop_last(), x, y);
    }
}

proof fn lemma_pair_step_between(s: Seq<Collider>, i: int, j: int, t: Set<CollisionMapKey>)
    requires
        0 <= i < s.len(),
        0 <= j < s.len(),
        i != j,
    ensures
        forall|k: int|
            0 <= k < pair_step(s[i], s[j], t).1.len() ==> between_entries(
                s,
                #[trigger] pair_step(s[i], s[j], t).1[k],
            ),
{
    let o = pair_step(s[i], s[j], t).1;
    assert forall|k: int| 0 <= k < o.len() implies between_entries(s, #[trigger] o[k]) by {
        let was = t.contains(pair_key(s[i].entity, s[j].entity));
        let d1 = direction_notices(s[i], s[j], was);
        if k < d1.len() {
            assert(o[k] == d1[k]);
            assert(o[k].observer() == s[i].entity && o[k].observed() == s[j].entity);
        } else {
            assert(o[k].observer() == s[j].entity && o[k].observed() == s[i].entity);
        }
    }
}

proof fn lemma_row_between(
    s: Seq<Collider>,
    t: Set<CollisionMapKey>,
    seen: Set<CollisionMapKey>,
    i: nat,
    j: nat,
)
    requires
        i < s.len(),
        j <= s.len(),
    ensures
        forall|k: int|
            0 <= k < row_fold(s, t, seen, i, j).2.len() ==> between_entries(
                s,
                #[trigger] row_fold(s, t, seen, i, j).2[k],
            ),
    decreases j,
{
    if j > i + 1 {
        lemma_row_between(s, t, seen, i, (j - 1) as nat);
        let (t1, s1, o1) = row_fold(s, t, seen, i, (j - 1) as nat);
        lemma_pair_step_between(s, i as int, j - 1, t1);
        let o2 = visit_pair(s[i as int], s[j - 1], t1, s1).2;
        assert forall|k: int| 0 <= k < (o1 + o2).len() implies between_entries(
            s,
            #[trigger] (o1 + o2)[k],
        ) by {
            if k >= o1.len() {
                assert((o1 + o2)[k] == o2[k - o1.len()]);
            }
        }
    }
}

proof fn lemma_rows_between(s: Seq<Collider>, t: Set<CollisionMapKey>, i: nat)
    requires
        i <= s.len(),
    ensures
        forall|k: int|
            0 <= k < rows_fold(s, t, i).2.len() ==> between_entries(
                s,
                #[trigger] rows_fold(s, t, i).2[k],
            ),
    decreases i,
{
    if i > 0 {
        lemma_rows_between(s, t, (i - 1) as nat);
        let (t1, s1, o1) = rows_fold(s, t, (i - 1) as nat);
        lemma_row_between(s, t1, s1, (i - 1) as nat, s.len());
        let o2 = row_fold(s, t1, s1, (i - 1) as nat, s.len()).2;
        assert forall|k: int| 0 <= k < (o1 + o2).len() implies between_entries(
            s,
            #[trigger] (o1 + o2)[k],
        ) by {
            if k >= o1.len() {
                assert((o1 + o2)[k] == o2[k - o1.len()]);
            }
        }
    }
}

/// Some entry of the snapshot names `x`.
pub open spec fn has_entity(s: Seq<Collider>, x: u64) -> bool {
    exists|p: int| 0 <= p < s.len() && s[p].entity == x
}

/// In one step an entity receives at most one notification about any other
/// entity, none about itself, and none about or for an entity that is not in
/// the snapshot.
pub proof fn lemma_at_most_one_per_direction(s: Seq<Collider>, t: Set<CollisionMapKey>, x: u64, y: u64)
    requires
        distinct_entities(s),
    ensures
        about(scan(s, t).1, x, y).len() <= 1,
        (x == y || !has_entity(s, x) || !has_entity(s, y)) ==> about(scan(s, t).1, x, y).len() == 0,
{
    let o = scan(s, t).1;
    if exists|p: int, q: int|
        0 <= p < s.len() && 0 <= q < s.len() && p != q && s[p].entity == x && s[q].entity == y {
        let (p, q) = choose|p: int, q: int|
            0 <= p < s.len() && 0 <= q < s.len() && p != q && s[p].entity == x && s[q].entity
                == y;
        lemma_scan_pair(s, t, p, q);
        assert(has_entity(s, x));
        assert(has_entity(s, y));
    } else {
        lemma_rows_between(s, t, s.len());
        assert forall|k: int| 0 <= k < o.len() implies !(o[k].observer() == x && o[k].observed()
            == y) by {
            assert(between_entries(s, o[k]));
        }
        lemma_about_none(o, x, y);
    }
}

proof fn lemma_row_frame(
    s: Seq<Collider>,
    t: Set<CollisionMapKey>,
    seen: Set<CollisionMapKey>,
    i: nat,
    j: nat,
    k: CollisionMapKey,
)
    requires
        i < s.len(),
        j <= s.len(),
        forall|p: int, q: int|
            0 <= p < s.len() && 0 <= q < s.len() ==> pair_key(s[p].entity, s[q].entity) != k,
    ensures
        row_fold(s, t, seen, i, j).0.contains(k) == t.contains(k),
    decreases j,
{
    if j > i + 1 {
        lemma_row_frame(s, t, seen, i, (j - 1) as nat, k);
        assert(pair_key(s[i as int].entity, s[j - 1].entity) != k);
    }
}

proof fn lemma_rows_frame(s: Seq<Collider>, t: Set<CollisionMapKey>, i: nat, k: CollisionMapKey)
    requires
        i <= s.len(),
        forall|p: int, q: int|
            0 <= p < s.len() && 0 <= q < s.len() ==> pair_key(s[p].entity, s[q].entity) != k,
    ensures
        rows_fold(s, t, i).0.contains(k) == t.contains(k),
    decreases i,
{
    if i > 0 {
        lemma_rows_frame(s, t, (i - 1) as nat, k);
        let (t1, s1, o1) = rows_fold(s, t, (i - 1) as nat);
        lemma_row_frame(s, t1, s1, (i - 1) as nat, s.len(), k);
    }
}

/// A step leaves alone every table entry for a pair with an entity that is not
/// in the snapshot.
pub proof fn lemma_scan_keeps_absent_pairs(s: Seq<Collider>, t: Set<CollisionMapKey>, x: u64, y: u64)
    requires
        !has_entity(s, x),
    ensures
        scan(s, t).0.contains(pair_key(x, y)) == t.contains(pair_key(x, y)),
{
    assert forall|p: int, q: int| 0 <= p < s.len() && 0 <= q < s.len() implies pair_key(
        s[p].entity,
        s[q].entity,
    ) != pair_key(x, y) by {
        assert(s[p].entity != x);
        assert(s[q].entity != x);
    }
    lemma_rows_frame(s, t, s.len(), pair_key(x, y));
}

/// Handling a Begin of `owner` about `d` and then its End leaves `owner`'s
/// partner map as it was, less `d`.
pub proof fn lemma_begin_then_end_restores(m0: Map<u64, Collision>, owner: u64, d: u64)
    ensures
        m0.union_prefer_right(
            begun(
                seq![CollisionNotice::Begin(CollisionBegin { entity: owner, detected: d })],
                owner,
            ),
        ).remove_keys(
            ended(seq![CollisionNotice::End(CollisionEnd { entity: owner, left: d })], owner),
        ) == m0.remove(d),
{
    let b = seq![CollisionNotice::Begin(CollisionBegin { entity: owner, detected: d })];
    let e = seq![CollisionNotice::End(CollisionEnd { entity: owner, left: d })];
    reveal_with_fuel(begun, 2);
    reveal_with_fuel(ended, 2);
    assert(b.drop_last() =~= Seq::<CollisionNotice>::empty());
    assert(e.drop_last() =~= Seq::<CollisionNotice>::empty());
    assert(begun(b.drop_last(), owner) =~= Map::<u64, Collision>::empty());
    assert(ended(e.drop_last(), owner) =~= Set::<u64>::empty());
    assert(begun(b, owner) =~= Map::<u64, Collision>::empty().insert(d, Collision { entity: d }));
    assert(ended(e, owner) =~= Set::<u64>::empty().insert(d));
    assert(m0.union_prefer_right(begun(b, owner)).remove_keys(ended(e, owner)) =~= m0.remove(d));
}

/// When `s[i]` sees `s[j]` but `s[j]` does not see `s[i]`, `s[j]` receives
/// nothing about `s[i]`, whatever the geometry, while `s[i]` receives the
/// notifications of its own direction.
pub proof fn lemma_one_way_visibility(s: Seq<Collider>, t: Set<CollisionMapKey>, i: int, j: int)
    requires
        distinct_entities(s),
        0 <= i < s.len(),
        0 <= j < s.len(),
        i != j,
        sees(s[i].group, s[j].group),
        !sees(s[j].group, s[i].group),
    ensures
        about(scan(s, t).1, s[j].entity, s[i].entity) == Seq::<CollisionNotice>::empty(),
        !s[i].collision_box.disabled && !s[j].collision_box.disabled ==> about(
            scan(s, t).1,
            s[i].entity,
            s[j].entity,
        ) == direction_notices(s[i], s[j], t.contains(pair_key(s[i].entity, s[j].entity))),
{
    lemma_scan_pair(s, t, i, j);
    lemma_scan_pair(s, t, j, i);
    assert(pair_key(s[i].entity, s[j].entity) == pair_key(s[j].entity, s[i].entity));
}

/// A disabled box takes part in no overlap test: neither entity of the pair
/// hears of the other, and the pair's table entry is left as it was.
pub proof fn lemma_disabled_never_detected(
    s: Seq<Collider>,
    t: Set<CollisionMapKey>,
    i: int,
    j: int,
)
    requires
        distinct_entities(s),
        0 <= i < s.len(),
        0 <= j < s.len(),
        i != j,
        s[i].collision_box.disabled,
    ensures
        about(scan(s, t).1, s[i].entity, s[j].entity) == Seq::<CollisionNotice>::empty(),
        about(scan(s, t).1, s[j].entity, s[i].entity) == Seq::<CollisionNotice>::empty(),
        scan(s, t).0.contains(pair_key(s[i].entity, s[j].entity)) == t.contains(
            pair_key(s[i].entity, s[j].entity),
        ),
{
    lemma_scan_pair(s, t, i, j);
    lemma_scan_pair(s, t, j, i);
    assert(pair_key(s[i].entity, s[j].entity) == pair_key(s[j].entity, s[i].entity));
}

/// Two steps over equal snapshots from equal tables give equal tables and
/// equal notifications, in the same order.
pub proof fn lemma_scan_deterministic(
    s1: Seq<Collider>,
    s2: Seq<Collider>,
    t1: Set<CollisionMapKey>,
    t2: Set<CollisionMapKey>,
)
    requires
        s1 == s2,
        t1 == t2,
    ensures
        scan(s1, t1) == scan(s2, t2),
        scan(s1, t1).1.to_multiset() == scan(s2, t2).1.to_multiset(),
{
}

} // verus!