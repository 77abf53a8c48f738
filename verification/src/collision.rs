use vstd::prelude::*;

use crate::event::{EventBus, EventPayload};
use crate::spatial_hash::{
    all_below, lemma_query_below, mask_items, mask_selects, query_items, rect_items, row_items, Buckets, CellRange,
    SpatialHashGrid,
};
use crate::types::{CollisionMask, EntityId, LayerBit, Tick};

verus! {

/// A hurtbox prepared for the broad phase: its entity, its layer and the grid
/// cells its world-space bounding box covers (`None` when the box is not
/// finite, which keeps it out of the grid).
#[derive(Debug, Clone, Copy)]
pub struct HurtEntry {
    pub entity: EntityId,
    pub layer: LayerBit,
    pub cells: Option<CellRange>,
}

/// A hitbox prepared for the broad phase: its entity, the layers it targets,
/// whether it stops after its first confirmed hit, and the grid cells its
/// world-space bounding box covers (`None` when the box is not finite, which
/// gives it no candidates).
#[derive(Debug, Clone, Copy)]
pub struct HitEntry {
    pub entity: EntityId,
    pub group: CollisionMask,
    pub hit_once: bool,
    pub cells: Option<CellRange>,
}

/// A confirmed hit of `attacker`'s hitbox on `defender`'s hurtbox.
pub struct Contact<V> {
    pub attacker: EntityId,
    pub defender: EntityId,
    pub contact_point: V,
    pub normal: V,
}

/// The hurtboxes among the first `n` that a grid built from `hurt` holds in
/// cell `(x, y)` of layer `layer`, in ascending index order.
pub open spec fn hurt_bucket(hurt: Seq<HurtEntry>, n: int, layer: u32, x: int, y: int) -> Seq<usize>
    decreases n,
{
    if n <= 0 {
        Seq::empty()
    } else {
        let rest = hurt_bucket(hurt, n - 1, layer, x, y);
        let h = hurt[n - 1];
        if h.layer.0 == layer && (h.cells matches Some(r) && r.covers(x, y)) {
            rest.push((n - 1) as usize)
        } else {
            rest
        }
    }
}

/// The buckets of the grid built from all of `hurt`.
pub open spec fn hurt_buckets(hurt: Seq<HurtEntry>) -> Buckets {
    |l: u32, x: int, y: int| hurt_bucket(hurt, hurt.len() as int, l, x, y)
}

/// The hurtboxes a hitbox of `att` tests, in order, given the broad-phase
/// candidate list `s`: each candidate at its first occurrence, skipping the
/// attacker's own entity.
pub open spec fn scan_list(hurt: Seq<HurtEntry>, att: EntityId, s: Seq<usize>) -> Seq<usize>
    decreases s.len(),
{
    if s.len() == 0 {
        Seq::empty()
    } else {
        let p = scan_list(hurt, att, s.drop_last());
        let j = s.last();
        if s.drop_last().contains(j) || j >= hurt.len() || hurt[j as int].entity == att {
            p
        } else {
            p.push(j)
        }
    }
}

/// The hurtboxes the hitbox `hit` tests, in order.
pub open spec fn pairs_of(hurt: Seq<HurtEntry>, hit: HitEntry) -> Seq<usize> {
    match hit.cells {
        Some(r) => scan_list(hurt, hit.entity, query_items(hurt_buckets(hurt), hit.group.0, r)),
        None => Seq::empty(),
    }
}

/// `t` holds the narrow-phase answers for a prefix of `pairs` as the scan
/// asks them: every pair when the hitbox may hit many times, and up to the
/// first hit when it hits once.
pub open spec fn scan_ok<V>(pairs: Seq<usize>, t: Seq<Option<(V, V)>>, hit_once: bool) -> bool {
    &&& t.len() <= pairs.len()
    &&& if hit_once {
        &&& forall|k: int| 0 <= k < t.len() - 1 ==> (#[trigger] t[k]) is None
        &&& (t.len() == pairs.len() || (t.len() > 0 && t[t.len() - 1] is Some))
    } else {
        t.len() == pairs.len()
    }
}

/// The contacts the answers `t` confirm, in order.
pub open spec fn contacts_of<V>(att: EntityId, hurt: Seq<HurtEntry>, pairs: Seq<usize>, t: Seq<Option<(V, V)>>) -> Seq<Contact<V>>
    decreases t.len(),
{
    if t.len() == 0 {
        Seq::empty()
    } else {
        let c = contacts_of(att, hurt, pairs, t.drop_last());
        match t.last() {
            Some(pr) => c.push(
                Contact { attacker: att, defender: hurt[pairs[t.len() - 1] as int].entity, contact_point: pr.0, normal: pr.1 },
            ),
            None => c,
        }
    }
}

/// The contacts of the first `m` hitboxes, hitbox by hitbox.
pub open spec fn all_contacts<V>(hurt: Seq<HurtEntry>, hits: Seq<HitEntry>, traces: Seq<Seq<Option<(V, V)>>>, m: int) -> Seq<Contact<V>>
    decreases m,
{
    if m <= 0 {
        Seq::empty()
    } else {
        all_contacts(hurt, hits, traces, m - 1) + contacts_of(hits[m - 1].entity, hurt, pairs_of(hurt, hits[m - 1]), traces[m - 1])
    }
}

/// `traces` records the narrow-phase answers of every hitbox: each was asked
/// what the scan of that hitbox asks, and `narrow` may give each answer.
pub open spec fn traces_ok<V, F: Fn(usize, usize) -> Option<(V, V)>>(hurt: Seq<HurtEntry>, hits: Seq<HitEntry>, narrow: &F, traces: Seq<Seq<Option<(V, V)>>>) -> bool {
    &&& traces.len() == hits.len()
    &&& forall|i: int| 0 <= i < hits.len() ==> scan_ok(pairs_of(hurt, hits[i]), #[trigger] traces[i], hits[i].hit_once)
    &&& forall|i: int, k: int| 0 <= i < hits.len() && 0 <= k < traces[i].len() ==> call_ensures(
        *narrow,
        (i as usize, pairs_of(hurt, hits[i])[k]),
        #[trigger] traces[i][k],
    )
}

/// `a` comes no later than `b` in (attacker, defender) order.
pub open spec fn contact_le<V>(a: Contact<V>, b: Contact<V>) -> bool {
    a.attacker.0 < b.attacker.0 || (a.attacker.0 == b.attacker.0 && a.defender.0 <= b.defender.0)
}

/// The contacts are in ascending (attacker, defender) order.
pub open spec fn contacts_sorted<V>(s: Seq<Contact<V>>) -> bool {
    forall|i: int, j: int| 0 <= i < j < s.len() ==> contact_le(#[trigger] s[i], #[trigger] s[j])
}

/// One `Collision` event per contact, in order.
pub open spec fn collision_events<V>(s: Seq<Contact<V>>, tick: Tick) -> Seq<EventPayload<V>> {
    s.map_values(
        |c: Contact<V>| EventPayload::Collision { attacker: c.attacker, defender: c.defender, contact_point: c.contact_point, normal: c.normal, tick },
    )
}

/// The outcome of a collision pass: the narrow phase answered `traces`, and
/// `sorted` holds exactly the confirmed contacts in (attacker, defender) order.
pub open spec fn collision_outcome<V, F: Fn(usize, usize) -> Option<(V, V)>>(
    hurt: Seq<HurtEntry>,
    hits: Seq<HitEntry>,
    narrow: &F,
    traces: Seq<Seq<Option<(V, V)>>>,
    sorted: Seq<Contact<V>>,
) -> bool {
    &&& traces_ok(hurt, hits, narrow, traces)
    &&& sorted.to_multiset() == all_contacts(hurt, hits, traces, hits.len() as int).to_multiset()
    &&& contacts_sorted(sorted)
}

/// The buckets of the first `n` hurtboxes hold indices below `n`.
proof fn lemma_hurt_bucket_below(hurt: Seq<HurtEntry>, n: int, l: u32, x: int, y: int)
    requires
        0 <= n <= hurt.len() <= usize::MAX,
    ensures
        all_below(hurt_bucket(hurt, n, l, x, y), n),
    decreases n,
{
    if n > 0 {
        lemma_hurt_bucket_below(hurt, n - 1, l, x, y);
    }
}

/// Scanning a prefix of the candidates tests a prefix of the pairs.
proof fn lemma_scan_prefix(hurt: Seq<HurtEntry>, att: EntityId, s: Seq<usize>, k: int)
    requires
        0 <= k <= s.len(),
    ensures
        scan_list(hurt, att, s.take(k)).len() <= scan_list(hurt, att, s).len(),
        forall|m: int| 0 <= m < scan_list(hurt, att, s.take(k)).len() ==> #[trigger] scan_list(hurt, att, s.take(k))[m] == scan_list(hurt, att, s)[m],
    decreases s.len(),
{
    if k == s.len() {
        assert(s.take(k) =~= s);
    } else {
        assert(s.take(k) =~= s.drop_last().take(k));
        lemma_scan_prefix(hurt, att, s.drop_last(), k);
    }
}

/// The contacts confirmed by `t` depend on the pairs only through the first
/// `t.len()` of them.
proof fn lemma_contacts_pairs<V>(att: EntityId, hurt: Seq<HurtEntry>, p1: Seq<usize>, p2: Seq<usize>, t: Seq<Option<(V, V)>>)
    requires
        t.len() <= p1.len(),
        t.len() <= p2.len(),
        forall|m: int| 0 <= m < t.len() ==> p1[m] == p2[m],
    ensures
        contacts_of(att, hurt, p1, t) == contacts_of(att, hurt, p2, t),
    decreases t.len(),
{
    if t.len() > 0 {
        lemma_contacts_pairs(att, hurt, p1, p2, t.drop_last());
    }
}

/// The contacts of the first `m` hitboxes depend only on their traces.
proof fn lemma_all_contacts_traces<V>(hurt: Seq<HurtEntry>, hits: Seq<HitEntry>, t1: Seq<Seq<Option<(V, V)>>>, t2: Seq<Seq<Option<(V, V)>>>, m: int)
    requires
        forall|i: int| 0 <= i < m ==> t1[i] == t2[i],
    ensures
        all_contacts(hurt, hits, t1, m) == all_contacts(hurt, hits, t2, m),
    decreases m,
{
    if m > 0 {
        lemma_all_contacts_traces(hurt, hits, t1, t2, m - 1);
    }
}

/// Growing a prefix by one element adds exactly that element.
proof fn lemma_take_contains(s: Seq<usize>, k: int, x: usize)
    requires
        0 <= k < s.len(),
    ensures
        s.take(k + 1).contains(x) <==> (s.take(k).contains(x) || s[k] == x),
{
    if s.take(k + 1).contains(x) {
        let w = choose|w: int| 0 <= w < k + 1 && #[trigger] s.take(k + 1)[w] == x;
        if w < k {
            assert(s.take(k)[w] == x);
        }
    }
    if s.take(k).contains(x) {
        let w = choose|w: int| 0 <= w < k && #[trigger] s.take(k)[w] == x;
        assert(s.take(k + 1)[w] == x);
    }
    if s[k] == x {
        assert(s.take(k + 1)[k] == x);
    }
}

/// Two cell rectangles share at least one cell.
pub open spec fn cells_overlap(a: CellRange, b: CellRange) -> bool {
    a.x0 <= b.x1 && b.x0 <= a.x1 && a.y0 <= b.y1 && b.y0 <= a.y1
}

/// Contact `c` joins a hitbox and a hurtbox of two different entities, where
/// the hitbox's mask targets the hurtbox's layer and their cells overlap.
pub open spec fn contact_allowed<V>(hurt: Seq<HurtEntry>, hits: Seq<HitEntry>, c: Contact<V>) -> bool {
    &&& c.attacker != c.defender
    &&& exists|i: int, j: int| {
        &&& 0 <= i < hits.len()
        &&& 0 <= j < hurt.len()
        &&& #[trigger] hits[i].entity == c.attacker
        &&& #[trigger] hurt[j].entity == c.defender
        &&& hits[i].group.0 & hurt[j].layer.0 != 0
        &&& hits[i].cells is Some
        &&& hurt[j].cells is Some
        &&& cells_overlap(hits[i].cells->0, hurt[j].cells->0)
    }
}

proof fn lemma_hurt_bucket_member(hurt: Seq<HurtEntry>, n: int, l: u32, x: int, y: int, j: usize)
    requires
        0 <= n <= hurt.len() <= usize::MAX,
        hurt_bucket(hurt, n, l, x, y).contains(j),
    ensures
        j < n,
        hurt[j as int].layer.0 == l,
        hurt[j as int].cells is Some,
        hurt[j as int].cells->0.covers(x, y),
    decreases n,
{
    if n > 0 {
        let rest = hurt_bucket(hurt, n - 1, l, x, y);
        if rest.contains(j) {
            lemma_hurt_bucket_member(hurt, n - 1, l, x, y, j);
        } else {
            let w = choose|w: int| 0 <= w < hurt_bucket(hurt, n, l, x, y).len() && hurt_bucket(hurt, n, l, x, y)[w] == j;
            assert(w == rest.len());
        }
    }
}

proof fn lemma_concat_member(a: Seq<usize>, b: Seq<usize>, j: usize)
    requires
        (a + b).contains(j),
    ensures
        a.contains(j) || b.contains(j),
{
    let w = choose|w: int| 0 <= w < (a + b).len() && (a + b)[w] == j;
    if w < a.len() {
        assert(a[w] == j);
    } else {
        assert(b[w - a.len()] == j);
    }
}

proof fn lemma_row_member(b: Buckets, l: u32, y: int, x0: int, x_end: int, j: usize)
    requires
        row_items(b, l, y, x0, x_end).contains(j),
    ensures
        exists|x: int| x0 <= x < x_end && #[trigger] b(l, x, y).contains(j),
    decreases x_end - x0,
{
    if x_end > x0 {
        lemma_concat_member(row_items(b, l, y, x0, x_end - 1), b(l, x_end - 1, y), j);
        if row_items(b, l, y, x0, x_end - 1).contains(j) {
            lemma_row_member(b, l, y, x0, x_end - 1, j);
        }
    }
}

proof fn lemma_rect_member(b: Buckets, l: u32, r: CellRange, y_end: int, j: usize)
    requires
        rect_items(b, l, r, y_end).contains(j),
    ensures
        exists|x: int, y: int| r.x0 <= x <= r.x1 && r.y0 <= y < y_end && #[trigger] b(l, x, y).contains(j),
    decreases y_end - r.y0,
{
    if y_end > r.y0 {
        lemma_concat_member(rect_items(b, l, r, y_end - 1), row_items(b, l, y_end - 1, r.x0 as int, r.x1 + 1), j);
        if rect_items(b, l, r, y_end - 1).contains(j) {
            lemma_rect_member(b, l, r, y_end - 1, j);
        } else {
            lemma_row_member(b, l, y_end - 1, r.x0 as int, r.x1 + 1, j);
        }
    }
}

proof fn lemma_mask_member(b: Buckets, mask: u32, r: CellRange, b_end: int, j: usize)
    requires
        mask_items(b, mask, r, b_end).contains(j),
    ensures
        exists|k: u32, x: int, y: int| k < 32 && mask_selects(mask, k) && r.covers(x, y) && #[trigger] b(1u32 << k, x, y).contains(j),
    decreases b_end,
{
    if b_end > 0 {
        let tail = if 0 <= b_end - 1 < 32 && mask_selects(mask, (b_end - 1) as u32) {
            rect_items(b, 1u32 << ((b_end - 1) as u32), r, r.y1 + 1)
        } else {
            Seq::empty()
        };
        lemma_concat_member(mask_items(b, mask, r, b_end - 1), tail, j);
        if mask_items(b, mask, r, b_end - 1).contains(j) {
            lemma_mask_member(b, mask, r, b_end - 1, j);
        } else {
            let k = (b_end - 1) as u32;
            lemma_rect_member(b, 1u32 << k, r, r.y1 + 1, j);
            let (x, y) = choose|x: int, y: int| r.x0 <= x <= r.x1 && r.y0 <= y < r.y1 + 1 && #[trigger] b(1u32 << k, x, y).contains(j);
            assert(r.covers(x, y));
        }
    }
}

proof fn lemma_scan_member(hurt: Seq<HurtEntry>, att: EntityId, s: Seq<usize>, m: int)
    requires
        0 <= m < scan_list(hurt, att, s).len(),
    ensures
        scan_list(hurt, att, s)[m] < hurt.len(),
        hurt[scan_list(hurt, att, s)[m] as int].entity != att,
        s.contains(scan_list(hurt, att, s)[m]),
    decreases s.len(),
{
    let p = scan_list(hurt, att, s.drop_last());
    if m < p.len() {
        lemma_scan_member(hurt, att, s.drop_last(), m);
        let j = p[m];
        let w = choose|w: int| 0 <= w < s.drop_last().len() && s.drop_last()[w] == j;
        assert(s[w] == j);
    } else {
        assert(s[s.len() - 1] == s.last());
    }
}

proof fn lemma_contacts_member<V>(att: EntityId, hurt: Seq<HurtEntry>, pairs: Seq<usize>, t: Seq<Option<(V, V)>>, c: Contact<V>)
    requires
        contacts_of(att, hurt, pairs, t).contains(c),
    ensures
        c.attacker == att,
        exists|m: int| 0 <= m < t.len() && c.defender == hurt[#[trigger] pairs[m] as int].entity,
    decreases t.len(),
{
    if t.len() > 0 {
        let rest = contacts_of(att, hurt, pairs, t.drop_last());
        if rest.contains(c) {
            lemma_contacts_member(att, hurt, pairs, t.drop_last(), c);
        } else {
            let w = choose|w: int| 0 <= w < contacts_of(att, hurt, pairs, t).len() && contacts_of(att, hurt, pairs, t)[w] == c;
            assert(w == rest.len());
            assert(c.defender == hurt[pairs[t.len() - 1] as int].entity);
        }
    }
}

proof fn lemma_all_contacts_member<V>(hurt: Seq<HurtEntry>, hits: Seq<HitEntry>, traces: Seq<Seq<Option<(V, V)>>>, m: int, c: Contact<V>)
    requires
        all_contacts(hurt, hits, traces, m).contains(c),
    ensures
        exists|i: int| 0 <= i < m && #[trigger] contacts_of(hits[i].entity, hurt, pairs_of(hurt, hits[i]), traces[i]).contains(c),
    decreases m,
{
    if m > 0 {
        let a = all_contacts(hurt, hits, traces, m - 1);
        let b = contacts_of(hits[m - 1].entity, hurt, pairs_of(hurt, hits[m - 1]), traces[m - 1]);
        let w = choose|w: int| 0 <= w < (a + b).len() && (a + b)[w] == c;
        if w < a.len() {
            assert(a[w] == c);
            lemma_all_contacts_member(hurt, hits, traces, m - 1, c);
        } else {
            assert(b[w - a.len()] == c);
            assert(b.contains(c));
            assert(0 <= m - 1 < m && contacts_of(hits[m - 1].entity, hurt, pairs_of(hurt, hits[m - 1]), traces[m - 1]).contains(c));
        }
    }
}

/// Every confirmed contact joins two different entities, through a hitbox
/// whose mask targets the hurtbox's layer and whose cells overlap the
/// hurtbox's cells: a hitbox never hits its own entity, a layer its mask
/// leaves out, or a hurtbox far from it.
pub proof fn lemma_contacts_allowed<V, F: Fn(usize, usize) -> Option<(V, V)>>(
    hurt: Seq<HurtEntry>,
    hits: Seq<HitEntry>,
    narrow: &F,
    traces: Seq<Seq<Option<(V, V)>>>,
    sorted: Seq<Contact<V>>,
)
    requires
        hurt.len() <= usize::MAX,
        collision_outcome(hurt, hits, narrow, traces, sorted),
    ensures
        forall|k: int| 0 <= k < sorted.len() ==> contact_allowed(hurt, hits, #[trigger] sorted[k]),
{
    let all = all_contacts(hurt, hits, traces, hits.len() as int);
    assert forall|k: int| 0 <= k < sorted.len() implies contact_allowed(hurt, hits, #[trigger] sorted[k]) by {
        let c = sorted[k];
        sorted.to_multiset_ensures();
        all.to_multiset_ensures();
        assert(sorted.contains(c));
        assert(sorted.to_multiset().count(c) > 0);
        assert(all.to_multiset().count(c) > 0);
        assert(all.contains(c));
        lemma_all_contacts_member(hurt, hits, traces, hits.len() as int, c);
        let i = choose|i: int| 0 <= i < hits.len() && #[trigger] contacts_of(hits[i].entity, hurt, pairs_of(hurt, hits[i]), traces[i]).contains(c);
        let pairs = pairs_of(hurt, hits[i]);
        lemma_contacts_member(hits[i].entity, hurt, pairs, traces[i], c);
        let m = choose|m: int| 0 <= m < traces[i].len() && c.defender == hurt[#[trigger] pairs[m] as int].entity;
        assert(scan_ok(pairs, traces[i], hits[i].hit_once));
        let hr = hits[i].cells->0;
        let cands = query_items(hurt_buckets(hurt), hits[i].group.0, hr);
        assert(hits[i].cells is Some);
        lemma_scan_member(hurt, hits[i].entity, cands, m);
        let j = pairs[m];
        lemma_mask_member(hurt_buckets(hurt), hits[i].group.0, hr, 32, j);
        let (b, x, y) = choose|b: u32, x: int, y: int| b < 32 && mask_selects(hits[i].group.0, b) && hr.covers(x, y) && #[trigger] hurt_buckets(hurt)(1u32 << b, x, y).contains(j);
        lemma_hurt_bucket_member(hurt, hurt.len() as int, 1u32 << b, x, y, j);
        assert(hurt[j as int].layer.0 == 1u32 << b);
        assert(hits[i].group.0 & hurt[j as int].layer.0 != 0);
        assert(hits[i].entity == c.attacker && hurt[j as int].entity == c.defender);
    }
}

/// A hitbox that hits once contributes at most one contact.
pub proof fn lemma_hit_once_single<V, F: Fn(usize, usize) -> Option<(V, V)>>(
    hurt: Seq<HurtEntry>,
    hits: Seq<HitEntry>,
    narrow: &F,
    traces: Seq<Seq<Option<(V, V)>>>,
    sorted: Seq<Contact<V>>,
)
    requires
        collision_outcome(hurt, hits, narrow, traces, sorted),
    ensures
        forall|i: int| 0 <= i < hits.len() && hits[i].hit_once ==> (#[trigger] contacts_of(hits[i].entity, hurt, pairs_of(hurt, hits[i]), traces[i])).len() <= 1,
{
    assert forall|i: int| 0 <= i < hits.len() && hits[i].hit_once implies (#[trigger] contacts_of(hits[i].entity, hurt, pairs_of(hurt, hits[i]), traces[i])).len() <= 1 by {
        assert(scan_ok(pairs_of(hurt, hits[i]), traces[i], true));
        lemma_contacts_len_at_most_somes(hits[i].entity, hurt, pairs_of(hurt, hits[i]), traces[i]);
    }
}

proof fn lemma_contacts_len_at_most_somes<V>(att: EntityId, hurt: Seq<HurtEntry>, pairs: Seq<usize>, t: Seq<Option<(V, V)>>)
    requires
        forall|k: int| 0 <= k < t.len() - 1 ==> (#[trigger] t[k]) is None,
    ensures
        contacts_of(att, hurt, pairs, t).len() <= 1,
    decreases t.len(),
{
    if t.len() > 0 {
        lemma_contacts_none(att, hurt, pairs, t.drop_last());
    }
}

proof fn lemma_contacts_none<V>(att: EntityId, hurt: Seq<HurtEntry>, pairs: Seq<usize>, t: Seq<Option<(V, V)>>)
    requires
        forall|k: int| 0 <= k < t.len() ==> (#[trigger] t[k]) is None,
    ensures
        contacts_of(att, hurt, pairs, t).len() == 0,
    decreases t.len(),
{
    if t.len() > 0 {
        assert(t[t.len() - 1] is None);
        lemma_contacts_none(att, hurt, pairs, t.drop_last());
    }
}

/// The sort key of a contact as a pair of integers.
pub open spec fn key_of<V>(c: Contact<V>) -> (u32, u32) {
    (c.attacker.0, c.defender.0)
}

/// No two positions of `s` hold contacts with the same (attacker, defender).
pub open spec fn keys_distinct<V>(s: Seq<Contact<V>>) -> bool {
    forall|p: int, q: int| 0 <= p < q < s.len() ==> key_of(#[trigger] s[p]) != key_of(#[trigger] s[q])
}

proof fn lemma_scan_distinct(hurt: Seq<HurtEntry>, att: EntityId, s: Seq<usize>)
    ensures
        forall|p: int, q: int| 0 <= p < q < scan_list(hurt, att, s).len() ==> #[trigger] scan_list(hurt, att, s)[p] != #[trigger] scan_list(hurt, att, s)[q],
    decreases s.len(),
{
    if s.len() > 0 {
        let init = s.drop_last();
        lemma_scan_distinct(hurt, att, init);
        let p0 = scan_list(hurt, att, init);
        let full = scan_list(hurt, att, s);
        if full.len() > p0.len() {
            assert forall|p: int| 0 <= p < p0.len() implies p0[p] != s.last() by {
                lemma_scan_member(hurt, att, init, p);
            }
            assert forall|p: int, q: int| 0 <= p < q < full.len() implies #[trigger] full[p] != #[trigger] full[q] by {
                if q == p0.len() {
                    assert(full[p] == p0[p]);
                } else {
                    assert(full[p] == p0[p] && full[q] == p0[q]);
                }
            }
        }
    }
}

proof fn lemma_contacts_distinct<V>(att: EntityId, hurt: Seq<HurtEntry>, pairs: Seq<usize>, t: Seq<Option<(V, V)>>)
    requires
        t.len() <= pairs.len(),
        forall|p: int, q: int| 0 <= p < q < pairs.len() ==> #[trigger] pairs[p] != #[trigger] pairs[q],
        forall|p: int, q: int| 0 <= p < hurt.len() && 0 <= q < hurt.len() && p != q ==> #[trigger] hurt[p].entity != #[trigger] hurt[q].entity,
        forall|p: int| 0 <= p < pairs.len() ==> (#[trigger] pairs[p]) < hurt.len(),
    ensures
        keys_distinct(contacts_of(att, hurt, pairs, t)),
        forall|k: int| 0 <= k < contacts_of(att, hurt, pairs, t).len() ==> (#[trigger] contacts_of(att, hurt, pairs, t)[k]).attacker == att,
    decreases t.len(),
{
    if t.len() > 0 {
        let init = t.drop_last();
        lemma_contacts_distinct(att, hurt, pairs, init);
        let c0 = contacts_of(att, hurt, pairs, init);
        let c = contacts_of(att, hurt, pairs, t);
        if c.len() > c0.len() {
            let last = c[c.len() - 1];
            let m_last = t.len() - 1;
            assert(last.defender == hurt[pairs[m_last] as int].entity);
            assert forall|p: int| 0 <= p < c0.len() implies key_of(c0[p]) != key_of(last) by {
                assert(c0.contains(c0[p]));
                lemma_contacts_member(att, hurt, pairs, init, c0[p]);
                let m = choose|m: int| 0 <= m < init.len() && c0[p].defender == hurt[#[trigger] pairs[m] as int].entity;
                assert(pairs[m] != pairs[m_last]);
            }
            assert forall|p: int, q: int| 0 <= p < q < c.len() implies key_of(#[trigger] c[p]) != key_of(#[trigger] c[q]) by {
                if q == c0.len() {
                    assert(c[p] == c0[p]);
                } else {
                    assert(c[p] == c0[p] && c[q] == c0[q]);
                }
            }
        }
    }
}

proof fn lemma_all_contacts_distinct<V>(hurt: Seq<HurtEntry>, hits: Seq<HitEntry>, traces: Seq<Seq<Option<(V, V)>>>, m: int)
    requires
        0 <= m <= hits.len(),
        hurt.len() <= usize::MAX,
        forall|i: int| 0 <= i < hits.len() ==> (#[trigger] traces[i]).len() <= pairs_of(hurt, hits[i]).len(),
        forall|p: int, q: int| 0 <= p < hits.len() && 0 <= q < hits.len() && p != q ==> #[trigger] hits[p].entity != #[trigger] hits[q].entity,
        forall|p: int, q: int| 0 <= p < hurt.len() && 0 <= q < hurt.len() && p != q ==> #[trigger] hurt[p].entity != #[trigger] hurt[q].entity,
    ensures
        keys_distinct(all_contacts(hurt, hits, traces, m)),
        forall|k: int| 0 <= k < all_contacts(hurt, hits, traces, m).len() ==> exists|i: int| 0 <= i < m && (#[trigger] all_contacts(hurt, hits, traces, m)[k]).attacker == hits[i].entity,
    decreases m,
{
    if m > 0 {
        lemma_all_contacts_distinct(hurt, hits, traces, m - 1);
        let a = all_contacts(hurt, hits, traces, m - 1);
        let i = m - 1;
        let pairs = pairs_of(hurt, hits[i]);
        match hits[i].cells {
            Some(r) => {
                lemma_scan_distinct(hurt, hits[i].entity, query_items(hurt_buckets(hurt), hits[i].group.0, r));
                assert forall|p: int| 0 <= p < pairs.len() implies (#[trigger] pairs[p]) < hurt.len() by {
                    lemma_scan_member(hurt, hits[i].entity, query_items(hurt_buckets(hurt), hits[i].group.0, r), p);
                }
            },
            None => {},
        }
        let b = contacts_of(hits[i].entity, hurt, pairs, traces[i]);
        lemma_contacts_distinct(hits[i].entity, hurt, pairs, traces[i]);
        let all = a + b;
        assert(all == all_contacts(hurt, hits, traces, m));
        assert forall|p: int, q: int| 0 <= p < q < all.len() implies key_of(#[trigger] all[p]) != key_of(#[trigger] all[q]) by {
            if q < a.len() {
                assert(all[p] == a[p] && all[q] == a[q]);
            } else if p >= a.len() {
                assert(all[p] == b[p - a.len()] && all[q] == b[q - a.len()]);
            } else {
                assert(all[p] == a[p] && all[q] == b[q - a.len()]);
                let i0 = choose|i0: int| 0 <= i0 < m - 1 && (#[trigger] a[p]).attacker == hits[i0].entity;
                assert(hits[i0].entity != hits[i].entity);
            }
        }
        assert forall|k: int| 0 <= k < all.len() implies exists|i2: int| 0 <= i2 < m && (#[trigger] all[k]).attacker == hits[i2].entity by {
            if k < a.len() {
                assert(all[k] == a[k]);
                let i0 = choose|i0: int| 0 <= i0 < m - 1 && (#[trigger] a[k]).attacker == hits[i0].entity;
            } else {
                assert(all[k] == b[k - a.len()]);
            }
        }
    }
}

/// A multiset of contacts holds each contact at most once and no two
/// contacts with the same key.
pub open spec fn key_unique<V>(m: vstd::multiset::Multiset<Contact<V>>) -> bool {
    &&& forall|x: Contact<V>| m.count(x) <= 1
    &&& forall|x: Contact<V>, y: Contact<V>| m.count(x) > 0 && m.count(y) > 0 && key_of(x) == key_of(y) ==> x == y
}

proof fn lemma_key_unique_of_distinct<V>(s: Seq<Contact<V>>)
    requires
        keys_distinct(s),
    ensures
        key_unique(s.to_multiset()),
    decreases s.len(),
{
    s.to_multiset_ensures();
    if s.len() > 0 {
        let init = s.drop_last();
        assert(keys_distinct(init)) by {
            assert forall|p: int, q: int| 0 <= p < q < init.len() implies key_of(#[trigger] init[p]) != key_of(#[trigger] init[q]) by {
                assert(init[p] == s[p] && init[q] == s[q]);
            }
        }
        lemma_key_unique_of_distinct(init);
        init.to_multiset_ensures();
        assert(init.push(s.last()) =~= s);
        let last = s.last();
        assert forall|p: int| 0 <= p < init.len() implies key_of(init[p]) != key_of(last) by {
            assert(init[p] == s[p]);
            assert(s[s.len() - 1] == last);
        }
        assert(init.to_multiset().count(last) == 0) by {
            if init.to_multiset().count(last) > 0 {
                assert(init.contains(last));
                let p = choose|p: int| 0 <= p < init.len() && init[p] == last;
                assert(key_of(init[p]) != key_of(last));
            }
        }
        assert forall|x: Contact<V>, y: Contact<V>| s.to_multiset().count(x) > 0 && s.to_multiset().count(y) > 0 && key_of(x) == key_of(y) implies x == y by {
            if x != last && y != last {
            } else if x == last && y != last {
                assert(init.to_multiset().count(y) > 0);
                assert(init.contains(y));
                let p = choose|p: int| 0 <= p < init.len() && init[p] == y;
                assert(key_of(init[p]) != key_of(last));
            } else if x != last && y == last {
                assert(init.to_multiset().count(x) > 0);
                assert(init.contains(x));
                let p = choose|p: int| 0 <= p < init.len() && init[p] == x;
                assert(key_of(init[p]) != key_of(last));
            }
        }
    }
}

/// Two sequences sorted by key holding the same multiset of contacts, in
/// which keys are unique, are equal.
proof fn lemma_sorted_unique<V>(s1: Seq<Contact<V>>, s2: Seq<Contact<V>>)
    requires
        s1.to_multiset() == s2.to_multiset(),
        key_unique(s1.to_multiset()),
        contacts_sorted(s1),
        contacts_sorted(s2),
    ensures
        s1 == s2,
    decreases s1.len(),
{
    s1.to_multiset_ensures();
    s2.to_multiset_ensures();
    if s1.len() == 0 {
        assert(s2.len() == 0);
        assert(s1 =~= s2);
    } else {
        assert(s2.len() == s1.len());
        let a = s1.last();
        let b = s2.last();
        assert(s1.contains(a));
        assert(s2.contains(b));
        assert(s2.to_multiset().count(a) > 0);
        assert(s1.to_multiset().count(b) > 0);
        assert(s2.contains(a));
        assert(s1.contains(b));
        let j1 = choose|j: int| 0 <= j < s1.len() && s1[j] == b;
        let j2 = choose|j: int| 0 <= j < s2.len() && s2[j] == a;
        if j1 < s1.len() - 1 {
            assert(contact_le(s1[j1], s1[s1.len() - 1]));
        }
        if j2 < s2.len() - 1 {
            assert(contact_le(s2[j2], s2[s2.len() - 1]));
        }
        assert(key_of(a) == key_of(b));
        assert(a == b);
        let i1 = s1.drop_last();
        let i2 = s2.drop_last();
        i1.to_multiset_ensures();
        i2.to_multiset_ensures();
        assert(s1 =~= i1.push(a));
        assert(s2 =~= i2.push(a));
        assert(s1.to_multiset() == i1.to_multiset().insert(a));
        assert(s2.to_multiset() == i2.to_multiset().insert(a));
        assert(i1.to_multiset() =~= i1.to_multiset().insert(a).remove(a));
        assert(i2.to_multiset() =~= i2.to_multiset().insert(a).remove(a));
        assert(i1.to_multiset() == i2.to_multiset());
        assert(key_unique(i1.to_multiset())) by {
            assert forall|x: Contact<V>| i1.to_multiset().count(x) <= s1.to_multiset().count(x) by {}
        }
        assert(contacts_sorted(i1)) by {
            assert forall|p: int, q: int| 0 <= p < q < i1.len() implies contact_le(#[trigger] i1[p], #[trigger] i1[q]) by {
                assert(i1[p] == s1[p] && i1[q] == s1[q]);
            }
        }
        assert(contacts_sorted(i2)) by {
            assert forall|p: int, q: int| 0 <= p < q < i2.len() implies contact_le(#[trigger] i2[p], #[trigger] i2[q]) by {
                assert(i2[p] == s2[p] && i2[q] == s2[q]);
            }
        }
        lemma_sorted_unique(i1, i2);
    }
}

/// One scan of a hitbox has one trace: with a narrow phase that gives one
/// answer per pair, two traces that both satisfy the scan are equal.
proof fn lemma_trace_unique<V, F: Fn(usize, usize) -> Option<(V, V)>>(narrow: &F, i: usize, pairs: Seq<usize>, hit_once: bool, t1: Seq<Option<(V, V)>>, t2: Seq<Option<(V, V)>>)
    requires
        scan_ok(pairs, t1, hit_once),
        scan_ok(pairs, t2, hit_once),
        forall|k: int| 0 <= k < t1.len() ==> call_ensures(*narrow, (i, pairs[k]), #[trigger] t1[k]),
        forall|k: int| 0 <= k < t2.len() ==> call_ensures(*narrow, (i, pairs[k]), #[trigger] t2[k]),
        forall|a: usize, b: usize, r1: Option<(V, V)>, r2: Option<(V, V)>| call_ensures(*narrow, (a, b), r1) && call_ensures(*narrow, (a, b), r2) ==> r1 == r2,
    ensures
        t1 == t2,
{
    let n = if t1.len() <= t2.len() { t1.len() } else { t2.len() };
    assert forall|k: int| 0 <= k < n implies t1[k] == t2[k] by {
        assert(call_ensures(*narrow, (i, pairs[k]), t1[k]));
        assert(call_ensures(*narrow, (i, pairs[k]), t2[k]));
    }
    if t1.len() < t2.len() {
        assert(hit_once);
        assert(t1.len() > 0 && t1[t1.len() - 1] is Some);
        assert(t2[t1.len() - 1] is None);
    } else if t2.len() < t1.len() {
        assert(hit_once);
        assert(t2.len() > 0 && t2[t2.len() - 1] is Some);
        assert(t1[t2.len() - 1] is None);
    }
    assert(t1 =~= t2);
}

/// Deterministic replay: when every hitbox and every hurtbox belongs to a
/// different entity and the narrow phase gives one answer per pair, a
/// collision pass has exactly one outcome, so its events come out the same,
/// in the same order, on every run.
pub proof fn lemma_collision_deterministic<V, F: Fn(usize, usize) -> Option<(V, V)>>(
    hurt: Seq<HurtEntry>,
    hits: Seq<HitEntry>,
    narrow: &F,
    t1: Seq<Seq<Option<(V, V)>>>,
    s1: Seq<Contact<V>>,
    t2: Seq<Seq<Option<(V, V)>>>,
    s2: Seq<Contact<V>>,
)
    requires
        hurt.len() <= usize::MAX,
        hits.len() <= usize::MAX,
        forall|p: int, q: int| 0 <= p < hits.len() && 0 <= q < hits.len() && p != q ==> #[trigger] hits[p].entity != #[trigger] hits[q].entity,
        forall|p: int, q: int| 0 <= p < hurt.len() && 0 <= q < hurt.len() && p != q ==> #[trigger] hurt[p].entity != #[trigger] hurt[q].entity,
        forall|a: usize, b: usize, r1: Option<(V, V)>, r2: Option<(V, V)>| call_ensures(*narrow, (a, b), r1) && call_ensures(*narrow, (a, b), r2) ==> r1 == r2,
        collision_outcome(hurt, hits, narrow, t1, s1),
        collision_outcome(hurt, hits, narrow, t2, s2),
    ensures
        t1 == t2,
        s1 == s2,
{
    assert forall|i: int| 0 <= i < hits.len() implies t1[i] == t2[i] by {
        let pairs = pairs_of(hurt, hits[i]);
        assert(scan_ok(pairs, t1[i], hits[i].hit_once));
        assert(scan_ok(pairs, t2[i], hits[i].hit_once));
        assert forall|k: int| 0 <= k < t1[i].len() implies call_ensures(*narrow, ((i as usize), pairs[k]), #[trigger] t1[i][k]) by {}
        assert forall|k: int| 0 <= k < t2[i].len() implies call_ensures(*narrow, ((i as usize), pairs[k]), #[trigger] t2[i][k]) by {}
        lemma_trace_unique(narrow, i as usize, pairs, hits[i].hit_once, t1[i], t2[i]);
    }
    assert(t1 =~= t2);
    let all = all_contacts(hurt, hits, t1, hits.len() as int);
    assert forall|i: int| 0 <= i < hits.len() implies (#[trigger] t1[i]).len() <= pairs_of(hurt, hits[i]).len() by {
        assert(scan_ok(pairs_of(hurt, hits[i]), t1[i], hits[i].hit_once));
    }
    lemma_all_contacts_distinct(hurt, hits, t1, hits.len() as int);
    lemma_key_unique_of_distinct(all);
    lemma_sorted_unique(s1, s2);
}

/// The sort key of a contact: attacker, then defender.
fn contact_key<V>(c: &Contact<V>) -> (k: (u32, u32))
    ensures
        k == (c.attacker.0, c.defender.0),
{
    (c.attacker.0, c.defender.0)
}

/// Sorts the contacts by (attacker, defender), through `sort_unstable_by_key`
/// of std's slices.
///
/// Trusted: std documents that the slice ends up ordered by the key and holds
/// the same elements; std orders tuples lexicographically.
#[verifier::external_body]
fn sort_contacts<V>(v: &mut Vec<Contact<V>>)
    ensures
        final(v)@.to_multiset() == old(v)@.to_multiset(),
        contacts_sorted(final(v)@),
{
    v.sort_unstable_by_key(contact_key::<V>);
}

/// Runs the narrow phase for hitbox number `i` of entity `att` over its
/// broad-phase candidates `cands`, appending its confirmed contacts to `acc`.
///
/// `visited` marks each hurtbox already tested by this hitbox with `i + 1`.
fn scan_hitbox<V, F>(
    i: usize,
    att: EntityId,
    hit_once: bool,
    cands: &Vec<usize>,
    hurt: &Vec<HurtEntry>,
    visited: &mut Vec<usize>,
    narrow: &F,
    acc: &mut Vec<Contact<V>>,
) -> (t: Ghost<Seq<Option<(V, V)>>>)
    where
        F: Fn(usize, usize) -> Option<(V, V)>,
    requires
        i < usize::MAX,
        all_below(cands@, hurt@.len() as int),
        old(visited)@.len() == hurt@.len(),
        forall|j: int| 0 <= j < old(visited)@.len() ==> #[trigger] old(visited)@[j] <= i,
        forall|a: usize, b: usize| call_requires(*narrow, (a, b)),
    ensures
        final(visited)@.len() == hurt@.len(),
        forall|j: int| 0 <= j < final(visited)@.len() ==> #[trigger] final(visited)@[j] <= i + 1,
        scan_ok(scan_list(hurt@, att, cands@), t@, hit_once),
        forall|k: int| 0 <= k < t@.len() ==> call_ensures(*narrow, (i, scan_list(hurt@, att, cands@)[k]), #[trigger] t@[k]),
        final(acc)@ == old(acc)@ + contacts_of(att, hurt@, scan_list(hurt@, att, cands@), t@),
{
    let generation = i + 1;
    let nv: usize = visited.len();
    let ghost full = scan_list(hurt@, att, cands@);
    let ghost mut t: Seq<Option<(V, V)>> = Seq::empty();
    let mut k: usize = 0;
    let mut stop = false;
    while k < cands.len() && !stop
        invariant
            k <= cands@.len(),
            generation == i + 1,
            i < usize::MAX,
            all_below(cands@, hurt@.len() as int),
            visited@.len() == hurt@.len(),
            visited@.len() == nv,
            forall|j: int| 0 <= j < visited@.len() ==> #[trigger] visited@[j] <= i + 1,
            forall|j: int| 0 <= j < visited@.len() ==> (#[trigger] visited@[j] == i + 1 <==> cands@.take(k as int).contains(j as usize)),
            full == scan_list(hurt@, att, cands@),
            t.len() == scan_list(hurt@, att, cands@.take(k as int)).len(),
            forall|m: int| 0 <= m < t.len() ==> call_ensures(*narrow, (i, scan_list(hurt@, att, cands@.take(k as int))[m]), #[trigger] t[m]),
            hit_once ==> forall|m: int| 0 <= m < t.len() - 1 ==> (#[trigger] t[m]) is None,
            hit_once && !stop ==> forall|m: int| 0 <= m < t.len() ==> (#[trigger] t[m]) is None,
            stop ==> hit_once && t.len() > 0 && t[t.len() - 1] is Some,
            acc@ == old(acc)@ + contacts_of(att, hurt@, scan_list(hurt@, att, cands@.take(k as int)), t),
            forall|a: usize, b: usize| call_requires(*narrow, (a, b)),
        decreases cands@.len() - k,
    {
        let ghost pre_scan = scan_list(hurt@, att, cands@.take(k as int));
        let ghost pre_acc = acc@;
        let j = cands[k];
        proof {
            assert(cands@[k as int] < hurt@.len());
            assert(cands@.take(k + 1).drop_last() =~= cands@.take(k as int));
            assert(cands@.take(k + 1).last() == j);
        }
        if visited[j] == generation {
            proof {
                assert(cands@.take(k as int).contains(j));
                assert(scan_list(hurt@, att, cands@.take(k + 1)) == pre_scan);
                assert forall|jj: int| 0 <= jj < visited@.len() implies (#[trigger] visited@[jj] == i + 1 <==> cands@.take(k + 1).contains(jj as usize)) by {
                    lemma_take_contains(cands@, k as int, jj as usize);
                }
            }
            k = k + 1;
        } else {
            let ghost pre_vis = visited@;
            visited.set(j, generation);
            proof {
                assert forall|jj: int| 0 <= jj < visited@.len() implies (#[trigger] visited@[jj] == i + 1 <==> cands@.take(k + 1).contains(jj as usize)) by {
                    lemma_take_contains(cands@, k as int, jj as usize);
                    if jj == j as int {
                        assert(visited@[jj] == i + 1);
                        assert(cands@[k as int] == jj as usize);
                    } else {
                        assert(cands@[k as int] != jj as usize);
                        assert(visited@[jj] == pre_vis[jj]);
                        assert(pre_vis[jj] == i + 1 <==> cands@.take(k as int).contains(jj as usize));
                    }
                }
                assert(!cands@.take(k as int).contains(j));
            }
            if att == hurt[j].entity {
                proof {
                    assert(scan_list(hurt@, att, cands@.take(k + 1)) == pre_scan);
                }
                k = k + 1;
            } else {
                proof {
                    assert(scan_list(hurt@, att, cands@.take(k + 1)) == pre_scan.push(j));
                }
                let res = narrow(i, j);
                let ghost t_old = t;
                proof {
                    let new_scan = pre_scan.push(j);
                    assert forall|m: int| 0 <= m < t.len() implies new_scan[m] == pre_scan[m] by {}
                    lemma_contacts_pairs(att, hurt@, pre_scan, new_scan, t);
                    t = t.push(res);
                    assert(t.drop_last() =~= t_old);
                }
                match res {
                    Some((cp, nrm)) => {
                        acc.push(Contact { attacker: att, defender: hurt[j].entity, contact_point: cp, normal: nrm });
                        if hit_once {
                            stop = true;
                        }
                    },
                    None => {},
                }
                proof {
                    let new_scan = pre_scan.push(j);
                    assert(new_scan[t.len() - 1] == j);
                    assert(contacts_of(att, hurt@, new_scan, t_old) == contacts_of(att, hurt@, pre_scan, t_old));
                    assert(acc@ =~= old(acc)@ + contacts_of(att, hurt@, new_scan, t));
                }
                k = k + 1;
            }
        }
    }
    proof {
        lemma_scan_prefix(hurt@, att, cands@, k as int);
        let pre = scan_list(hurt@, att, cands@.take(k as int));
        if !stop {
            assert(cands@.take(k as int) =~= cands@);
        }
        lemma_contacts_pairs(att, hurt@, pre, full, t);
        assert forall|m: int| 0 <= m < t.len() implies call_ensures(*narrow, (i, full[m]), #[trigger] t[m]) by {
            assert(pre[m] == full[m]);
        }
    }
    Ghost(t)
}

/// Runs the broad phase, mid phase and narrow phase for every hitbox, in
/// order, and returns the confirmed contacts hitbox by hitbox.
///
/// `narrow(i, j)` tests hitbox `i` against hurtbox `j` (bounding-box overlap,
/// then exact shape test) and gives the contact point and normal of a hit.
fn detect_contacts<V, F>(hurt: &Vec<HurtEntry>, hits: &Vec<HitEntry>, narrow: &F) -> (r: (Vec<Contact<V>>, Ghost<Seq<Seq<Option<(V, V)>>>>))
    where
        F: Fn(usize, usize) -> Option<(V, V)>,
    requires
        forall|a: usize, b: usize| call_requires(*narrow, (a, b)),
    ensures
        traces_ok(hurt@, hits@, narrow, r.1@),
        r.0@ == all_contacts(hurt@, hits@, r.1@, hits@.len() as int),
{
    let n = hurt.len();
    // Build the grid from every hurtbox with a finite bounding box.
    let mut grid = SpatialHashGrid::new();
    let mut j: usize = 0;
    while j < n
        invariant
            j <= n,
            n == hurt@.len(),
            forall|l: u32, x: int, y: int| #[trigger] grid.bucket(l, x, y) == hurt_bucket(hurt@, j as int, l, x, y),
        decreases n - j,
    {
        match hurt[j].cells {
            Some(c) => {
                grid.insert(hurt[j].layer.0, c, j);
            },
            None => {},
        }
        j = j + 1;
    }
    proof {
        assert(grid.buckets_fn() =~= hurt_buckets(hurt@));
        assert forall|l: u32, x: int, y: int| all_below(#[trigger] hurt_buckets(hurt@)(l, x, y), n as int) by {
            lemma_hurt_bucket_below(hurt@, n as int, l, x, y);
        }
    }
    let mut visited: Vec<usize> = Vec::new();
    while visited.len() < n
        invariant
            visited@.len() <= n,
            forall|jj: int| 0 <= jj < visited@.len() ==> #[trigger] visited@[jj] == 0,
        decreases n - visited@.len(),
    {
        visited.push(0);
    }
    let mut acc: Vec<Contact<V>> = Vec::new();
    let mut candidates: Vec<usize> = Vec::new();
    let ghost mut traces: Seq<Seq<Option<(V, V)>>> = Seq::empty();
    let mut i: usize = 0;
    while i < hits.len()
        invariant
            i <= hits@.len(),
            n == hurt@.len(),
            grid.buckets_fn() == hurt_buckets(hurt@),
            forall|l: u32, x: int, y: int| all_below(#[trigger] hurt_buckets(hurt@)(l, x, y), n as int),
            visited@.len() == n,
            forall|jj: int| 0 <= jj < visited@.len() ==> #[trigger] visited@[jj] <= i,
            traces.len() == i,
            forall|ii: int| 0 <= ii < i ==> scan_ok(pairs_of(hurt@, hits@[ii]), #[trigger] traces[ii], hits@[ii].hit_once),
            forall|ii: int, k: int| 0 <= ii < i && 0 <= k < traces[ii].len() ==> call_ensures(
                *narrow,
                (ii as usize, pairs_of(hurt@, hits@[ii])[k]),
                #[trigger] traces[ii][k],
            ),
            acc@ == all_contacts(hurt@, hits@, traces, i as int),
            forall|a: usize, b: usize| call_requires(*narrow, (a, b)),
        decreases hits@.len() - i,
    {
        let h = hits[i];
        candidates.clear();
        match h.cells {
            Some(c) => {
                grid.query(h.group, c, &mut candidates);
                proof {
                    lemma_query_below(hurt_buckets(hurt@), n as int, h.group.0, c);
                }
            },
            None => {},
        }
        proof {
            assert(candidates@.len() == 0 ==> candidates@ =~= Seq::<usize>::empty());
            match h.cells {
                Some(c) => {
                    assert(candidates@ =~= query_items(hurt_buckets(hurt@), h.group.0, c));
                },
                None => {
                    assert(scan_list(hurt@, h.entity, candidates@) =~= Seq::<usize>::empty());
                },
            }
            assert(scan_list(hurt@, h.entity, candidates@) == pairs_of(hurt@, hits@[i as int]));
        }
        let ghost pre_acc = acc@;
        let t = scan_hitbox(i, h.entity, h.hit_once, &candidates, hurt, &mut visited, narrow, &mut acc);
        proof {
            let new_traces = traces.push(t@);
            lemma_all_contacts_traces(hurt@, hits@, traces, new_traces, i as int);
            traces = new_traces;
            assert(traces[i as int] == t@);
        }
        i = i + 1;
    }
    (acc, Ghost(traces))
}

/// Runs collision detection between prepared hitboxes and hurtboxes and
/// emits one `Collision` event per confirmed hit.
///
/// Pipeline:
/// 1. **Collect** — every hurtbox with finite bounds goes into a
///    `SpatialHashGrid`, under its layer, in every cell its bounds cover.
/// 2. **Broad-phase** — each hitbox queries only the cells its bounds cover
///    and only the layers its `CollisionMask` targets.
/// 3. **Mid/narrow-phase** — `narrow(i, j)` tests hitbox `i` against each
///    distinct candidate `j` of another entity.
/// 4. Confirmed hits are sorted by `(attacker, defender)` for deterministic
///    replay, then pushed as events; a `hit_once` hitbox stops after its
///    first confirmed hit.
pub fn collision_system<V, F>(hurtboxes: &Vec<HurtEntry>, hitboxes: &Vec<HitEntry>, narrow: &F, event_bus: &mut EventBus<V>, tick: Tick)
    where
        F: Fn(usize, usize) -> Option<(V, V)>,
    requires
        forall|a: usize, b: usize| call_requires(*narrow, (a, b)),
    ensures
        exists|traces: Seq<Seq<Option<(V, V)>>>, sorted: Seq<Contact<V>>| {
            &&& #[trigger] collision_outcome(hurtboxes@, hitboxes@, narrow, traces, sorted)
            &&& final(event_bus).queued() == old(event_bus).queued() + collision_events(sorted, tick)
        },
{
    let (mut contacts, traces) = detect_contacts(hurtboxes, hitboxes, narrow);
    sort_contacts(&mut contacts);
    let total = contacts.len();
    let ghost sorted = contacts@;
    let ghost q0 = event_bus.queued();
    let mut rest = contacts;
    let mut k: usize = 0;
    // Reverse so that popping yields the contacts in sorted order.
    let mut rev: Vec<Contact<V>> = Vec::new();
    while rest.len() > 0
        invariant
            rev@.len() + rest@.len() == sorted.len(),
            sorted.len() == total,
            rest@ == sorted.take(rest@.len() as int),
            forall|m: int| 0 <= m < rev@.len() ==> #[trigger] rev@[m] == sorted[sorted.len() - 1 - m],
        decreases rest@.len(),
    {
        let c = rest.pop().unwrap();
        proof {
            assert(rest@ =~= sorted.take(rest@.len() as int));
        }
        rev.push(c);
    }
    while rev.len() > 0
        invariant
            k + rev@.len() == sorted.len(),
            sorted.len() == total,
            forall|m: int| 0 <= m < rev@.len() ==> #[trigger] rev@[m] == sorted[sorted.len() - 1 - m],
            event_bus.queued() == q0 + collision_events(sorted.take(k as int), tick),
            q0 == old(event_bus).queued(),
        decreases rev@.len(),
    {
        let c = rev.pop().unwrap();
        proof {
            assert(c == sorted[k as int]);
            assert(collision_events(sorted.take(k + 1), tick) =~= collision_events(sorted.take(k as int), tick).push(
                EventPayload::Collision { attacker: c.attacker, defender: c.defender, contact_point: c.contact_point, normal: c.normal, tick },
            ));
        }
        event_bus.push(EventPayload::Collision { attacker: c.attacker, defender: c.defender, contact_point: c.contact_point, normal: c.normal, tick });
        k = k + 1;
    }
    proof {
        assert(sorted.take(k as int) =~= sorted);
        assert(collision_outcome(hurtboxes@, hitboxes@, narrow, traces@, sorted));
    }
}

} // verus!
