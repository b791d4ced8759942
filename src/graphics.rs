//! The paint buffers of all layers, and the drain that flattens them into
//! one painting order at the end of a frame.
use vstd::prelude::*;
use vstd::seq_lib::lemma_no_dup_in_concat;
use ahash::AHashMap;
use crate::layers::{layer_key, LayerId, Order, PaintCmd, PaintList, ORDER_COUNT};
use crate::math::Rect;
use crate::memory::{lemma_without, to_top, without};

verus! {

#[verifier::external_type_specification]
#[verifier::external_body]
#[verifier::reject_recursive_types(K)]
#[verifier::reject_recursive_types(V)]
#[verifier::reject_recursive_types(S)]
pub struct ExAHashMap<K, V, S>(AHashMap<K, V, S>);

#[verifier::external_type_specification]
#[verifier::external_body]
pub struct ExAHashRandomState(ahash::RandomState);

/// A layer's key: its tier and its `Id`'s value.
pub type LayerKey = (Order, u64);

/// Each layer's key with the commands of its buffer.
pub type Buffers = Map<LayerKey, Seq<(Rect, PaintCmd)>>;

/// What an `AHashMap` of paint buffers holds: each key with the commands of its buffer.
pub uninterp spec fn held_lists(m: AHashMap<LayerKey, PaintList>) -> Buffers;

/// Relies on `AHashMap::new`: the map starts empty.
#[verifier::external_body]
fn lists_new() -> (r: AHashMap<LayerKey, PaintList>)
    ensures
        held_lists(r) == Buffers::empty(),
{
    AHashMap::new()
}

/// Relies on `AHashMap::remove`: the key leaves the map and its value is handed back.
#[verifier::external_body]
fn lists_remove(m: &mut AHashMap<LayerKey, PaintList>, k: LayerKey) -> (r: Option<PaintList>)
    ensures
        held_lists(*final(m)) == held_lists(*old(m)).remove(k),
        match r {
            Some(l) => held_lists(*old(m)).contains_key(k) && l@ == held_lists(*old(m))[k],
            None => !held_lists(*old(m)).contains_key(k),
        },
{
    m.remove(&k)
}

/// Relies on `AHashMap::insert`: afterwards the key maps to the value.
#[verifier::external_body]
fn lists_insert(m: &mut AHashMap<LayerKey, PaintList>, k: LayerKey, v: PaintList)
    ensures
        held_lists(*final(m)) == held_lists(*old(m)).insert(k, v@),
{
    m.insert(k, v);
}

/// Relies on `HashMap::entry` and `Entry::or_insert_with` (reached through
/// `AHashMap`'s `DerefMut`): the buffer of the key, a new empty one if it had
/// none, and whatever is done to it is what the map holds afterwards.
#[verifier::external_body]
fn lists_entry(m: &mut AHashMap<LayerKey, PaintList>, k: LayerKey) -> (r: &mut PaintList)
    ensures
        (*r)@ == list_or_empty(held_lists(*old(m)), k),
        held_lists(*final(m)) == held_lists(*old(m)).insert(k, (*final(r))@),
{
    m.entry(k).or_insert_with(PaintList::new)
}

/// Relies on `HashMap::contains_key` (reached through `AHashMap`'s `Deref`):
/// whether the key has a value.
#[verifier::external_body]
fn lists_contains(m: &AHashMap<LayerKey, PaintList>, k: LayerKey) -> (r: bool)
    ensures
        r == held_lists(*m).contains_key(k),
{
    m.contains_key(&k)
}

/// Relies on `HashMap::keys` (reached through `AHashMap`'s `Deref`): each key
/// once, in an order that the map does not promise.
#[verifier::external_body]
fn lists_keys(m: &AHashMap<LayerKey, PaintList>) -> (r: Vec<LayerKey>)
    ensures
        r@.no_duplicates(),
        r@.to_set() == held_lists(*m).dom(),
{
    m.keys().copied().collect()
}

/// The buffers that hold at least one command.
pub open spec fn nonempty_part(m: Buffers) -> Buffers {
    Map::new(|k: LayerKey| m.contains_key(k) && m[k].len() > 0, |k: LayerKey| m[k])
}

/// The same keys, each with an empty buffer.
pub open spec fn emptied(m: Buffers) -> Buffers {
    Map::new(|k: LayerKey| m.contains_key(k), |k: LayerKey| Seq::empty())
}

/// The keys of tier `t` that have a buffer.
pub open spec fn tier_keys(m: Buffers, t: u8) -> Set<LayerKey> {
    Set::new(|k: LayerKey| m.contains_key(k) && k.0.rank() == t)
}

/// The keys of `avail` in the order of their first mention in `order`.
pub open spec fn pick(order: Seq<LayerId>, avail: Set<LayerKey>) -> Seq<LayerKey>
    decreases order.len(),
{
    if order.len() == 0 {
        Seq::empty()
    } else {
        let before = pick(order.drop_last(), avail);
        let k = layer_key(order.last());
        if avail.contains(k) && !before.contains(k) {
            before.push(k)
        } else {
            before
        }
    }
}

/// Whether `rest` lists, once each, the keys of tier `t` that `order` does not mention.
pub open spec fn is_rest_of_tier(m: Buffers, order: Seq<LayerId>, t: u8, rest: Seq<LayerKey>) -> bool {
    &&& rest.no_duplicates()
    &&& rest.to_set() == tier_keys(m, t).difference(pick(order, tier_keys(m, t)).to_set())
}

/// Whether `rests` gives, for each tier, an order for the keys that `order` does not mention.
pub open spec fn are_rests(m: Buffers, order: Seq<LayerId>, rests: Seq<Seq<LayerKey>>) -> bool {
    &&& rests.len() == ORDER_COUNT
    &&& forall|t: int| 0 <= t < ORDER_COUNT ==> #[trigger] is_rest_of_tier(m, order, t as u8, rests[t])
}

/// The order in which the buffers of the first `n` tiers are painted: tier by
/// tier, first those that `order` mentions, in its order, then the rest.
pub open spec fn draw_order(m: Buffers, order: Seq<LayerId>, rests: Seq<Seq<LayerKey>>, n: nat) -> Seq<LayerKey>
    decreases n,
{
    if n == 0 {
        Seq::empty()
    } else {
        draw_order(m, order, rests, (n - 1) as nat) + pick(order, tier_keys(m, (n - 1) as u8)) + rests[n - 1]
    }
}

/// The commands of the buffers of `ks`, one buffer after the other.
pub open spec fn flatten(m: Buffers, ks: Seq<LayerKey>) -> Seq<(Rect, PaintCmd)>
    decreases ks.len(),
{
    if ks.len() == 0 {
        Seq::empty()
    } else {
        flatten(m, ks.drop_last()) + m[ks.last()]
    }
}

pub proof fn lemma_flatten_concat(m: Buffers, a: Seq<LayerKey>, b: Seq<LayerKey>)
    ensures
        flatten(m, a + b) == flatten(m, a) + flatten(m, b),
    decreases b.len(),
{
    if b.len() == 0 {
        assert(a + b =~= a);
        assert(flatten(m, a) + flatten(m, b) =~= flatten(m, a));
    } else {
        lemma_flatten_concat(m, a, b.drop_last());
        assert((a + b).drop_last() =~= a + b.drop_last());
        assert((a + b).last() == b.last());
        assert(flatten(m, a + b) =~= flatten(m, a) + flatten(m, b));
    }
}

/// What `pick` lists comes from `avail`, each key once.
pub proof fn lemma_pick_within(order: Seq<LayerId>, avail: Set<LayerKey>)
    ensures
        pick(order, avail).no_duplicates(),
        forall|k: LayerKey| #[trigger] pick(order, avail).contains(k) ==> avail.contains(k),
    decreases order.len(),
{
    if order.len() > 0 {
        lemma_pick_within(order.drop_last(), avail);
        let before = pick(order.drop_last(), avail);
        let k = layer_key(order.last());
        if avail.contains(k) && !before.contains(k) {
            let after = before.push(k);
            assert forall|k2: LayerKey| #[trigger] after.contains(k2) implies avail.contains(k2) by {
                let w = choose|w: int| 0 <= w < after.len() && after[w] == k2;
                if w < before.len() {
                    assert(before[w] == k2);
                    assert(before.contains(k2));
                } else {
                    assert(k2 == k);
                }
            }
        }
    }
}

proof fn lemma_draw_order_reads_prefix(
    m: Buffers,
    order: Seq<LayerId>,
    r1: Seq<Seq<LayerKey>>,
    r2: Seq<Seq<LayerKey>>,
    n: nat,
)
    requires
        n <= r1.len(),
        n <= r2.len(),
        forall|i: int| 0 <= i < n ==> r1[i] == r2[i],
    ensures
        draw_order(m, order, r1, n) == draw_order(m, order, r2, n),
    decreases n,
{
    if n > 0 {
        lemma_draw_order_reads_prefix(m, order, r1, r2, (n - 1) as nat);
    }
}

/// What `pick` lists are keys of layers of `order`.
proof fn lemma_pick_from(order: Seq<LayerId>, avail: Set<LayerKey>, x: LayerId)
    ensures
        pick(order, avail).contains(layer_key(x)) ==> order.contains(x),
    decreases order.len(),
{
    if order.len() > 0 {
        lemma_pick_from(order.drop_last(), avail, x);
        let before = pick(order.drop_last(), avail);
        let k = layer_key(order.last());
        if pick(order, avail).contains(layer_key(x)) {
            if avail.contains(k) && !before.contains(k) && layer_key(x) == k {
                assert(order[order.len() - 1] == x);
            } else {
                if !before.contains(layer_key(x)) {
                    let after = before.push(k);
                    let w = choose|w: int| 0 <= w < after.len() && after[w] == layer_key(x);
                    if w < before.len() {
                        assert(before[w] == layer_key(x));
                    }
                }
                assert(before.contains(layer_key(x)));
                let i = choose|i: int| 0 <= i < order.drop_last().len() && order.drop_last()[i] == x;
                assert(order[i] == x);
            }
        }
    }
}

/// `draw_order` for `n` tiers begins with `draw_order` for fewer.
proof fn lemma_draw_order_prefix(m: Buffers, order: Seq<LayerId>, rests: Seq<Seq<LayerKey>>, n: nat, k: nat)
    requires
        n <= k,
    ensures
        draw_order(m, order, rests, n).len() <= draw_order(m, order, rests, k).len(),
        draw_order(m, order, rests, k).subrange(0, draw_order(m, order, rests, n).len() as int)
            == draw_order(m, order, rests, n),
    decreases k,
{
    if n < k {
        lemma_draw_order_prefix(m, order, rests, n, (k - 1) as nat);
        let d = draw_order(m, order, rests, (k - 1) as nat);
        let e = draw_order(m, order, rests, k);
        let dn = draw_order(m, order, rests, n);
        assert(e.subrange(0, d.len() as int) =~= d);
        assert(e.subrange(0, dn.len() as int) =~= d.subrange(0, dn.len() as int));
    } else {
        assert(draw_order(m, order, rests, k).subrange(0, draw_order(m, order, rests, k).len() as int)
            =~= draw_order(m, order, rests, k));
    }
}

/// Painting order, tier by tier, lists each buffer of the first `n` tiers exactly once.
proof fn lemma_draw_order_once_upto(m: Buffers, order: Seq<LayerId>, rests: Seq<Seq<LayerKey>>, n: nat)
    requires
        are_rests(m, order, rests),
        n <= ORDER_COUNT,
    ensures
        draw_order(m, order, rests, n).no_duplicates(),
        forall|k: LayerKey| #[trigger]
            draw_order(m, order, rests, n).contains(k) <==> (m.contains_key(k) && k.0.rank() < n),
    decreases n,
{
    if n > 0 {
        let t = (n - 1) as nat;
        lemma_draw_order_once_upto(m, order, rests, t);
        let d = draw_order(m, order, rests, t);
        let avail = tier_keys(m, t as u8);
        let pk = pick(order, avail);
        let rest = rests[t as int];
        assert(is_rest_of_tier(m, order, t as u8, rest));
        lemma_pick_within(order, avail);
        assert forall|k: LayerKey| #[trigger] rest.contains(k) <==> (avail.contains(k) && !pk.contains(k)) by {
            assert(rest.to_set().contains(k) == rest.contains(k));
            assert(pk.to_set().contains(k) == pk.contains(k));
        }
        assert forall|i: int, j: int| 0 <= i < pk.len() && 0 <= j < rest.len() implies pk[i] != rest[j] by {
            assert(pk.contains(pk[i]));
            assert(rest.contains(rest[j]));
        }
        lemma_no_dup_in_concat(pk, rest);
        assert forall|k: LayerKey| #[trigger] (pk + rest).contains(k) <==> (m.contains_key(k) && k.0.rank() == t) by {
            vstd::seq_lib::lemma_seq_concat_contains_all_elements(pk, rest, k);
        }
        assert forall|i: int, j: int| 0 <= i < d.len() && 0 <= j < (pk + rest).len() implies d[i] != (pk + rest)[j] by {
            assert(d.contains(d[i]));
            assert((pk + rest).contains((pk + rest)[j]));
        }
        lemma_no_dup_in_concat(d, pk + rest);
        assert(draw_order(m, order, rests, n) =~= d + (pk + rest));
        assert forall|k: LayerKey| #[trigger]
            draw_order(m, order, rests, n).contains(k) <==> (m.contains_key(k) && k.0.rank() < n) by {
            vstd::seq_lib::lemma_seq_concat_contains_all_elements(d, pk + rest, k);
        }
    }
}

/// Draining paints every non-empty buffer exactly once.
pub proof fn lemma_drain_paints_each_once(m: Buffers, order: Seq<LayerId>, rests: Seq<Seq<LayerKey>>)
    requires
        are_rests(nonempty_part(m), order, rests),
    ensures
        draw_order(nonempty_part(m), order, rests, ORDER_COUNT as nat).no_duplicates(),
        draw_order(nonempty_part(m), order, rests, ORDER_COUNT as nat).to_set() == nonempty_part(m).dom(),
{
    let p = nonempty_part(m);
    lemma_draw_order_once_upto(p, order, rests, ORDER_COUNT as nat);
    let d = draw_order(p, order, rests, ORDER_COUNT as nat);
    assert forall|k: LayerKey| p.contains_key(k) implies k.0.rank() < ORDER_COUNT by {}
    assert(d.to_set() =~= p.dom());
}

/// A buffer that is empty when the frame's drain comes (nothing was added
/// to it since the previous drain) is gone afterwards. Across two frames:
/// after a drain, only the buffers added to before the next drain survive it.
pub proof fn lemma_drain_drops_untouched(m0: Buffers, m1: Buffers, touched: Set<LayerKey>)
    requires
        forall|k: LayerKey|
            !touched.contains(k) ==> (#[trigger] m1.contains_key(k) == emptied(nonempty_part(m0)).contains_key(k)
                && (m1.contains_key(k) ==> m1[k] == emptied(nonempty_part(m0))[k])),
    ensures
        forall|k: LayerKey| #[trigger] emptied(nonempty_part(m1)).contains_key(k) ==> touched.contains(k),
{
}

/// Moving `a` to the top, then `b`, then `a` again, puts `a` above `b`:
/// when both layers are of one tier and both buffers hold commands, the
/// drain paints `b`'s buffer and right after it `a`'s, and each only there.
pub proof fn lemma_last_moved_is_painted_last(
    m: Buffers,
    o: Seq<LayerId>,
    a: LayerId,
    b: LayerId,
    rests: Seq<Seq<LayerKey>>,
)
    requires
        a.order == b.order,
        a != b,
        nonempty_part(m).contains_key(layer_key(a)),
        nonempty_part(m).contains_key(layer_key(b)),
        are_rests(nonempty_part(m), to_top(to_top(to_top(o, a), b), a), rests),
    ensures
        exists|i: int|
            0 <= i && i + 1 < draw_order(
                nonempty_part(m),
                to_top(to_top(to_top(o, a), b), a),
                rests,
                ORDER_COUNT as nat,
            ).len() && #[trigger] draw_order(
                nonempty_part(m),
                to_top(to_top(to_top(o, a), b), a),
                rests,
                ORDER_COUNT as nat,
            )[i] == layer_key(b) && draw_order(
                nonempty_part(m),
                to_top(to_top(to_top(o, a), b), a),
                rests,
                ORDER_COUNT as nat,
            )[i + 1] == layer_key(a),
        draw_order(nonempty_part(m), to_top(to_top(to_top(o, a), b), a), rests, ORDER_COUNT as nat).no_duplicates(),
{
    let p = nonempty_part(m);
    lemma_drain_paints_each_once(m, to_top(to_top(to_top(o, a), b), a), rests);
    let x = to_top(o, a);
    let y = to_top(x, b);
    let z = to_top(y, a);
    let w = without(without(x, b), a);
    lemma_without(x, b);
    lemma_without(without(x, b), a);
    assert(y.drop_last() =~= without(x, b));
    assert(without(y, a) == without(without(x, b), a).push(b));
    assert(z == w.push(b).push(a));
    let t = a.order.rank();
    let avail = tier_keys(p, t);
    let ka = layer_key(a);
    let kb = layer_key(b);
    assert(avail.contains(ka) && avail.contains(kb));
    assert(z.drop_last() =~= w.push(b));
    assert(w.push(b).drop_last() =~= w);
    lemma_pick_from(w, avail, b);
    lemma_pick_from(w.push(b), avail, a);
    if w.push(b).contains(a) {
        let i = choose|i: int| 0 <= i < w.push(b).len() && w.push(b)[i] == a;
        if i < w.len() {
            assert(w[i] == a);
            assert(w.contains(a));
        }
    }
    let q = pick(w, avail);
    assert(pick(w.push(b), avail) == q.push(kb));
    assert(pick(z, avail) == q.push(kb).push(ka));
    let n = (t + 1) as nat;
    lemma_draw_order_prefix(p, z, rests, n, ORDER_COUNT as nat);
    let d = draw_order(p, z, rests, t as nat);
    let dn = draw_order(p, z, rests, n);
    let full = draw_order(p, z, rests, ORDER_COUNT as nat);
    assert(dn == d + q.push(kb).push(ka) + rests[t as int]);
    let i: int = (d.len() + q.len()) as int;
    assert(dn[i] == kb);
    assert(dn[i + 1] == ka);
    assert(full.subrange(0, dn.len() as int) == dn);
    assert(full[i] == dn[i]);
    assert(full[i + 1] == dn[i + 1]);
}

/// The paint buffers of every layer of every tier.
pub struct GraphicLayers {
    lists: AHashMap<LayerKey, PaintList>,
}

impl View for GraphicLayers {
    type V = Buffers;

    closed spec fn view(&self) -> Buffers {
        held_lists(self.lists)
    }
}

/// The commands of a layer's buffer, empty where it has none.
pub open spec fn list_or_empty(m: Buffers, k: LayerKey) -> Seq<(Rect, PaintCmd)> {
    if m.contains_key(k) {
        m[k]
    } else {
        Seq::empty()
    }
}

impl GraphicLayers {
    pub fn new() -> (r: GraphicLayers)
        ensures
            r@ == Buffers::empty(),
    {
        GraphicLayers { lists: lists_new() }
    }

    /// The buffer of a layer, created empty on first use.
    pub fn list(&mut self, layer_id: LayerId) -> (r: &mut PaintList)
        ensures
            (*r)@ == list_or_empty(old(self)@, layer_key(layer_id)),
            final(self)@ == old(self)@.insert(layer_key(layer_id), (*final(r))@),
    {
        lists_entry(&mut self.lists, layer_id.key())
    }

    /// Takes a layer's buffer out (an empty one if it has none); hand it back with `put`.
    pub fn take(&mut self, layer_id: LayerId) -> (r: PaintList)
        ensures
            r@ == list_or_empty(old(self)@, layer_key(layer_id)),
            final(self)@ == old(self)@.remove(layer_key(layer_id)),
    {
        match lists_remove(&mut self.lists, layer_id.key()) {
            Some(l) => l,
            None => PaintList::new(),
        }
    }

    /// Gives a layer its buffer.
    pub fn put(&mut self, layer_id: LayerId, list: PaintList)
        ensures
            final(self)@ == old(self)@.insert(layer_key(layer_id), list@),
    {
        lists_insert(&mut self.lists, layer_id.key(), list);
    }

    /// Appends a command to a layer's buffer, creating the buffer on first use.
    pub fn add(&mut self, layer_id: LayerId, clip_rect: Rect, cmd: PaintCmd) -> (r: crate::layers::PaintCmdIdx)
        ensures
            final(self)@ == old(self)@.insert(
                layer_key(layer_id),
                list_or_empty(old(self)@, layer_key(layer_id)).push((clip_rect, cmd)),
            ),
            r.index() == list_or_empty(old(self)@, layer_key(layer_id)).len(),
    {
        let idx = self.list(layer_id).add(clip_rect, cmd);
        idx
    }

    /// Replaces the command of a layer's buffer that `idx` names.
    pub fn set(&mut self, layer_id: LayerId, idx: crate::layers::PaintCmdIdx, clip_rect: Rect, cmd: PaintCmd)
        requires
            idx.index() < list_or_empty(old(self)@, layer_key(layer_id)).len(),
        ensures
            final(self)@ == old(self)@.insert(
                layer_key(layer_id),
                list_or_empty(old(self)@, layer_key(layer_id)).update(idx.index() as int, (clip_rect, cmd)),
            ),
    {
        self.list(layer_id).set(idx, clip_rect, cmd);
    }

    /// Whether `layer_id` has a buffer, empty or not.
    pub fn has_list(&self, layer_id: LayerId) -> (r: bool)
        ensures
            r == self@.contains_key(layer_key(layer_id)),
    {
        lists_contains(&self.lists, layer_id.key())
    }

    /// Flattens all buffers into one sequence in painting order, emptying them.
    ///
    /// Buffers that were empty already (nobody added to them since the last
    /// drain) are dropped first. Then, tier by tier from the background up, the
    /// buffers of the layers that `area_order` mentions come in its order,
    /// each once, followed by the other buffers of the tier, in an order that
    /// is not promised.
    pub fn drain(&mut self, area_order: &[LayerId]) -> (r: Vec<(Rect, PaintCmd)>)
        ensures
            final(self)@ == emptied(nonempty_part(old(self)@)),
            exists|rests: Seq<Seq<LayerKey>>|
                are_rests(nonempty_part(old(self)@), area_order@, rests) && r@ == flatten(
                    nonempty_part(old(self)@),
                    draw_order(nonempty_part(old(self)@), area_order@, rests, ORDER_COUNT as nat),
                ),
    {
        let ghost m0 = self@;
        let ghost p = nonempty_part(m0);
        let ghost order = area_order@;
        self.prune();
        let keys = lists_keys(&self.lists);
        let mut out: Vec<(Rect, PaintCmd)> = Vec::new();
        let ghost mut rests: Seq<Seq<LayerKey>> = Seq::empty();
        let mut t: u8 = 0;
        while t < ORDER_COUNT
            invariant
                t <= ORDER_COUNT,
                rests.len() == t,
                order == area_order@,
                p == nonempty_part(m0),
                keys@.no_duplicates(),
                keys@.to_set() == p.dom(),
                self@.dom() == p.dom(),
                forall|k: LayerKey| #[trigger]
                    p.contains_key(k) ==> self@[k] == (if k.0.rank() < t {
                        Seq::<(Rect, PaintCmd)>::empty()
                    } else {
                        p[k]
                    }),
                forall|s: int| 0 <= s < t ==> #[trigger] is_rest_of_tier(p, order, s as u8, rests[s]),
                out@ == flatten(p, draw_order(p, order, rests, t as nat)),
            decreases ORDER_COUNT - t,
        {
            let ghost avail = tier_keys(p, t);
            let ghost before = out@;
            let mut j: usize = 0;
            while j < area_order.len()
                invariant
                    t < ORDER_COUNT,
                    avail == tier_keys(p, t),
                    order == area_order@,
                    p == nonempty_part(m0),
                    j <= order.len(),
                    self@.dom() == p.dom(),
                    forall|k: LayerKey| #[trigger]
                        p.contains_key(k) ==> self@[k] == (if k.0.rank() < t || pick(
                            order.subrange(0, j as int),
                            avail,
                        ).contains(k) {
                            Seq::<(Rect, PaintCmd)>::empty()
                        } else {
                            p[k]
                        }),
                    out@ == before + flatten(p, pick(order.subrange(0, j as int), avail)),
                decreases order.len() - j,
            {
                let l = area_order[j];
                let ghost prev = pick(order.subrange(0, j as int), avail);
                let ghost next = pick(order.subrange(0, j + 1), avail);
                proof {
                    assert(order.subrange(0, j + 1).drop_last() =~= order.subrange(0, j as int));
                    assert(order.subrange(0, j + 1).last() == l);
                    if avail.contains(layer_key(l)) && !prev.contains(layer_key(l)) {
                        assert(next == prev.push(layer_key(l)));
                        assert(next.drop_last() =~= prev);
                        assert forall|k: LayerKey| #[trigger] next.contains(k) <==> (prev.contains(k) || k == layer_key(l)) by {
                            if k == layer_key(l) {
                                assert(next[next.len() - 1] == k);
                            }
                            if prev.contains(k) {
                                let w = choose|w: int| 0 <= w < prev.len() && prev[w] == k;
                                assert(next[w] == k);
                            }
                            if next.contains(k) && k != layer_key(l) {
                                let w = choose|w: int| 0 <= w < next.len() && next[w] == k;
                                assert(prev[w] == k);
                            }
                        }
                    } else {
                        assert(next == prev);
                    }
                }
                if l.order.index() == t {
                    let k = l.key();
                    match lists_remove(&mut self.lists, k) {
                        Some(mut list) => {
                            list.drain_into(&mut out);
                            lists_insert(&mut self.lists, k, list);
                            proof {
                                assert(out@ =~= before + flatten(p, next));
                            }
                        },
                        None => {},
                    }
                }
                j = j + 1;
                proof {
                    assert(self@.dom() =~= p.dom());
                }
            }
            let ghost picked = pick(order, avail);
            proof {
                assert(order.subrange(0, j as int) =~= order);
            }
            let ghost before2 = out@;
            let ghost mut rest: Seq<LayerKey> = Seq::empty();
            let ghost mut seen: Set<LayerKey> = Set::empty();
            let mut i: usize = 0;
            while i < keys.len()
                invariant
                    t < ORDER_COUNT,
                    avail == tier_keys(p, t),
                    picked == pick(order, avail),
                    p == nonempty_part(m0),
                    keys@.no_duplicates(),
                    keys@.to_set() == p.dom(),
                    i <= keys@.len(),
                    forall|w: int| 0 <= w < i ==> #[trigger] seen.contains(keys@[w]),
                    forall|w: int| i <= w < keys@.len() ==> !(#[trigger] seen.contains(keys@[w])),
                    seen.subset_of(p.dom()),
                    self@.dom() == p.dom(),
                    forall|k: LayerKey| #[trigger]
                        p.contains_key(k) ==> self@[k] == (if k.0.rank() < t || picked.contains(k) || (
                        k.0.rank() == t && seen.contains(k)) {
                            Seq::<(Rect, PaintCmd)>::empty()
                        } else {
                            p[k]
                        }),
                    rest.no_duplicates(),
                    forall|k: LayerKey| #[trigger]
                        rest.contains(k) <==> (seen.contains(k) && k.0.rank() == t && !picked.contains(k)),
                    out@ == before2 + flatten(p, rest),
                decreases keys@.len() - i,
            {
                let k = keys[i];
                proof {
                    assert(keys@.to_set().contains(k));
                    assert(!seen.contains(k));
                    assert forall|w: int| i < w < keys@.len() implies keys@[w] != k by {
                        assert(keys@[i as int] == k);
                    }
                }
                if k.0.index() == t {
                    match lists_remove(&mut self.lists, k) {
                        Some(mut list) => {
                            let ghost was = list@;
                            let ghost old_rest = rest;
                            if !list.is_empty() {
                                proof {
                                    assert(!picked.contains(k));
                                    assert(!rest.contains(k));
                                    rest = rest.push(k);
                                    assert(rest.drop_last() =~= old_rest);
                                    assert forall|k2: LayerKey| #[trigger] rest.contains(k2) <==> (old_rest.contains(k2) || k2 == k) by {
                                        if k2 == k {
                                            assert(rest[rest.len() - 1] == k2);
                                        }
                                        if old_rest.contains(k2) {
                                            let w = choose|w: int| 0 <= w < old_rest.len() && old_rest[w] == k2;
                                            assert(rest[w] == k2);
                                        }
                                        if rest.contains(k2) && k2 != k {
                                            let w = choose|w: int| 0 <= w < rest.len() && rest[w] == k2;
                                            assert(old_rest[w] == k2);
                                        }
                                    }
                                }
                            }
                            list.drain_into(&mut out);
                            lists_insert(&mut self.lists, k, list);
                            proof {
                                assert(out@ =~= before2 + flatten(p, rest));
                            }
                        },
                        None => {},
                    }
                }
                proof {
                    seen = seen.insert(k);
                }
                i = i + 1;
                proof {
                    assert(self@.dom() =~= p.dom());
                }
            }
            proof {
                assert forall|k: LayerKey| p.contains_key(k) implies seen.contains(k) by {
                    assert(keys@.to_set().contains(k));
                    let w = choose|w: int| 0 <= w < keys@.len() && keys@[w] == k;
                }
                assert(rest.to_set() =~= tier_keys(p, t).difference(picked.to_set()));
                let rests2 = rests.push(rest);
                lemma_draw_order_reads_prefix(p, order, rests, rests2, t as nat);
                lemma_flatten_concat(p, draw_order(p, order, rests, t as nat), picked);
                lemma_flatten_concat(p, draw_order(p, order, rests, t as nat) + picked, rest);
                assert(draw_order(p, order, rests2, (t + 1) as nat) == draw_order(p, order, rests2, t as nat)
                    + picked + rest);
                assert forall|s: int| 0 <= s < t + 1 implies #[trigger] is_rest_of_tier(p, order, s as u8, rests2[s]) by {
                    if s < t {
                        assert(rests2[s] == rests[s]);
                    }
                }
                rests = rests2;
                assert forall|k: LayerKey| #[trigger]
                    p.contains_key(k) implies self@[k] == (if k.0.rank() < t + 1 {
                        Seq::<(Rect, PaintCmd)>::empty()
                    } else {
                        p[k]
                    }) by {
                    assert(seen.contains(k));
                    lemma_pick_within(order, avail);
                }
            }
            t = t + 1;
        }
        proof {
            assert forall|k: LayerKey| p.contains_key(k) implies k.0.rank() < ORDER_COUNT by {}
            assert(self@ =~= emptied(p));
            assert(are_rests(p, order, rests));
        }
        out
    }

    /// Drops the buffers that hold no command.
    fn prune(&mut self)
        ensures
            final(self)@ == nonempty_part(old(self)@),
    {
        let ghost m0 = self@;
        let all_keys = lists_keys(&self.lists);
        let ghost mut seen: Set<LayerKey> = Set::empty();
        let mut i: usize = 0;
        while i < all_keys.len()
            invariant
                all_keys@.no_duplicates(),
                all_keys@.to_set() == m0.dom(),
                i <= all_keys@.len(),
                forall|w: int| 0 <= w < i ==> #[trigger] seen.contains(all_keys@[w]),
                forall|w: int| i <= w < all_keys@.len() ==> !(#[trigger] seen.contains(all_keys@[w])),
                forall|k: LayerKey|
                    #[trigger] self@.contains_key(k) <==> (m0.contains_key(k) && (seen.contains(k)
                        ==> m0[k].len() > 0)),
                forall|k: LayerKey| #[trigger] self@.contains_key(k) ==> self@[k] == m0[k],
            decreases all_keys@.len() - i,
        {
            let k = all_keys[i];
            proof {
                assert(all_keys@.to_set().contains(k));
                assert(!seen.contains(k));
                assert forall|w: int| i < w < all_keys@.len() implies all_keys@[w] != k by {
                    assert(all_keys@[i as int] == k);
                }
            }
            let ghost before = self@;
            match lists_remove(&mut self.lists, k) {
                Some(l) => {
                    assert(l@ == m0[k]);
                    if !l.is_empty() {
                        lists_insert(&mut self.lists, k, l);
                        assert(self@ == before.remove(k).insert(k, m0[k]));
                    } else {
                        assert(self@ == before.remove(k));
                    }
                },
                None => {
                    assert(false);
                },
            }
            proof {
                let ghost old_seen = seen;
                seen = seen.insert(k);
                assert forall|k2: LayerKey|
                    #[trigger] self@.contains_key(k2) <==> (m0.contains_key(k2) && (seen.contains(k2)
                        ==> m0[k2].len() > 0)) by {
                    if k2 != k {
                        assert(old_seen.contains(k2) == seen.contains(k2));
                    }
                }
            }
            i = i + 1;
        }
        proof {
            assert forall|k: LayerKey| m0.contains_key(k) implies seen.contains(k) by {
                assert(all_keys@.to_set().contains(k));
                let w = choose|w: int| 0 <= w < all_keys@.len() && all_keys@[w] == k;
            }
            assert(self@ =~= nonempty_part(m0));
        }
    }
}

} // verus!
