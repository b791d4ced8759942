//! What the GUI remembers from one frame to the next: the state of each area
//! and of each resizable region, keyed by `Id`; the stacking order of the
//! areas; which areas were shown; and which widget holds the mouse.
use vstd::prelude::*;
use std::collections::HashMap;
use crate::id::Id;
use crate::layers::LayerId;
use crate::math::{Pos2, Rect, Vec2};

verus! {

/// What an area remembers.
#[derive(Clone, Copy, Debug, PartialEq, Eq, Structural)]
pub struct AreaState {
    /// Last known position of the top-left corner.
    pub pos: Pos2,
    /// Extent of the content last frame; used to catch clicks.
    pub size: Vec2,
    /// If false, clicks go straight through to what is behind.
    pub interactable: bool,
    /// Pixels per second; an area that is let go of while dragged coasts on.
    pub vel: Vec2,
}

impl AreaState {
    pub open spec fn rect_spec(self) -> Rect {
        Rect::from_min_size_spec(self.pos, self.size)
    }

    /// The rectangle that the area covered.
    pub fn rect(&self) -> (r: Rect)
        ensures
            r == self.rect_spec(),
    {
        Rect::from_min_size(self.pos, self.size)
    }
}

/// What a resizable region remembers.
#[derive(Clone, Copy, Debug, PartialEq, Eq, Structural)]
pub struct ResizeState {
    /// The size that the user asked for by dragging the corner. The content
    /// may need more, or less.
    pub desired_size: Vec2,
    /// Extent of the content last frame.
    pub last_content_size: Vec2,
    /// A size asked for by the code around the region, applied once.
    pub requested_size: Option<Vec2>,
}

/// `s` without `l`, the other entries in their order.
pub open spec fn without(s: Seq<LayerId>, l: LayerId) -> Seq<LayerId>
    decreases s.len(),
{
    if s.len() == 0 {
        Seq::empty()
    } else if s.last() == l {
        without(s.drop_last(), l)
    } else {
        without(s.drop_last(), l).push(s.last())
    }
}

/// `s`, with `l` appended unless it is there already.
pub open spec fn with_entry(s: Seq<LayerId>, l: LayerId) -> Seq<LayerId> {
    if s.contains(l) {
        s
    } else {
        s.push(l)
    }
}

/// `s` with `l` moved (or added) to the end.
pub open spec fn to_top(s: Seq<LayerId>, l: LayerId) -> Seq<LayerId> {
    without(s, l).push(l)
}

pub proof fn lemma_with_entry(s: Seq<LayerId>, l: LayerId)
    ensures
        with_entry(s, l).contains(l),
        with_entry(with_entry(s, l), l) == with_entry(s, l),
        to_top(s, l).contains(l),
        with_entry(to_top(s, l), l) == to_top(s, l),
{
    if !s.contains(l) {
        assert(s.push(l)[s.len() as int] == l);
    }
    assert(to_top(s, l)[to_top(s, l).len() - 1] == l);
}

/// `with_entry` adds `l` and keeps everything else.
pub proof fn lemma_with_entry_keeps(s: Seq<LayerId>, l: LayerId, x: LayerId)
    ensures
        with_entry(s, l).contains(x) <==> (s.contains(x) || x == l),
{
    lemma_with_entry(s, l);
    if !s.contains(l) {
        if s.contains(x) {
            let i = choose|i: int| 0 <= i < s.len() && s[i] == x;
            assert(s.push(l)[i] == x);
        }
        if s.push(l).contains(x) && x != l {
            let i = choose|i: int| 0 <= i < s.push(l).len() && s.push(l)[i] == x;
            assert(s[i] == x);
        }
    }
}

pub proof fn lemma_without(s: Seq<LayerId>, l: LayerId)
    ensures
        forall|x: LayerId| #[trigger] without(s, l).contains(x) <==> (s.contains(x) && x != l),
        s.no_duplicates() ==> without(s, l).no_duplicates(),
    decreases s.len(),
{
    if s.len() > 0 {
        lemma_without(s.drop_last(), l);
        let w = without(s.drop_last(), l);
        assert forall|x: LayerId| #[trigger] without(s, l).contains(x) <==> (s.contains(x) && x != l) by {
            if s.contains(x) && x != l {
                let i = choose|i: int| 0 <= i < s.len() && s[i] == x;
                if i < s.len() - 1 {
                    assert(s.drop_last()[i] == x);
                    assert(w.contains(x));
                    if s.last() != l {
                        let j = choose|j: int| 0 <= j < w.len() && w[j] == x;
                        assert(w.push(s.last())[j] == x);
                    }
                } else if s.last() != l {
                    assert(w.push(s.last())[w.len() as int] == x);
                }
            }
            if without(s, l).contains(x) {
                let i = choose|i: int| 0 <= i < without(s, l).len() && without(s, l)[i] == x;
                if s.last() != l && i == w.len() {
                    assert(s[s.len() - 1] == x);
                } else {
                    assert(w[i] == x);
                    assert(w.contains(x));
                    let j = choose|j: int| 0 <= j < s.drop_last().len() && s.drop_last()[j] == x;
                    assert(s[j] == x);
                }
            }
        }
        if s.no_duplicates() {
            assert(s.drop_last().no_duplicates()) by {
                assert forall|i: int, j: int|
                    0 <= i < s.drop_last().len() && 0 <= j < s.drop_last().len() && i != j implies
                    s.drop_last()[i] != s.drop_last()[j] by {
                    assert(s[i] != s[j]);
                }
            }
            if s.last() != l {
                assert(!w.contains(s.last())) by {
                    if w.contains(s.last()) {
                        let j = choose|j: int| 0 <= j < s.drop_last().len() && s.drop_last()[j] == s.last();
                        assert(s[j] == s[s.len() - 1]);
                    }
                }
                let ww = w.push(s.last());
                assert forall|i: int, j: int| 0 <= i < ww.len() && 0 <= j < ww.len() && i != j implies ww[i] != ww[j] by {
                    if i == w.len() {
                        assert(w.contains(ww[j]));
                    } else if j == w.len() {
                        assert(w.contains(ww[i]));
                    }
                }
            }
        }
    }
}

/// The state remembered under `id`, if any.
pub open spec fn lookup<V>(m: Map<u64, V>, id: Id) -> Option<V> {
    if m.contains_key(id.0) {
        Some(m[id.0])
    } else {
        None
    }
}

/// What is remembered under an `Id` is what was last stored under it, for
/// areas and for resizable regions alike.
pub proof fn lemma_store_round_trip<V>(m: Map<u64, V>, id: Id, state: V)
    ensures
        lookup(m.insert(id.0, state), id) == Some(state),
{
}

/// Everything that lives from one frame to the next.
pub struct Memory {
    areas: HashMap<u64, AreaState>,
    resize: HashMap<u64, ResizeState>,
    /// Stacking order of the areas, bottom first.
    order: Vec<LayerId>,
    visible_last_frame: Vec<LayerId>,
    visible_current_frame: Vec<LayerId>,
    /// The widget that took the mouse at a press and holds it until release.
    active_id: Option<Id>,
}

impl Memory {
    /// The remembered state of each area, by the value of its `Id`.
    pub closed spec fn areas(&self) -> Map<u64, AreaState> {
        self.areas@
    }

    /// The remembered state of each resizable region, by the value of its `Id`.
    pub closed spec fn resizes(&self) -> Map<u64, ResizeState> {
        self.resize@
    }

    /// The stacking order, bottom first.
    pub closed spec fn order_seq(&self) -> Seq<LayerId> {
        self.order@
    }

    pub closed spec fn shown_last_frame(&self) -> Seq<LayerId> {
        self.visible_last_frame@
    }

    pub closed spec fn shown_this_frame(&self) -> Seq<LayerId> {
        self.visible_current_frame@
    }

    pub closed spec fn active(&self) -> Option<Id> {
        self.active_id
    }

    /// No layer stands twice in the stacking order, and every layer shown
    /// last frame or this one has a remembered state or a place in the stack.
    pub open spec fn wf(&self) -> bool {
        &&& self.order_seq().no_duplicates()
        &&& forall|l: LayerId| #[trigger]
            self.was_shown(l) ==> (self.areas().contains_key(l.id.0) || self.order_seq().contains(l))
    }

    /// Whether `l` was shown last frame or has been this frame.
    pub open spec fn was_shown(&self, l: LayerId) -> bool {
        self.shown_last_frame().contains(l) || self.shown_this_frame().contains(l)
    }

    pub fn new() -> (r: Memory)
        ensures
            r.wf(),
            r.areas() == Map::<u64, AreaState>::empty(),
            r.resizes() == Map::<u64, ResizeState>::empty(),
            r.order_seq() == Seq::<LayerId>::empty(),
            r.shown_last_frame() == Seq::<LayerId>::empty(),
            r.shown_this_frame() == Seq::<LayerId>::empty(),
            r.active() == None::<Id>,
    {
        Memory {
            areas: HashMap::new(),
            resize: HashMap::new(),
            order: Vec::new(),
            visible_last_frame: Vec::new(),
            visible_current_frame: Vec::new(),
            active_id: None,
        }
    }

    /// The remembered state of the area `id`, if it was ever shown.
    pub fn area(&self, id: Id) -> (r: Option<AreaState>)
        ensures
            r == lookup(self.areas(), id),
    {
        match self.areas.get(&id.0) {
            Some(s) => Some(*s),
            None => None,
        }
    }

    /// Remembers the state of the area of `layer` and marks it shown this
    /// frame. An area seen for the first time goes on top of the stack.
    pub fn set_area(&mut self, layer: LayerId, state: AreaState)
        requires
            old(self).wf(),
        ensures
            final(self).wf(),
            final(self).areas() == old(self).areas().insert(layer.id.0, state),
            final(self).resizes() == old(self).resizes(),
            final(self).order_seq() == (if old(self).areas().contains_key(layer.id.0) {
                old(self).order_seq()
            } else {
                with_entry(old(self).order_seq(), layer)
            }),
            final(self).shown_last_frame() == old(self).shown_last_frame(),
            final(self).shown_this_frame() == with_entry(old(self).shown_this_frame(), layer),
            final(self).active() == old(self).active(),
    {
        push_absent(&mut self.visible_current_frame, layer);
        let had = self.areas.insert(layer.id.0, state);
        if had.is_none() {
            push_absent(&mut self.order, layer);
        }
        proof {
            lemma_with_entry(old(self).order_seq(), layer);
            lemma_with_entry(old(self).shown_this_frame(), layer);
            assert forall|l: LayerId| #[trigger]
                self.was_shown(l) implies (self.areas().contains_key(l.id.0) || self.order_seq().contains(l)) by {
                lemma_with_entry_keeps(old(self).shown_this_frame(), layer, l);
                lemma_with_entry_keeps(old(self).order_seq(), layer, l);
                assert(old(self).was_shown(l) || l == layer);
            }
        }
    }

    /// The remembered state of the resizable region `id`, if any.
    pub fn resize_state(&self, id: Id) -> (r: Option<ResizeState>)
        ensures
            r == lookup(self.resizes(), id),
    {
        match self.resize.get(&id.0) {
            Some(s) => Some(*s),
            None => None,
        }
    }

    /// Remembers the state of the resizable region `id`.
    pub fn set_resize_state(&mut self, id: Id, state: ResizeState)
        requires
            old(self).wf(),
        ensures
            final(self).wf(),
            final(self).areas() == old(self).areas(),
            final(self).resizes() == old(self).resizes().insert(id.0, state),
            final(self).order_seq() == old(self).order_seq(),
            final(self).shown_last_frame() == old(self).shown_last_frame(),
            final(self).shown_this_frame() == old(self).shown_this_frame(),
            final(self).active() == old(self).active(),
    {
        self.resize.insert(id.0, state);
        proof {
            assert forall|l: LayerId| #[trigger]
                self.was_shown(l) implies (self.areas().contains_key(l.id.0) || self.order_seq().contains(l)) by {
                assert(old(self).was_shown(l));
            }
        }
    }

    /// Puts `layer` on top of the stack: it leaves its place, if it had one,
    /// and is appended. It counts as shown this frame.
    pub fn move_to_top(&mut self, layer: LayerId)
        requires
            old(self).wf(),
        ensures
            final(self).wf(),
            final(self).order_seq() == to_top(old(self).order_seq(), layer),
            final(self).areas() == old(self).areas(),
            final(self).resizes() == old(self).resizes(),
            final(self).shown_last_frame() == old(self).shown_last_frame(),
            final(self).shown_this_frame() == with_entry(old(self).shown_this_frame(), layer),
            final(self).active() == old(self).active(),
    {
        push_absent(&mut self.visible_current_frame, layer);
        let ghost before = self.order@;
        let mut kept: Vec<LayerId> = Vec::new();
        let mut i: usize = 0;
        while i < self.order.len()
            invariant
                self.order@ == before,
                i <= before.len(),
                kept@ == without(before.subrange(0, i as int), layer),
            decreases before.len() - i,
        {
            let l = self.order[i];
            proof {
                assert(before.subrange(0, i + 1).drop_last() =~= before.subrange(0, i as int));
            }
            if l != layer {
                kept.push(l);
            }
            i = i + 1;
        }
        proof {
            assert(before.subrange(0, i as int) =~= before);
            lemma_without(before, layer);
        }
        kept.push(layer);
        self.order = kept;
        proof {
            let w = without(before, layer);
            let t = w.push(layer);
            assert(!w.contains(layer));
            assert forall|i: int, j: int| 0 <= i < t.len() && 0 <= j < t.len() && i != j implies t[i] != t[j] by {
                if i == w.len() {
                    assert(w.contains(t[j]));
                } else if j == w.len() {
                    assert(w.contains(t[i]));
                }
            }
            assert(t[w.len() as int] == layer);
            assert forall|l: LayerId| #[trigger]
                self.was_shown(l) implies (self.areas().contains_key(l.id.0) || self.order_seq().contains(l)) by {
                lemma_with_entry_keeps(old(self).shown_this_frame(), layer, l);
                if l != layer {
                    assert(old(self).was_shown(l));
                    if before.contains(l) {
                        assert(w.contains(l));
                        let i = choose|i: int| 0 <= i < w.len() && w[i] == l;
                        assert(t[i] == l);
                    }
                }
            }
        }
    }

    /// The stacking order of the areas, bottom first.
    pub fn order(&self) -> (r: &Vec<LayerId>)
        ensures
            r@ == self.order_seq(),
    {
        &self.order
    }

    /// Whether the area of `layer` was shown last frame.
    pub fn visible_last_frame(&self, layer: &LayerId) -> (r: bool)
        ensures
            r == self.shown_last_frame().contains(*layer),
    {
        vec_contains(&self.visible_last_frame, *layer)
    }

    /// Whether the area of `layer` was shown last frame or has been this frame.
    pub fn is_visible(&self, layer: &LayerId) -> (r: bool)
        ensures
            r == (self.shown_last_frame().contains(*layer) || self.shown_this_frame().contains(*layer)),
    {
        vec_contains(&self.visible_last_frame, *layer) || vec_contains(&self.visible_current_frame, *layer)
    }

    pub open spec fn layer_at_spec(&self, p: Pos2) -> Option<LayerId> {
        top_hit(self.areas(), self.shown_last_frame(), self.shown_this_frame(), self.order_seq(), p)
    }

    /// The topmost area that takes a click at `p`, if any.
    pub fn layer_at(&self, p: Pos2) -> (r: Option<LayerId>)
        ensures
            r == self.layer_at_spec(p),
    {
        let mut best: Option<LayerId> = None;
        let mut i: usize = 0;
        while i < self.order.len()
            invariant
                i <= self.order_seq().len(),
                best == top_hit(
                    self.areas(),
                    self.shown_last_frame(),
                    self.shown_this_frame(),
                    self.order_seq().subrange(0, i as int),
                    p,
                ),
            decreases self.order_seq().len() - i,
        {
            let l = self.order[i];
            proof {
                assert(self.order_seq().subrange(0, i + 1).drop_last() =~= self.order_seq().subrange(0, i as int));
            }
            let catches = l.allow_interaction() && self.is_visible(&l) && match self.areas.get(&l.id.0) {
                Some(s) => s.interactable && s.rect().contains(p),
                None => false,
            };
            let higher = match best {
                None => true,
                Some(b) => b.order.index() <= l.order.index(),
            };
            if catches && higher {
                best = Some(l);
            }
            i = i + 1;
        }
        proof {
            assert(self.order_seq().subrange(0, i as int) =~= self.order_seq());
        }
        best
    }

    /// The widget that holds the mouse, if any.
    pub fn active_id(&self) -> (r: Option<Id>)
        ensures
            r == self.active(),
    {
        self.active_id
    }

    /// Gives the mouse to `id`, or frees it.
    pub fn set_active_id(&mut self, id: Option<Id>)
        requires
            old(self).wf(),
        ensures
            final(self).wf(),
            final(self).active() == id,
            final(self).areas() == old(self).areas(),
            final(self).resizes() == old(self).resizes(),
            final(self).order_seq() == old(self).order_seq(),
            final(self).shown_last_frame() == old(self).shown_last_frame(),
            final(self).shown_this_frame() == old(self).shown_this_frame(),
    {
        self.active_id = id;
        proof {
            assert forall|l: LayerId| #[trigger]
                self.was_shown(l) implies (self.areas().contains_key(l.id.0) || self.order_seq().contains(l)) by {
                assert(old(self).was_shown(l));
            }
        }
    }

    /// Closes the frame: what was shown in it is what was shown last frame.
    pub fn end_frame(&mut self)
        requires
            old(self).wf(),
        ensures
            final(self).wf(),
            final(self).shown_last_frame() == old(self).shown_this_frame(),
            final(self).shown_this_frame() == Seq::<LayerId>::empty(),
            final(self).areas() == old(self).areas(),
            final(self).resizes() == old(self).resizes(),
            final(self).order_seq() == old(self).order_seq(),
            final(self).active() == old(self).active(),
    {
        let mut shown: Vec<LayerId> = Vec::new();
        std::mem::swap(&mut shown, &mut self.visible_current_frame);
        self.visible_last_frame = shown;
        proof {
            assert forall|l: LayerId| #[trigger]
                self.was_shown(l) implies (self.areas().contains_key(l.id.0) || self.order_seq().contains(l)) by {
                assert(old(self).was_shown(l));
            }
        }
    }
}

/// Whether the area of `l` takes a click at `p`: it is shown (`last` and
/// `current` list what was shown last frame and this one), in a tier that
/// takes part in interaction, interactable, and covers `p`.
pub open spec fn catches(
    areas: Map<u64, AreaState>,
    last: Seq<LayerId>,
    current: Seq<LayerId>,
    l: LayerId,
    p: Pos2,
) -> bool {
    &&& l.order.allows_interaction()
    &&& (last.contains(l) || current.contains(l))
    &&& areas.contains_key(l.id.0)
    &&& areas[l.id.0].interactable
    &&& areas[l.id.0].rect_spec().contains_spec(p)
}

/// Of the layers of `s` that catch a click at `p`, the one in the highest
/// tier, and of those the last in `s`.
pub open spec fn top_hit(
    areas: Map<u64, AreaState>,
    last: Seq<LayerId>,
    current: Seq<LayerId>,
    s: Seq<LayerId>,
    p: Pos2,
) -> Option<LayerId>
    decreases s.len(),
{
    if s.len() == 0 {
        None
    } else {
        let prev = top_hit(areas, last, current, s.drop_last(), p);
        let l = s.last();
        if catches(areas, last, current, l, p) && (prev is None || prev.unwrap().order.rank() <= l.order.rank()) {
            Some(l)
        } else {
            prev
        }
    }
}

/// Whether `v` holds `l`.
fn vec_contains(v: &Vec<LayerId>, l: LayerId) -> (r: bool)
    ensures
        r == v@.contains(l),
{
    let mut i: usize = 0;
    while i < v.len()
        invariant
            i <= v@.len(),
            forall|j: int| 0 <= j < i ==> v@[j] != l,
        decreases v@.len() - i,
    {
        if v[i] == l {
            assert(v@[i as int] == l);
            return true;
        }
        i = i + 1;
    }
    false
}

/// Appends `l` to `v` unless `v` holds it already.
fn push_absent(v: &mut Vec<LayerId>, l: LayerId)
    ensures
        final(v)@ == with_entry(old(v)@, l),
        old(v)@.no_duplicates() ==> final(v)@.no_duplicates(),
{
    if !vec_contains(v, l) {
        v.push(l);
        proof {
            let s = old(v)@;
            let t = s.push(l);
            if s.no_duplicates() {
                assert forall|i: int, j: int| 0 <= i < t.len() && 0 <= j < t.len() && i != j implies t[i] != t[j] by {
                    if i == s.len() {
                        assert(s[j] == t[j]);
                    } else if j == s.len() {
                        assert(s[i] == t[i]);
                    }
                }
            }
        }
    }
}

} // verus!
