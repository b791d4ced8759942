//! Layer tiers, layer identities and the per-layer buffers of paint commands.
use vstd::prelude::*;
use crate::id::Id;
use crate::math::{Pos2, Rect, Vec2};

verus! {

/// Layer tiers, painted in this order: later tiers cover earlier ones.
#[derive(Clone, Copy, Debug, Hash, PartialEq, Eq, Structural, PartialOrd, Ord)]
pub enum Order {
    /// Painted behind all floating windows
    Background,
    /// Normal movable windows, reordered by clicking them
    Middle,
    /// Popups and menus, always above windows
    Foreground,
    /// Floating above everything else, like tooltips: never interacted with
    Tooltip,
    /// Debug overlay, painted last
    Debug,
}

/// The number of tiers.
pub const ORDER_COUNT: u8 = 5;

impl Order {
    /// Position of the tier in painting order.
    pub open spec fn rank(self) -> u8 {
        match self {
            Order::Background => 0,
            Order::Middle => 1,
            Order::Foreground => 2,
            Order::Tooltip => 3,
            Order::Debug => 4,
        }
    }

    pub open spec fn allows_interaction(self) -> bool {
        !(self is Tooltip)
    }

    /// Whether regions of this tier take part in interaction.
    pub fn allow_interaction(&self) -> (r: bool)
        ensures
            r == self.allows_interaction(),
    {
        match self {
            Order::Background | Order::Middle | Order::Foreground | Order::Debug => true,
            Order::Tooltip => false,
        }
    }

    /// Position of the tier in painting order.
    pub fn index(&self) -> (r: u8)
        ensures
            r == self.rank(),
            r < ORDER_COUNT,
    {
        match self {
            Order::Background => 0,
            Order::Middle => 1,
            Order::Foreground => 2,
            Order::Tooltip => 3,
            Order::Debug => 4,
        }
    }
}

/// Identifies a paint layer, and the floating area painted in it.
#[derive(Clone, Copy, Debug, Hash, PartialEq, Eq, Structural)]
pub struct LayerId {
    pub order: Order,
    pub id: Id,
}

/// The key under which a layer's paint buffer is kept.
pub open spec fn layer_key(l: LayerId) -> (Order, u64) {
    (l.order, l.id.0)
}

impl LayerId {
    pub fn new(order: Order, id: Id) -> (r: LayerId)
        ensures
            r == (LayerId { order, id }),
    {
        LayerId { order, id }
    }

    /// The layer of the debug overlay.
    pub fn debug() -> (r: LayerId)
        ensures
            r == (LayerId { order: Order::Debug, id: Id::new_spec("debug"@) }),
    {
        LayerId { order: Order::Debug, id: Id::new("debug") }
    }

    /// The layer behind every floating area.
    pub fn background() -> (r: LayerId)
        ensures
            r == (LayerId { order: Order::Background, id: Id(0) }),
    {
        LayerId { order: Order::Background, id: Id::background() }
    }

    pub fn allow_interaction(&self) -> (r: bool)
        ensures
            r == self.order.allows_interaction(),
    {
        self.order.allow_interaction()
    }

    /// The key under which this layer's paint buffer is kept.
    pub fn key(&self) -> (r: (Order, u64))
        ensures
            r == layer_key(*self),
    {
        (self.order, self.id.0)
    }
}

/// How an outline is drawn.
#[derive(Clone, Copy, Debug, PartialEq, Eq, Structural)]
pub struct Stroke {
    pub width: i32,
    /// Packed as 0xRRGGBBAA.
    pub color: u32,
}

/// A drawing instruction; what it draws is up to the painter.
#[derive(Clone, Copy, Debug, PartialEq, Eq, Structural)]
pub enum PaintCmd {
    Noop,
    Rect { rect: Rect, corner_radius: i32, fill: u32, stroke: Stroke },
    LineSegment { a: Pos2, b: Pos2, stroke: Stroke },
}

impl PaintCmd {
    pub open spec fn translate_spec(self, d: Vec2) -> PaintCmd {
        match self {
            PaintCmd::Noop => PaintCmd::Noop,
            PaintCmd::Rect { rect, corner_radius, fill, stroke } => PaintCmd::Rect {
                rect: rect.translate_spec(d),
                corner_radius,
                fill,
                stroke,
            },
            PaintCmd::LineSegment { a, b, stroke } => PaintCmd::LineSegment {
                a: a.offset_spec(d),
                b: b.offset_spec(d),
                stroke,
            },
        }
    }

    /// The same instruction, moved by `d`.
    pub fn translate(self, d: Vec2) -> (r: PaintCmd)
        ensures
            r == self.translate_spec(d),
    {
        match self {
            PaintCmd::Noop => PaintCmd::Noop,
            PaintCmd::Rect { rect, corner_radius, fill, stroke } => PaintCmd::Rect {
                rect: rect.translate(d),
                corner_radius,
                fill,
                stroke,
            },
            PaintCmd::LineSegment { a, b, stroke } => PaintCmd::LineSegment {
                a: a.offset(d),
                b: b.offset(d),
                stroke,
            },
        }
    }
}

/// Names one command in a `PaintList`, so that it can be replaced later.
#[derive(Clone, Copy, Debug, PartialEq, Eq, Structural)]
pub struct PaintCmdIdx(usize);

impl PaintCmdIdx {
    pub closed spec fn index(self) -> usize {
        self.0
    }

    pub fn get(&self) -> (r: usize)
        ensures
            r == self.index(),
    {
        self.0
    }
}

/// Paint commands, each with its clip rectangle, in the order they were added.
#[derive(Clone, Debug)]
pub struct PaintList(Vec<(Rect, PaintCmd)>);

impl View for PaintList {
    type V = Seq<(Rect, PaintCmd)>;

    closed spec fn view(&self) -> Seq<(Rect, PaintCmd)> {
        self.0@
    }
}

impl PaintList {
    pub fn new() -> (r: PaintList)
        ensures
            r@ == Seq::<(Rect, PaintCmd)>::empty(),
    {
        PaintList(Vec::new())
    }

    pub fn is_empty(&self) -> (r: bool)
        ensures
            r == (self@.len() == 0),
    {
        self.0.len() == 0
    }

    pub fn len(&self) -> (r: usize)
        ensures
            r == self@.len(),
    {
        self.0.len()
    }

    /// The command at `i` with its clip rectangle.
    pub fn get(&self, i: usize) -> (r: (Rect, PaintCmd))
        requires
            i < self@.len(),
        ensures
            r == self@[i as int],
    {
        self.0[i]
    }

    /// Appends a command; the result names it for `set`.
    pub fn add(&mut self, clip_rect: Rect, cmd: PaintCmd) -> (r: PaintCmdIdx)
        ensures
            final(self)@ == old(self)@.push((clip_rect, cmd)),
            r.index() == old(self)@.len(),
    {
        let idx = PaintCmdIdx(self.0.len());
        self.0.push((clip_rect, cmd));
        idx
    }

    /// Appends every command of `cmds`, in order, all with `clip_rect`.
    pub fn extend(&mut self, clip_rect: Rect, cmds: Vec<PaintCmd>)
        ensures
            final(self)@ == old(self)@ + cmds@.map_values(|c: PaintCmd| (clip_rect, c)),
    {
        let ghost start = self@;
        let mut i: usize = 0;
        while i < cmds.len()
            invariant
                i <= cmds@.len(),
                self@ == start + cmds@.subrange(0, i as int).map_values(|c: PaintCmd| (clip_rect, c)),
            decreases cmds@.len() - i,
        {
            self.0.push((clip_rect, cmds[i]));
            i = i + 1;
            assert(cmds@.subrange(0, i as int) =~= cmds@.subrange(0, i - 1).push(cmds@[i - 1]));
            assert(self@ =~= start + cmds@.subrange(0, i as int).map_values(|c: PaintCmd| (clip_rect, c)));
        }
        assert(cmds@.subrange(0, i as int) =~= cmds@);
    }

    /// Replaces the command that `idx` names, for example a placeholder added
    /// before the size of the content it surrounds was known.
    pub fn set(&mut self, idx: PaintCmdIdx, clip_rect: Rect, cmd: PaintCmd)
        requires
            idx.index() < old(self)@.len(),
        ensures
            final(self)@ == old(self)@.update(idx.index() as int, (clip_rect, cmd)),
    {
        self.0.set(idx.0, (clip_rect, cmd));
    }

    /// Moves all commands, in order, to the end of `out`, leaving this list empty.
    pub fn drain_into(&mut self, out: &mut Vec<(Rect, PaintCmd)>)
        ensures
            final(out)@ == old(out)@ + old(self)@,
            final(self)@ == Seq::<(Rect, PaintCmd)>::empty(),
    {
        out.append(&mut self.0);
    }

    /// Moves every command and clip rectangle by `delta`, in place.
    pub fn translate(&mut self, delta: Vec2)
        ensures
            final(self)@.len() == old(self)@.len(),
            forall|i: int|
                0 <= i < old(self)@.len() ==> #[trigger] final(self)@[i] == (
                    old(self)@[i].0.translate_spec(delta),
                    old(self)@[i].1.translate_spec(delta),
                ),
    {
        let ghost start = self@;
        let mut i: usize = 0;
        while i < self.0.len()
            invariant
                i <= self@.len(),
                self@.len() == start.len(),
                forall|j: int|
                    0 <= j < i ==> #[trigger] self@[j] == (
                        start[j].0.translate_spec(delta),
                        start[j].1.translate_spec(delta),
                    ),
                forall|j: int| i <= j < self@.len() ==> #[trigger] self@[j] == start[j],
            decreases self@.len() - i,
        {
            let (clip_rect, cmd) = self.0[i];
            self.0.set(i, (clip_rect.translate(delta), cmd.translate(delta)));
            i = i + 1;
        }
    }
}

} // verus!
