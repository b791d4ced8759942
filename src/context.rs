//! The context shared by all widgets of a frame: memory, paint buffers and
//! this frame's input, and the arbiter that decides which widget the mouse
//! belongs to.
use vstd::prelude::*;
use crate::graphics::{
    are_rests, draw_order, emptied, flatten, nonempty_part, GraphicLayers, LayerKey,
};
use crate::id::Id;
use crate::layers::{LayerId, Order, PaintCmd, ORDER_COUNT};
use crate::memory::Memory;
use crate::math::{Pos2, Rect, Vec2};

verus! {

/// The mouse as the host saw it this frame.
#[derive(Clone, Copy, Debug, PartialEq, Eq, Structural)]
pub struct MouseInput {
    /// Where the pointer is, if it is over the window.
    pub pos: Option<Pos2>,
    /// The button is held.
    pub down: bool,
    /// The button went down this frame.
    pub pressed: bool,
    /// The button went up this frame.
    pub released: bool,
    /// How far the pointer moved since last frame.
    pub delta: Vec2,
    /// How fast the pointer moves, in pixels per second.
    pub velocity: Vec2,
}

/// This frame's input.
#[derive(Clone, Copy, Debug, PartialEq, Eq, Structural)]
pub struct InputState {
    pub mouse: MouseInput,
    /// Extent of the screen.
    pub screen_size: Vec2,
    /// Time since last frame, in milliseconds.
    pub dt_ms: u32,
}

impl InputState {
    /// No pointer, no button, nothing moving, a zero-sized screen.
    pub fn idle() -> (r: InputState)
        ensures
            r.mouse.pos is None,
            !r.mouse.down && !r.mouse.pressed && !r.mouse.released,
            r.mouse.delta == (Vec2 { x: 0, y: 0 }),
            r.mouse.velocity == (Vec2 { x: 0, y: 0 }),
            r.screen_size == (Vec2 { x: 0, y: 0 }),
            r.dt_ms == 0,
    {
        InputState {
            mouse: MouseInput {
                pos: None,
                down: false,
                pressed: false,
                released: false,
                delta: Vec2 { x: 0, y: 0 },
                velocity: Vec2 { x: 0, y: 0 },
            },
            screen_size: Vec2 { x: 0, y: 0 },
            dt_ms: 0,
        }
    }
}

/// What a widget wants from the mouse.
#[derive(Clone, Copy, Debug, PartialEq, Eq, Structural)]
pub struct Sense {
    pub click: bool,
    pub drag: bool,
}

impl Sense {
    pub fn nothing() -> (r: Sense)
        ensures
            r == (Sense { click: false, drag: false }),
    {
        Sense { click: false, drag: false }
    }

    pub fn click() -> (r: Sense)
        ensures
            r == (Sense { click: true, drag: false }),
    {
        Sense { click: true, drag: false }
    }

    pub fn drag() -> (r: Sense)
        ensures
            r == (Sense { click: false, drag: true }),
    {
        Sense { click: false, drag: true }
    }

    pub fn click_and_drag() -> (r: Sense)
        ensures
            r == (Sense { click: true, drag: true }),
    {
        Sense { click: true, drag: true }
    }
}

/// What came of a widget's interaction this frame.
#[derive(Clone, Copy, Debug, PartialEq, Eq, Structural)]
pub struct Response {
    /// The rectangle the widget covers.
    pub rect: Rect,
    /// The pointer is over the widget, and nothing covers it there.
    pub hovered: bool,
    /// A click on the widget ended this frame.
    pub clicked: bool,
    /// The widget holds the mouse: it took a press and the button is still down.
    pub active: bool,
}

/// Where a widget goes: the layer it paints in, the `Id` its children's
/// names are mixed into, the top-left corner of the space left for it, and
/// the rectangle that its painting is clipped to.
#[derive(Clone, Copy, Debug, PartialEq, Eq, Structural)]
pub struct Ui {
    pub layer: LayerId,
    pub id: Id,
    pub cursor: Pos2,
    pub clip_rect: Rect,
}

/// The outcome of an interaction, and who holds the mouse afterwards.
///
/// A widget that senses nothing, or has no `Id`, only learns whether it is
/// hovered. At a press, the first hovered widget to ask takes the mouse,
/// unless another holds it. While the button is down the widget that holds
/// the mouse stays active wherever the pointer goes, and no other widget
/// counts as hovered. At the release the button is no longer held, so no
/// widget is active; the one that held the mouse is clicked if hovered.
pub open spec fn interaction(
    holder: Option<Id>,
    mouse: MouseInput,
    hovered: bool,
    id: Option<Id>,
    sense: Sense,
    rect: Rect,
) -> (Response, Option<Id>) {
    let idle = Response { rect, hovered, clicked: false, active: false };
    match id {
        None => (idle, holder),
        Some(id) => {
            if !(sense.click || sense.drag) {
                (idle, holder)
            } else if mouse.pressed {
                if hovered && holder is None {
                    (Response { rect, hovered, clicked: false, active: true }, Some(id))
                } else {
                    (idle, holder)
                }
            } else {
                let is_active = holder == Some(id);
                if mouse.released {
                    (Response { rect, hovered, clicked: hovered && is_active, active: false }, holder)
                } else if mouse.down {
                    (Response { rect, hovered: hovered && is_active, clicked: false, active: is_active }, holder)
                } else {
                    (Response { rect, hovered, clicked: false, active: is_active }, holder)
                }
            }
        },
    }
}

/// The layer that owns the pointer at `p`: the topmost area that catches
/// it, else the background.
pub open spec fn layer_under(m: Memory, p: Pos2) -> LayerId {
    match m.layer_at_spec(p) {
        Some(l) => l,
        None => LayerId { order: Order::Background, id: Id(0) },
    }
}

/// Whether the pointer is over `rect` (clipped to `clip_rect`) and the layer
/// that owns it there is `layer`.
pub open spec fn pointer_over(m: Memory, mouse: MouseInput, layer: LayerId, clip_rect: Rect, rect: Rect) -> bool {
    match mouse.pos {
        Some(p) => rect.intersect_spec(clip_rect).contains_spec(p) && layer_under(m, p) == layer,
        None => false,
    }
}

/// Memory, paint buffers and input, shared by the widgets of a frame.
pub struct Context {
    pub memory: Memory,
    pub graphics: GraphicLayers,
    pub input: InputState,
    /// Something changed in a way that the picture shows only next frame.
    pub repaint_requested: bool,
    /// The pointer should show that it can resize.
    pub resize_cursor: bool,
}

impl Context {
    pub open spec fn wf(&self) -> bool {
        self.memory.wf()
    }

    pub fn new() -> (r: Context)
        ensures
            r.wf(),
            r.memory.areas() == Map::<u64, crate::memory::AreaState>::empty(),
            r.memory.resizes() == Map::<u64, crate::memory::ResizeState>::empty(),
            r.memory.order_seq() == Seq::<LayerId>::empty(),
            r.memory.shown_last_frame() == Seq::<LayerId>::empty(),
            r.memory.shown_this_frame() == Seq::<LayerId>::empty(),
            r.memory.active() is None,
            r.graphics@ == crate::graphics::Buffers::empty(),
            !r.repaint_requested,
            !r.resize_cursor,
    {
        Context {
            memory: Memory::new(),
            graphics: GraphicLayers::new(),
            input: InputState::idle(),
            repaint_requested: false,
            resize_cursor: false,
        }
    }

    /// Starts a frame with `input`. A widget keeps the mouse through the
    /// frame in which the button is released, and loses it at the next.
    pub fn begin_frame(&mut self, input: InputState)
        requires
            old(self).wf(),
        ensures
            final(self).wf(),
            final(self).input == input,
            final(self).memory.active() == (if old(self).input.mouse.down {
                old(self).memory.active()
            } else {
                None
            }),
            final(self).memory.areas() == old(self).memory.areas(),
            final(self).memory.resizes() == old(self).memory.resizes(),
            final(self).memory.order_seq() == old(self).memory.order_seq(),
            final(self).memory.shown_last_frame() == old(self).memory.shown_last_frame(),
            final(self).memory.shown_this_frame() == old(self).memory.shown_this_frame(),
            final(self).graphics@ == old(self).graphics@,
            !final(self).repaint_requested,
            !final(self).resize_cursor,
    {
        if !self.input.mouse.down {
            self.memory.set_active_id(None);
        }
        self.input = input;
        self.repaint_requested = false;
        self.resize_cursor = false;
    }

    /// Ends the frame: everything painted, in painting order (see
    /// `GraphicLayers::drain`, with the stacking order of the areas).
    pub fn end_frame(&mut self) -> (r: Vec<(Rect, PaintCmd)>)
        requires
            old(self).wf(),
        ensures
            final(self).wf(),
            final(self).graphics@ == emptied(nonempty_part(old(self).graphics@)),
            exists|rests: Seq<Seq<LayerKey>>|
                are_rests(nonempty_part(old(self).graphics@), old(self).memory.order_seq(), rests) && r@
                    == flatten(
                    nonempty_part(old(self).graphics@),
                    draw_order(
                        nonempty_part(old(self).graphics@),
                        old(self).memory.order_seq(),
                        rests,
                        ORDER_COUNT as nat,
                    ),
                ),
            final(self).memory.shown_last_frame() == old(self).memory.shown_this_frame(),
            final(self).memory.shown_this_frame() == Seq::<LayerId>::empty(),
            final(self).memory.areas() == old(self).memory.areas(),
            final(self).memory.resizes() == old(self).memory.resizes(),
            final(self).memory.order_seq() == old(self).memory.order_seq(),
            final(self).memory.active() == old(self).memory.active(),
            final(self).input == old(self).input,
    {
        let out = self.graphics.drain(self.memory.order().as_slice());
        self.memory.end_frame();
        out
    }

    /// Asks for another frame.
    pub fn request_repaint(&mut self)
        ensures
            final(self).repaint_requested,
            final(self).memory == old(self).memory,
            final(self).graphics == old(self).graphics,
            final(self).input == old(self).input,
            final(self).resize_cursor == old(self).resize_cursor,
    {
        self.repaint_requested = true;
    }

    /// The layer that owns the pointer at `p`.
    pub fn layer_under(&self, p: Pos2) -> (r: LayerId)
        ensures
            r == layer_under(self.memory, p),
    {
        match self.memory.layer_at(p) {
            Some(l) => l,
            None => LayerId::background(),
        }
    }

    /// Whether the pointer is over `rect` within `clip_rect`, with nothing
    /// above `layer` there.
    pub fn contains_mouse(&self, layer: LayerId, clip_rect: Rect, rect: Rect) -> (r: bool)
        ensures
            r == pointer_over(self.memory, self.input.mouse, layer, clip_rect, rect),
    {
        match self.input.mouse.pos {
            Some(p) => rect.intersect(clip_rect).contains(p) && self.layer_under(p) == layer,
            None => false,
        }
    }

    /// Decides what the mouse does to the widget `id` covering `rect` in
    /// `layer` (see `interaction`), and records who holds the mouse.
    pub fn interact(&mut self, layer: LayerId, clip_rect: Rect, rect: Rect, id: Option<Id>, sense: Sense) -> (r: Response)
        requires
            old(self).wf(),
        ensures
            final(self).wf(),
            (r, final(self).memory.active()) == interaction(
                old(self).memory.active(),
                old(self).input.mouse,
                pointer_over(old(self).memory, old(self).input.mouse, layer, clip_rect, rect),
                id,
                sense,
                rect,
            ),
            final(self).memory.areas() == old(self).memory.areas(),
            final(self).memory.resizes() == old(self).memory.resizes(),
            final(self).memory.order_seq() == old(self).memory.order_seq(),
            final(self).memory.shown_last_frame() == old(self).memory.shown_last_frame(),
            final(self).memory.shown_this_frame() == old(self).memory.shown_this_frame(),
            final(self).graphics@ == old(self).graphics@,
            final(self).input == old(self).input,
            final(self).repaint_requested == old(self).repaint_requested,
            final(self).resize_cursor == old(self).resize_cursor,
    {
        let hovered = self.contains_mouse(layer, clip_rect, rect);
        let idle = Response { rect, hovered, clicked: false, active: false };
        let mouse = self.input.mouse;
        match id {
            None => idle,
            Some(id) => {
                if !(sense.click || sense.drag) {
                    idle
                } else if mouse.pressed {
                    if hovered && self.memory.active_id().is_none() {
                        self.memory.set_active_id(Some(id));
                        Response { rect, hovered, clicked: false, active: true }
                    } else {
                        idle
                    }
                } else {
                    let is_active = match self.memory.active_id() {
                        Some(a) => a == id,
                        None => false,
                    };
                    if mouse.released {
                        Response { rect, hovered, clicked: hovered && is_active, active: false }
                    } else if mouse.down {
                        Response { rect, hovered: hovered && is_active, clicked: false, active: is_active }
                    } else {
                        Response { rect, hovered, clicked: false, active: is_active }
                    }
                }
            },
        }
    }
}

} // verus!
