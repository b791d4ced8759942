//! Resizable regions: the user drags the bottom-right corner to ask for a
//! size, and the region reconciles that wish with the size its content
//! needs, without clipping content that is still laid out larger.
use vstd::prelude::*;
use crate::context::{interaction, pointer_over, Context, Response, Sense, Ui};
use crate::graphics::{list_or_empty, Buffers};
use crate::id::Id;
use crate::layers::{layer_key, PaintCmd, Stroke};
use crate::memory::{lookup, ResizeState};
use crate::math::{clamp_i64, max_int, min_int, sat, Pos2, Rect, Vec2};
use crate::area::nonneg;

verus! {

/// Side of the square handle at the bottom-right corner.
pub const RESIZE_CORNER_SIZE: i32 = 12;

/// How far past the content its clip rectangle reaches.
pub const CLIP_RECT_MARGIN: i32 = 3;

/// The outline of a region that shows one.
pub open spec fn frame_stroke() -> Stroke {
    Stroke { width: 1, color: 0x3c3c3cff }
}

/// A region that can be resized by dragging its bottom-right corner.
#[derive(Clone, Copy, Debug, PartialEq, Eq, Structural)]
pub struct Resize {
    /// The region's `Id`; by default it is derived from the parent's.
    pub id: Option<Id>,
    /// Whether the corner can be dragged.
    pub resizable: bool,
    /// The region never gets smaller than this.
    pub min_size: Vec2,
    /// The size asked for before the user has dragged anything.
    pub default_size: Vec2,
    /// Whether an outline shows the region's size.
    pub with_stroke: bool,
}

impl Default for Resize {
    fn default() -> (r: Resize)
        ensures
            r == (Resize {
                id: None,
                resizable: true,
                min_size: Vec2 { x: 16, y: 16 },
                default_size: Vec2 { x: 320, y: 128 },
                with_stroke: true,
            }),
    {
        Resize {
            id: None,
            resizable: true,
            min_size: Vec2 { x: 16, y: 16 },
            default_size: Vec2 { x: 320, y: 128 },
            with_stroke: true,
        }
    }
}

/// A region between `Resize::begin` and `Resize::end`.
#[derive(Clone, Copy, Debug, PartialEq, Eq, Structural)]
pub struct ResizePrepared {
    pub id: Id,
    pub state: ResizeState,
    /// The corner handle's response, if the region is resizable.
    pub corner: Option<Response>,
    /// Where the content goes: at the parent's cursor, of the desired size.
    pub content_rect: Rect,
    /// What the content is clipped to.
    pub content_clip_rect: Rect,
}

/// The rectangle of the corner handle of a region at `origin` of extent `size`.
pub open spec fn corner_rect(origin: Pos2, size: Vec2) -> Rect {
    Rect::from_min_size_spec(
        origin.offset_spec(size).offset_spec(Vec2 { x: (-RESIZE_CORNER_SIZE) as i32, y: (-RESIZE_CORNER_SIZE) as i32 }),
        Vec2 { x: RESIZE_CORNER_SIZE, y: RESIZE_CORNER_SIZE },
    )
}

/// The size asked for by a corner dragged to `pointer`: the pointer's
/// offset from the origin, plus half the handle so the pointer sits in the
/// middle of it.
pub open spec fn dragged_size(origin: Pos2, pointer: Pos2) -> Vec2 {
    Vec2 {
        x: sat(pointer.x - origin.x + RESIZE_CORNER_SIZE / 2),
        y: sat(pointer.y - origin.y + RESIZE_CORNER_SIZE / 2),
    }
}

/// The clip rectangle of content at `origin`: the desired rectangle grown
/// by the margin, stretched to cover last frame's content plus the margin,
/// and cut to the parent's clip rectangle.
pub open spec fn content_clip(origin: Pos2, desired: Vec2, last: Vec2, parent: Rect) -> Rect {
    let grown = Rect::from_min_size_spec(origin, desired).expand_spec(CLIP_RECT_MARGIN);
    let stretched = Rect {
        min: grown.min,
        max: Pos2 {
            x: max_int(grown.max.x as int, sat(origin.x + last.x + CLIP_RECT_MARGIN) as int) as i32,
            y: max_int(grown.max.y as int, sat(origin.y + last.y + CLIP_RECT_MARGIN) as int) as i32,
        },
    };
    stretched.intersect_spec(parent)
}

/// However the desired size shrinks, the content's clip rectangle still
/// covers last frame's content plus the margin, as far as the parent's
/// clip rectangle allows.
pub proof fn lemma_clip_covers_last_content(origin: Pos2, desired: Vec2, last: Vec2, parent: Rect)
    ensures
        content_clip(origin, desired, last, parent).max.x >= min_int(
            sat(origin.x + last.x + CLIP_RECT_MARGIN) as int,
            parent.max.x as int,
        ),
        content_clip(origin, desired, last, parent).max.y >= min_int(
            sat(origin.y + last.y + CLIP_RECT_MARGIN) as int,
            parent.max.y as int,
        ),
{
}

/// The commands of the corner handle of `rect`: diagonal strokes 2, 6, 10,
/// ... pixels from the bottom-right corner, as many as fit in the rectangle.
pub open spec fn corner_lines(rect: Rect, stroke: Stroke) -> Seq<PaintCmd> {
    let limit = min_int(rect.max.x - rect.min.x, rect.max.y - rect.min.y);
    let count: nat = if limit < 2 {
        0
    } else {
        ((limit - 2) / 4 + 1) as nat
    };
    Seq::new(count, |k: int| corner_line(rect.max, 2 + 4 * k, stroke))
}

pub open spec fn corner_line(corner: Pos2, w: int, stroke: Stroke) -> PaintCmd {
    PaintCmd::LineSegment {
        a: Pos2 { x: (corner.x - w) as i32, y: corner.y },
        b: Pos2 { x: corner.x, y: (corner.y - w) as i32 },
        stroke,
    }
}

/// The stroke of the corner handle, by what the pointer does to it.
pub open spec fn corner_stroke(r: Response) -> Stroke {
    if r.active {
        Stroke { width: 2, color: 0xffffffff }
    } else if r.hovered {
        Stroke { width: 1, color: 0xb4b4b4ff }
    } else {
        Stroke { width: 1, color: 0x8c8c8cff }
    }
}

/// `m` with `cmds` appended, with `clip`, to the buffer of `key`.
pub open spec fn appended(m: Buffers, key: (crate::layers::Order, u64), clip: Rect, cmds: Seq<PaintCmd>) -> Buffers {
    m.insert(key, list_or_empty(m, key) + cmds.map_values(|c: PaintCmd| (clip, c)))
}

/// Paints the corner handle of `response`'s rectangle in `ui`'s layer.
pub fn paint_resize_corner(ctx: &mut Context, ui: &Ui, response: &Response)
    ensures
        final(ctx).graphics@ == appended(
            old(ctx).graphics@,
            layer_key(ui.layer),
            ui.clip_rect,
            corner_lines(response.rect, corner_stroke(*response)),
        ),
        final(ctx).memory == old(ctx).memory,
        final(ctx).input == old(ctx).input,
        final(ctx).repaint_requested == old(ctx).repaint_requested,
        final(ctx).resize_cursor == old(ctx).resize_cursor,
{
    let stroke = if response.active {
        Stroke { width: 2, color: 0xffffffff }
    } else if response.hovered {
        Stroke { width: 1, color: 0xb4b4b4ff }
    } else {
        Stroke { width: 1, color: 0x8c8c8cff }
    };
    paint_resize_corner_with_style(ctx, ui, &response.rect, stroke);
}

/// Paints the corner handle of `rect` with `stroke` in `ui`'s layer.
pub fn paint_resize_corner_with_style(ctx: &mut Context, ui: &Ui, rect: &Rect, stroke: Stroke)
    ensures
        final(ctx).graphics@ == appended(old(ctx).graphics@, layer_key(ui.layer), ui.clip_rect, corner_lines(*rect, stroke)),
        final(ctx).memory == old(ctx).memory,
        final(ctx).input == old(ctx).input,
        final(ctx).repaint_requested == old(ctx).repaint_requested,
        final(ctx).resize_cursor == old(ctx).resize_cursor,
{
    let corner = rect.max;
    let width = rect.width();
    let height = rect.height();
    let ghost limit = min_int(width as int, height as int);
    let ghost count: nat = if limit < 2 { 0 } else { ((limit - 2) / 4 + 1) as nat };
    let ghost lines = corner_lines(*rect, stroke);
    let mut list = ctx.graphics.take(ui.layer);
    let ghost start = list@;
    let mut w: i64 = 2;
    let ghost mut k: int = 0;
    proof {
        if limit >= 2 {
            assert(0 < count);
        }
    }
    while w <= width && w <= height
        invariant
            w == 2 + 4 * k,
            0 <= k,
            k <= count,
            k < count <==> (w <= width && w <= height),
            lines.len() == count,
            lines == corner_lines(*rect, stroke),
            limit == min_int(width as int, height as int),
            count == (if limit < 2 { 0 } else { ((limit - 2) / 4 + 1) as nat }),
            width == rect.max.x - rect.min.x,
            height == rect.max.y - rect.min.y,
            corner == rect.max,
            list@ == start + lines.subrange(0, k).map_values(|c: PaintCmd| (ui.clip_rect, c)),
        decreases count - k,
    {
        let cmd = PaintCmd::LineSegment {
            a: Pos2 { x: (corner.x as i64 - w) as i32, y: corner.y },
            b: Pos2 { x: corner.x, y: (corner.y as i64 - w) as i32 },
            stroke,
        };
        assert(k < count);
        assert(lines[k] == corner_line(rect.max, 2 + 4 * k, stroke));
        assert(cmd == lines[k]);
        list.add(ui.clip_rect, cmd);
        proof {
            assert(lines.subrange(0, k + 1) =~= lines.subrange(0, k).push(lines[k]));
            assert(list@ =~= start + lines.subrange(0, k + 1).map_values(|c: PaintCmd| (ui.clip_rect, c)));
            k = k + 1;
            if limit >= 2 {
                assert(k < count <==> 2 + 4 * k <= limit) by (nonlinear_arith)
                    requires
                        count == (limit - 2) / 4 + 1,
                        limit >= 2,
                        k >= 0,
                ;
            }
        }
        w = w + 4;
    }
    proof {
        assert(lines.subrange(0, k) =~= lines);
    }
    ctx.graphics.put(ui.layer, list);
    proof {
        assert(ctx.graphics@ =~= appended(old(ctx).graphics@, layer_key(ui.layer), ui.clip_rect, lines));
    }
}

/// `appended` twice to one buffer is `appended` once with both.
pub proof fn lemma_appended_twice(m: Buffers, key: (crate::layers::Order, u64), clip: Rect, a: Seq<PaintCmd>, b: Seq<PaintCmd>)
    ensures
        appended(appended(m, key, clip, a), key, clip, b) == appended(m, key, clip, a + b),
{
    let f = |c: PaintCmd| (clip, c);
    let l = list_or_empty(m, key);
    assert((a + b).map_values(f) =~= a.map_values(f) + b.map_values(f));
    assert((l + a.map_values(f)) + b.map_values(f) =~= l + (a + b).map_values(f));
    assert(list_or_empty(appended(m, key, clip, a), key) == l + a.map_values(f));
    assert(appended(appended(m, key, clip, a), key, clip, b) =~= appended(m, key, clip, a + b));
}

impl Resize {
    /// Gives the region this `Id` instead of one derived from its parent's.
    pub fn id(self, id: Id) -> (r: Resize)
        ensures
            r == (Resize { id: Some(id), ..self }),
    {
        Resize { id: Some(id), ..self }
    }

    /// Preferred width; the content decides the actual width.
    pub fn default_width(self, width: i32) -> (r: Resize)
        ensures
            r == (Resize { default_size: Vec2 { x: width, y: self.default_size.y }, ..self }),
    {
        Resize { default_size: Vec2 { x: width, y: self.default_size.y }, ..self }
    }

    /// Preferred height; the content decides the actual height.
    pub fn default_height(self, height: i32) -> (r: Resize)
        ensures
            r == (Resize { default_size: Vec2 { x: self.default_size.x, y: height }, ..self }),
    {
        Resize { default_size: Vec2 { x: self.default_size.x, y: height }, ..self }
    }

    pub fn default_size(self, default_size: Vec2) -> (r: Resize)
        ensures
            r == (Resize { default_size, ..self }),
    {
        Resize { default_size, ..self }
    }

    /// The region never gets smaller than this.
    pub fn min_size(self, min_size: Vec2) -> (r: Resize)
        ensures
            r == (Resize { min_size, ..self }),
    {
        Resize { min_size, ..self }
    }

    /// Whether the corner can be dragged; a region that cannot may still
    /// follow its content.
    pub fn resizable(self, resizable: bool) -> (r: Resize)
        ensures
            r == (Resize { resizable, ..self }),
    {
        Resize { resizable, ..self }
    }

    pub fn is_resizable(&self) -> (r: bool)
        ensures
            r == self.resizable,
    {
        self.resizable
    }

    /// Not resizable by hand: the region takes the size of its content.
    pub fn auto_sized(self) -> (r: Resize)
        ensures
            r == (Resize {
                min_size: Vec2 { x: 0, y: 0 },
                default_size: Vec2 { x: i32::MAX, y: i32::MAX },
                resizable: false,
                ..self
            }),
    {
        self.min_size(Vec2::zero()).default_size(Vec2::splat(i32::MAX)).resizable(false)
    }

    /// Exactly `size`, and not resizable.
    pub fn fixed_size(self, size: Vec2) -> (r: Resize)
        ensures
            r == (Resize { default_size: size, min_size: size, resizable: false, ..self }),
    {
        Resize { default_size: size, min_size: size, resizable: false, ..self }
    }

    pub fn with_stroke(self, with_stroke: bool) -> (r: Resize)
        ensures
            r == (Resize { with_stroke, ..self }),
    {
        Resize { with_stroke, ..self }
    }

    /// The region's `Id` inside `ui`.
    pub open spec fn id_in(self, ui: Ui) -> Id {
        match self.id {
            Some(id) => id,
            None => ui.id.with_spec("resize"@),
        }
    }

    /// The state of a region seen for the first time.
    pub open spec fn first_state(self) -> ResizeState {
        ResizeState {
            desired_size: self.default_size.max_spec(self.min_size),
            last_content_size: Vec2 { x: 0, y: 0 },
            requested_size: None,
        }
    }

    /// The state the region starts a frame with, its desired size at least the minimum.
    pub open spec fn loaded(self, resizes: Map<u64, ResizeState>, id: Id) -> ResizeState {
        let st = match lookup(resizes, id) {
            Some(s) => s,
            None => self.first_state(),
        };
        ResizeState { desired_size: st.desired_size.max_spec(self.min_size), ..st }
    }

    /// What `begin` does to the context `before`, which becomes `after`,
    /// returning `r`:
    /// - a resizable region offers its corner handle to be dragged; while
    ///   it is, the desired size follows the pointer (see `dragged_size`);
    /// - a pending requested size overrides the desired size, once;
    /// - the desired size is at least the minimum;
    /// - the content goes at the parent's cursor, clipped as
    ///   `content_clip` says;
    /// - a region seen for the first time asks for another frame.
    pub open spec fn begins(self, ui: Ui, before: Context, after: Context, r: ResizePrepared) -> bool {
        let id = self.id_in(ui);
        let st = self.loaded(before.memory.resizes(), id);
        let rect = corner_rect(ui.cursor, st.desired_size);
        let outcome = interaction(
            before.memory.active(),
            before.input.mouse,
            pointer_over(before.memory, before.input.mouse, ui.layer, ui.clip_rect, rect),
            Some(id.with_spec("corner"@)),
            Sense { click: false, drag: true },
            rect,
        );
        let dragged = self.resizable && outcome.0.active && before.input.mouse.pos is Some;
        let d2 = if dragged {
            dragged_size(ui.cursor, before.input.mouse.pos.unwrap())
        } else {
            st.desired_size
        };
        let d3 = match st.requested_size {
            Some(q) => q,
            None => d2,
        };
        let desired = d3.max_spec(self.min_size);
        &&& r.id == id
        &&& r.corner == (if self.resizable {
            Some(outcome.0)
        } else {
            None
        })
        &&& after.memory.active() == (if self.resizable {
            outcome.1
        } else {
            before.memory.active()
        })
        &&& r.state == (ResizeState {
            desired_size: desired,
            last_content_size: st.last_content_size,
            requested_size: None,
        })
        &&& r.content_rect == Rect::from_min_size_spec(ui.cursor, desired)
        &&& r.content_clip_rect == content_clip(ui.cursor, desired, st.last_content_size, ui.clip_rect)
        &&& after.repaint_requested == (before.repaint_requested || !before.memory.resizes().contains_key(id.0))
        &&& after.memory.areas() == before.memory.areas()
        &&& after.memory.resizes() == before.memory.resizes()
        &&& after.memory.order_seq() == before.memory.order_seq()
        &&& after.memory.shown_last_frame() == before.memory.shown_last_frame()
        &&& after.memory.shown_this_frame() == before.memory.shown_this_frame()
        &&& after.graphics@ == before.graphics@
        &&& after.input == before.input
        &&& after.resize_cursor == before.resize_cursor
    }

    /// Starts the region's frame (see `begins`).
    pub fn begin(&self, ctx: &mut Context, ui: &Ui) -> (r: ResizePrepared)
        requires
            old(ctx).wf(),
        ensures
            final(ctx).wf(),
            self.begins(*ui, *old(ctx), *final(ctx), r),
    {
        let id = match self.id {
            Some(id) => id,
            None => ui.id.with("resize"),
        };
        let mut state = match ctx.memory.resize_state(id) {
            Some(s) => s,
            None => {
                ctx.request_repaint();
                ResizeState {
                    desired_size: self.default_size.max(self.min_size),
                    last_content_size: Vec2::zero(),
                    requested_size: None,
                }
            },
        };
        state.desired_size = state.desired_size.max(self.min_size);
        let position = ui.cursor;
        let corner = if self.resizable {
            let corner_size = Vec2::splat(RESIZE_CORNER_SIZE);
            let corner_rect = Rect::from_min_size(
                position.offset(state.desired_size).offset(Vec2 { x: -RESIZE_CORNER_SIZE, y: -RESIZE_CORNER_SIZE }),
                corner_size,
            );
            let response = ctx.interact(ui.layer, ui.clip_rect, corner_rect, Some(id.with("corner")), Sense::drag());
            if response.active {
                match ctx.input.mouse.pos {
                    Some(p) => {
                        state.desired_size = Vec2 {
                            x: clamp_i64(p.x as i64 - position.x as i64 + (RESIZE_CORNER_SIZE / 2) as i64),
                            y: clamp_i64(p.y as i64 - position.y as i64 + (RESIZE_CORNER_SIZE / 2) as i64),
                        };
                    },
                    None => {},
                }
            }
            Some(response)
        } else {
            None
        };
        match state.requested_size {
            Some(q) => {
                state.desired_size = q;
            },
            None => {},
        }
        state.requested_size = None;
        state.desired_size = state.desired_size.max(self.min_size);
        let inner_rect = Rect::from_min_size(position, state.desired_size);
        let grown = inner_rect.expand(CLIP_RECT_MARGIN);
        let last_x = clamp_i64(position.x as i64 + state.last_content_size.x as i64 + CLIP_RECT_MARGIN as i64);
        let last_y = clamp_i64(position.y as i64 + state.last_content_size.y as i64 + CLIP_RECT_MARGIN as i64);
        let stretched = Rect {
            min: grown.min,
            max: Pos2 {
                x: if grown.max.x >= last_x { grown.max.x } else { last_x },
                y: if grown.max.y >= last_y { grown.max.y } else { last_y },
            },
        };
        let content_clip_rect = stretched.intersect(ui.clip_rect);
        ResizePrepared { id, state, corner, content_rect: inner_rect, content_clip_rect }
    }

    /// The size the region takes: with an outline, or when resizable, the
    /// desired size grown to fit the content; otherwise the content's size.
    pub open spec fn final_size(self, desired: Vec2, last: Vec2) -> Vec2 {
        if self.with_stroke || self.resizable {
            desired.max_spec(last)
        } else {
            desired
        }
    }

    /// What `end` does to the context `before`, which becomes `after`,
    /// returning the extent the region takes in its parent, `r`:
    /// - the content's extent becomes the last content size;
    /// - with an outline, or when resizable, the desired size grows to fit
    ///   the content and the region takes that; otherwise it takes exactly
    ///   the content's extent;
    /// - an outline is painted when there is also a corner handle, then
    ///   the handle itself; the pointer shows resizing while over or
    ///   dragging the handle;
    /// - the state is remembered.
    pub open spec fn ends(self, ui: Ui, p: ResizePrepared, content_size: Vec2, before: Context, after: Context, r: Vec2) -> bool {
        let last = nonneg(content_size);
        let desired = self.final_size(p.state.desired_size, last);
        let frame = if self.with_stroke && p.corner is Some {
            seq![PaintCmd::Rect {
                rect: Rect::from_min_size_spec(p.content_rect.min, desired).expand_spec(2),
                corner_radius: 3,
                fill: 0,
                stroke: frame_stroke(),
            }]
        } else {
            Seq::empty()
        };
        let handle = match p.corner {
            Some(c) => corner_lines(c.rect, corner_stroke(c)),
            None => Seq::empty(),
        };
        &&& r == (if self.with_stroke || self.resizable {
            desired
        } else {
            last
        })
        &&& after.memory.resizes() == before.memory.resizes().insert(
            p.id.0,
            ResizeState { desired_size: desired, last_content_size: last, requested_size: p.state.requested_size },
        )
        &&& after.graphics@ == (if p.corner is Some {
            appended(before.graphics@, layer_key(ui.layer), ui.clip_rect, frame + handle)
        } else {
            before.graphics@
        })
        &&& after.resize_cursor == (before.resize_cursor || match p.corner {
            Some(c) => c.hovered || c.active,
            None => false,
        })
        &&& after.memory.areas() == before.memory.areas()
        &&& after.memory.order_seq() == before.memory.order_seq()
        &&& after.memory.shown_last_frame() == before.memory.shown_last_frame()
        &&& after.memory.shown_this_frame() == before.memory.shown_this_frame()
        &&& after.memory.active() == before.memory.active()
        &&& after.input == before.input
        &&& after.repaint_requested == before.repaint_requested
    }

    /// Ends the region's frame (see `ends`), with `content_size` the extent
    /// of what was laid out in it.
    pub fn end(self, ctx: &mut Context, ui: &Ui, prepared: ResizePrepared, content_size: Vec2) -> (r: Vec2)
        requires
            old(ctx).wf(),
        ensures
            final(ctx).wf(),
            self.ends(*ui, prepared, content_size, *old(ctx), *final(ctx), r),
    {
        let mut state = prepared.state;
        state.last_content_size = Vec2 {
            x: if content_size.x >= 0 { content_size.x } else { 0 },
            y: if content_size.y >= 0 { content_size.y } else { 0 },
        };
        let allocated = if self.with_stroke || self.resizable {
            state.desired_size = state.desired_size.max(state.last_content_size);
            state.desired_size
        } else {
            state.last_content_size
        };
        let ghost g0 = ctx.graphics@;
        let ghost key = layer_key(ui.layer);
        let ghost mut frame: Seq<PaintCmd> = Seq::empty();
        if self.with_stroke && prepared.corner.is_some() {
            let rect = Rect::from_min_size(prepared.content_rect.min, state.desired_size).expand(2);
            let cmd = PaintCmd::Rect { rect, corner_radius: 3, fill: 0, stroke: Stroke { width: 1, color: 0x3c3c3cff } };
            ctx.graphics.add(ui.layer, ui.clip_rect, cmd);
            proof {
                frame = seq![cmd];
                let l = list_or_empty(g0, key);
                assert(l.push((ui.clip_rect, cmd)) =~= l + frame.map_values(|c: PaintCmd| (ui.clip_rect, c)));
                assert(ctx.graphics@ =~= appended(g0, key, ui.clip_rect, frame));
            }
        }
        let ghost g1 = ctx.graphics@;
        match prepared.corner {
            Some(corner_response) => {
                paint_resize_corner(ctx, ui, &corner_response);
                if corner_response.hovered || corner_response.active {
                    ctx.resize_cursor = true;
                }
            },
            None => {},
        }
        ctx.memory.set_resize_state(prepared.id, state);
        proof {
            let handle = match prepared.corner {
                Some(c) => corner_lines(c.rect, corner_stroke(c)),
                None => Seq::<PaintCmd>::empty(),
            };
            if prepared.corner is Some {
                if self.with_stroke {
                    lemma_appended_twice(g0, key, ui.clip_rect, frame, handle);
                } else {
                    assert(Seq::<PaintCmd>::empty() + handle =~= handle);
                }
            }
        }
        allocated
    }

    /// One frame of the region, around content of extent `content_size`;
    /// returns the extent the region takes in `ui`.
    pub fn show(self, ctx: &mut Context, ui: &Ui, content_size: Vec2) -> (r: Vec2)
        requires
            old(ctx).wf(),
        ensures
            final(ctx).wf(),
            exists|p: ResizePrepared, mid: Context|
                self.begins(*ui, *old(ctx), mid, p) && #[trigger] self.ends(*ui, p, content_size, mid, *final(ctx), r),
    {
        let prepared = self.begin(ctx, ui);
        let ghost mid = *ctx;
        let r = self.end(ctx, ui, prepared, content_size);
        assert(self.ends(*ui, prepared, content_size, mid, *ctx, r));
        r
    }
}

} // verus!
