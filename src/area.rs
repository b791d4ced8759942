//! Floating areas: regions with no parent that remember where they are,
//! can be dragged and thrown, stay on the screen, and come to the top of
//! their tier when touched.
use vstd::prelude::*;
use crate::context::{interaction, pointer_over, Context, Response, Sense};
use crate::id::Id;
use crate::layers::{LayerId, Order};
use crate::memory::{to_top, with_entry, AreaState, Memory};
use crate::math::{isqrt, isqrt_spec, lemma_isqrt_bounds, max_int, min_int, sat, Pos2, Rect, Vec2};

verus! {

/// Deceleration of a thrown area, in pixels per second squared.
pub const FRICTION: u32 = 1000;

/// Below this speed, in pixels per second, a thrown area stops.
pub const STOP_SPEED: u32 = 20;

/// How much of an area stays on the screen, in pixels, at least.
pub const SCREEN_MARGIN: i32 = 32;

/// Where an area first appears when nobody says, on both axes.
pub const DEFAULT_POS: i32 = 100;

/// The squared length of `v`.
pub open spec fn speed_sq(v: Vec2) -> int {
    v.x * v.x + v.y * v.y
}

/// How much speed, in pixels per second, friction takes in `dt_ms` milliseconds.
pub open spec fn friction_loss(dt_ms: u32) -> int {
    FRICTION * dt_ms / 1000
}

/// `c * keep / speed`, rounded to the nearest integer, halves away from zero.
pub open spec fn scaled(c: int, keep: int, speed: int) -> int {
    if c >= 0 {
        (2 * c * keep + speed) / (2 * speed)
    } else {
        -((2 * (-c) * keep + speed) / (2 * speed))
    }
}

/// `a / 1000`, rounded to the nearest integer, halves away from zero.
pub open spec fn div_1000_rounded(a: int) -> int {
    if a >= 0 {
        (a + 500) / 1000
    } else {
        -((-a + 500) / 1000)
    }
}

/// Whether a thrown area with velocity `v` stops dead this frame: friction
/// takes more than its speed, or it is slower than the stop speed.
pub open spec fn stops(v: Vec2, dt_ms: u32) -> bool {
    friction_loss(dt_ms) * friction_loss(dt_ms) > speed_sq(v) || speed_sq(v) < STOP_SPEED * STOP_SPEED
}

/// One frame of an area that nobody holds: it stops dead, or its speed
/// drops by the friction along its direction and it moves on at the new
/// velocity.
pub open spec fn coast_spec(s: AreaState, dt_ms: u32) -> AreaState {
    if stops(s.vel, dt_ms) {
        AreaState { vel: Vec2 { x: 0, y: 0 }, ..s }
    } else {
        let speed = isqrt_spec(speed_sq(s.vel) as nat) as int;
        let keep = speed - friction_loss(dt_ms);
        let vel = Vec2 {
            x: scaled(s.vel.x as int, keep, speed) as i32,
            y: scaled(s.vel.y as int, keep, speed) as i32,
        };
        AreaState {
            pos: Pos2 {
                x: sat(s.pos.x + div_1000_rounded(vel.x * dt_ms)),
                y: sat(s.pos.y + div_1000_rounded(vel.y * dt_ms)),
            },
            vel,
            ..s
        }
    }
}

/// One frame of an area that is dragged: it follows the pointer and takes its velocity.
pub open spec fn drag_spec(s: AreaState, delta: Vec2, vel: Vec2) -> AreaState {
    AreaState { pos: s.pos.offset_spec(delta), vel, ..s }
}

pub open spec fn clamp_axis(p: int, lo: int, hi: int) -> int {
    min_int(max_int(p, lo), hi)
}

/// The area moved so that at least the margin of it stays on a screen of
/// extent `screen`: its position lies between `margin - size` and
/// `screen - margin` on each axis (where those bounds cross, the upper wins).
pub open spec fn clamp_spec(s: AreaState, screen: Vec2) -> AreaState {
    AreaState {
        pos: Pos2 {
            x: sat(clamp_axis(s.pos.x as int, SCREEN_MARGIN - s.size.x, screen.x - SCREEN_MARGIN)),
            y: sat(clamp_axis(s.pos.y as int, SCREEN_MARGIN - s.size.y, screen.y - SCREEN_MARGIN)),
        },
        ..s
    }
}

/// `c * keep / speed`, rounded to the nearest integer, halves away from zero.
fn scale_rounded(c: i32, keep: i64, speed: i64) -> (r: i32)
    requires
        0 <= keep <= speed,
        0 < speed,
        speed <= 3_037_000_499i64,
    ensures
        r == scaled(c as int, keep as int, speed as int),
{
    let mag: u128 = if c >= 0 { c as u128 } else { (-(c as i64)) as u128 };
    let k: u128 = keep as u128;
    let sp: u128 = speed as u128;
    assert(2 * mag * k + sp <= 2 * 0x8000_0000u128 * 3_037_000_499u128 + 3_037_000_499u128) by (nonlinear_arith)
        requires
            mag <= 0x8000_0000u128,
            k <= sp,
            sp <= 3_037_000_499u128,
    ;
    let q: u128 = (2 * mag * k + sp) / (2 * sp);
    assert(q <= mag) by (nonlinear_arith)
        requires
            q as int == (2 * mag * k + sp) as int / (2 * sp) as int,
            k <= sp,
            0 < sp,
    ;
    if c >= 0 {
        q as i32
    } else {
        -(q as i64) as i32
    }
}

/// `a / 1000`, rounded to the nearest integer, halves away from zero.
fn div_1000_round(a: i64) -> (r: i64)
    requires
        -0x7fff_ffff_ffff_0000i64 <= a <= 0x7fff_ffff_ffff_0000i64,
    ensures
        r == div_1000_rounded(a as int),
{
    if a >= 0 {
        (a + 500) / 1000
    } else {
        -((-a + 500) / 1000)
    }
}

impl AreaState {
    /// The state after one frame of coasting (see `coast_spec`).
    pub fn coasted(self, dt_ms: u32) -> (r: AreaState)
        ensures
            r == coast_spec(self, dt_ms),
    {
        assert(FRICTION == 1000 && STOP_SPEED == 20);
        assert(FRICTION as u64 * dt_ms as u64 <= 1000 * 0xffff_ffffu64) by (nonlinear_arith)
            requires
                FRICTION == 1000,
        ;
        assert(STOP_SPEED as u64 * STOP_SPEED as u64 == 400) by (nonlinear_arith)
            requires
                STOP_SPEED == 20,
        ;
        let loss: u64 = FRICTION as u64 * dt_ms as u64 / 1000;
        assert(loss == dt_ms) by (nonlinear_arith)
            requires
                loss == 1000 * (dt_ms as int) / 1000,
        ;
        let ax: u64 = if self.vel.x >= 0 { self.vel.x as u64 } else { (-(self.vel.x as i64)) as u64 };
        let ay: u64 = if self.vel.y >= 0 { self.vel.y as u64 } else { (-(self.vel.y as i64)) as u64 };
        assert(ax * ax <= 0x4000_0000_0000_0000u64 && ay * ay <= 0x4000_0000_0000_0000u64) by (nonlinear_arith)
            requires
                ax <= 0x8000_0000u64,
                ay <= 0x8000_0000u64,
        ;
        let n: u64 = ax * ax + ay * ay;
        assert(n == speed_sq(self.vel)) by (nonlinear_arith)
            requires
                n == ax * ax + ay * ay,
                ax == (if self.vel.x >= 0 { self.vel.x as int } else { -self.vel.x }),
                ay == (if self.vel.y >= 0 { self.vel.y as int } else { -self.vel.y }),
        ;
        assert(loss * loss <= 0x1_0000_0000_0000_0000u128) by (nonlinear_arith)
            requires
                loss <= 0x1_0000_0000u64,
        ;
        let loss_sq: u128 = loss as u128 * loss as u128;
        let stop_sq: u64 = STOP_SPEED as u64 * STOP_SPEED as u64;
        if loss_sq > n as u128 || n < stop_sq {
            AreaState { vel: Vec2 { x: 0, y: 0 }, ..self }
        } else {
            let speed: u64 = isqrt(n);
            proof {
                lemma_isqrt_bounds(n as nat);
                assert(speed >= loss) by (nonlinear_arith)
                    requires
                        loss * loss <= n,
                        n < (speed + 1) * (speed + 1),
                ;
                assert(speed >= 20) by (nonlinear_arith)
                    requires
                        400 <= n,
                        n < (speed + 1) * (speed + 1),
                ;
                assert(speed <= 3_037_000_499u64) by (nonlinear_arith)
                    requires
                        speed * speed <= n,
                        n <= 0x8000_0000_0000_0000u64,
                ;
            }
            let keep: i64 = speed as i64 - loss as i64;
            let vx = scale_rounded(self.vel.x, keep, speed as i64);
            let vy = scale_rounded(self.vel.y, keep, speed as i64);
            assert(-0x7fff_ffff_ffff_0000i128 <= vx * dt_ms && vx * dt_ms <= 0x7fff_ffff_ffff_0000i128) by (nonlinear_arith)
                requires
                    -0x8000_0000i64 <= vx <= 0x7fff_ffffi64,
                    0 <= dt_ms <= 0xffff_ffffu32,
            ;
            assert(-0x7fff_ffff_ffff_0000i128 <= vy * dt_ms && vy * dt_ms <= 0x7fff_ffff_ffff_0000i128) by (nonlinear_arith)
                requires
                    -0x8000_0000i64 <= vy <= 0x7fff_ffffi64,
                    0 <= dt_ms <= 0xffff_ffffu32,
            ;
            let dx = div_1000_round(vx as i64 * dt_ms as i64);
            let dy = div_1000_round(vy as i64 * dt_ms as i64);
            AreaState {
                pos: Pos2 {
                    x: crate::math::clamp_i64(self.pos.x as i64 + dx),
                    y: crate::math::clamp_i64(self.pos.y as i64 + dy),
                },
                vel: Vec2 { x: vx, y: vy },
                ..self
            }
        }
    }

    /// The state after one frame of being dragged (see `drag_spec`).
    pub fn dragged(self, delta: Vec2, vel: Vec2) -> (r: AreaState)
        ensures
            r == drag_spec(self, delta, vel),
    {
        AreaState { pos: self.pos.offset(delta), vel, ..self }
    }

    /// The state kept on a screen of extent `screen` (see `clamp_spec`).
    pub fn clamped(self, screen: Vec2) -> (r: AreaState)
        ensures
            r == clamp_spec(self, screen),
    {
        let lo_x: i64 = SCREEN_MARGIN as i64 - self.size.x as i64;
        let hi_x: i64 = screen.x as i64 - SCREEN_MARGIN as i64;
        let lo_y: i64 = SCREEN_MARGIN as i64 - self.size.y as i64;
        let hi_y: i64 = screen.y as i64 - SCREEN_MARGIN as i64;
        let px: i64 = self.pos.x as i64;
        let py: i64 = self.pos.y as i64;
        let x: i64 = if px >= lo_x { px } else { lo_x };
        let x: i64 = if x <= hi_x { x } else { hi_x };
        let y: i64 = if py >= lo_y { py } else { lo_y };
        let y: i64 = if y <= hi_y { y } else { hi_y };
        AreaState { pos: Pos2 { x: crate::math::clamp_i64(x), y: crate::math::clamp_i64(y) }, ..self }
    }
}

/// The state after one frame: dragged if `active`, else coasting; then kept on the screen.
pub open spec fn moved_spec(s: AreaState, active: bool, input: crate::context::InputState) -> AreaState {
    let t = if active {
        drag_spec(s, input.mouse.delta, input.mouse.velocity)
    } else {
        coast_spec(s, input.dt_ms)
    };
    clamp_spec(t, input.screen_size)
}

/// The extent of content, with negative extents taken as zero.
pub open spec fn nonneg(v: Vec2) -> Vec2 {
    Vec2 { x: max_int(v.x as int, 0) as i32, y: max_int(v.y as int, 0) as i32 }
}

/// Whether the button went down this frame over the area of `layer`.
pub open spec fn pressed_on(m: Memory, mouse: crate::context::MouseInput, layer: LayerId) -> bool {
    match mouse.pos {
        Some(p) => mouse.pressed && m.layer_at_spec(p) == Some(layer),
        None => false,
    }
}

/// A floating region: it has no parent, and may be moved.
#[derive(Clone, Copy, Debug, PartialEq, Eq, Structural)]
pub struct Area {
    pub id: Id,
    pub movable: bool,
    pub interactable: bool,
    pub order: Order,
    pub default_pos: Option<Pos2>,
    pub fixed_pos: Option<Pos2>,
}

/// An area between `Area::begin` and `Prepared::end`: its layer, its state
/// for this frame so far, and whether it can be dragged.
#[derive(Clone, Copy, Debug, PartialEq, Eq, Structural)]
pub struct Prepared {
    pub layer: LayerId,
    pub state: AreaState,
    pub movable: bool,
}

impl Area {
    /// A movable, interactable area in the middle tier.
    pub fn new(id: Id) -> (r: Area)
        ensures
            r == (Area {
                id,
                movable: true,
                interactable: true,
                order: Order::Middle,
                default_pos: None,
                fixed_pos: None,
            }),
    {
        Area { id, movable: true, interactable: true, order: Order::Middle, default_pos: None, fixed_pos: None }
    }

    pub open spec fn layer_spec(self) -> LayerId {
        LayerId { order: self.order, id: self.id }
    }

    /// The layer the area paints in.
    pub fn layer(&self) -> (r: LayerId)
        ensures
            r == self.layer_spec(),
    {
        LayerId { order: self.order, id: self.id }
    }

    /// Whether the area can be moved by dragging it. A movable area is interactable.
    pub fn movable(self, movable: bool) -> (r: Area)
        ensures
            r == (Area { movable, interactable: self.interactable || movable, ..self }),
    {
        Area { movable, interactable: self.interactable || movable, ..self }
    }

    pub fn is_movable(&self) -> (r: bool)
        ensures
            r == self.movable,
    {
        self.movable
    }

    /// If false, clicks go straight through to what is behind, as for a
    /// tooltip; such an area cannot be moved either.
    pub fn interactable(self, interactable: bool) -> (r: Area)
        ensures
            r == (Area { interactable, movable: self.movable && interactable, ..self }),
    {
        Area { interactable, movable: self.movable && interactable, ..self }
    }

    /// The tier of the area; `Order::Foreground` for one that is always on top.
    pub fn order(self, order: Order) -> (r: Area)
        ensures
            r == (Area { order, ..self }),
    {
        Area { order, ..self }
    }

    /// Where the area first appears.
    pub fn default_pos(self, default_pos: Pos2) -> (r: Area)
        ensures
            r == (Area { default_pos: Some(default_pos), ..self }),
    {
        Area { default_pos: Some(default_pos), ..self }
    }

    /// Pins the area at `fixed_pos`; it can no longer be moved.
    pub fn fixed_pos(self, fixed_pos: Pos2) -> (r: Area)
        ensures
            r == (Area { default_pos: Some(fixed_pos), fixed_pos: Some(fixed_pos), movable: false, ..self }),
    {
        Area { default_pos: Some(fixed_pos), fixed_pos: Some(fixed_pos), movable: false, ..self }
    }

    /// The state the area starts a frame with: the remembered one, or a new
    /// one at the default position with no size and no velocity; a fixed
    /// position overrides either.
    pub open spec fn start_state(self, areas: Map<u64, AreaState>) -> AreaState {
        let default_pos = match self.default_pos {
            Some(p) => p,
            None => Pos2 { x: DEFAULT_POS, y: DEFAULT_POS },
        };
        let st = if areas.contains_key(self.id.0) {
            areas[self.id.0]
        } else {
            AreaState {
                pos: default_pos,
                size: Vec2 { x: 0, y: 0 },
                interactable: self.interactable,
                vel: Vec2 { x: 0, y: 0 },
            }
        };
        match self.fixed_pos {
            Some(p) => AreaState { pos: p, ..st },
            None => st,
        }
    }

    /// Starts the area's frame.
    pub fn begin(self, ctx: &Context) -> (r: Prepared)
        ensures
            r == (Prepared {
                layer: self.layer_spec(),
                state: self.start_state(ctx.memory.areas()),
                movable: self.movable,
            }),
    {
        let default_pos = match self.default_pos {
            Some(p) => p,
            None => Pos2 { x: DEFAULT_POS, y: DEFAULT_POS },
        };
        let mut state = match ctx.memory.area(self.id) {
            Some(s) => s,
            None => AreaState {
                pos: default_pos,
                size: Vec2 { x: 0, y: 0 },
                interactable: self.interactable,
                vel: Vec2 { x: 0, y: 0 },
            },
        };
        match self.fixed_pos {
            Some(p) => {
                state.pos = p;
            },
            None => {},
        }
        Prepared { layer: self.layer(), state, movable: self.movable }
    }

    /// One frame of the area, around content of extent `content_size` laid
    /// out at the area's position (see `Prepared::end`).
    pub fn show(self, ctx: &mut Context, content_size: Vec2) -> (r: Response)
        requires
            old(ctx).wf(),
        ensures
            final(ctx).wf(),
            (Prepared {
                layer: self.layer_spec(),
                state: self.start_state(old(ctx).memory.areas()),
                movable: self.movable,
            }).ends(*old(ctx), *final(ctx), content_size, r),
    {
        let prepared = self.begin(ctx);
        prepared.end(ctx, content_size)
    }
}

impl Prepared {
    /// The `Id` of the handle by which the area is dragged, if it can be.
    pub open spec fn move_id(self) -> Option<Id> {
        if self.movable {
            Some(self.layer.id.with_spec("move"@))
        } else {
            None
        }
    }

    /// The state with the content's extent as its size.
    pub open spec fn sized(self, content_size: Vec2) -> AreaState {
        AreaState { size: nonneg(content_size), ..self.state }
    }

    /// What the end of the area's frame does to the context `before`, which
    /// becomes `after`, with response `r`:
    /// - the drag handle, covering the area, asks for click and drag;
    /// - the area is dragged if it holds the mouse, else coasts, and is kept
    ///   on the screen; that state is remembered;
    /// - it goes on top of its tier if it holds the mouse, was pressed on,
    ///   or was not shown last frame; otherwise the stack is left as it was.
    pub open spec fn ends(self, before: Context, after: Context, content_size: Vec2, r: Response) -> bool {
        let sized = self.sized(content_size);
        let rect = sized.rect_spec();
        let outcome = interaction(
            before.memory.active(),
            before.input.mouse,
            pointer_over(before.memory, before.input.mouse, self.layer, Rect::everything_spec(), rect),
            self.move_id(),
            Sense { click: true, drag: true },
            rect,
        );
        let promoted = r.active || pressed_on(before.memory, before.input.mouse, self.layer)
            || !before.memory.shown_last_frame().contains(self.layer);
        &&& r == outcome.0
        &&& after.memory.active() == outcome.1
        &&& after.memory.areas() == before.memory.areas().insert(
            self.layer.id.0,
            moved_spec(sized, r.active, before.input),
        )
        &&& after.memory.order_seq() == (if promoted {
            to_top(before.memory.order_seq(), self.layer)
        } else {
            before.memory.order_seq()
        })
        &&& after.memory.shown_this_frame() == with_entry(before.memory.shown_this_frame(), self.layer)
        &&& after.memory.shown_last_frame() == before.memory.shown_last_frame()
        &&& after.memory.resizes() == before.memory.resizes()
        &&& after.graphics@ == before.graphics@
        &&& after.input == before.input
        &&& after.repaint_requested == before.repaint_requested
        &&& after.resize_cursor == before.resize_cursor
    }

    /// Where the content goes: at the area's position, in its layer,
    /// unclipped.
    pub fn content_ui(&self) -> (r: crate::context::Ui)
        ensures
            r == (crate::context::Ui {
                layer: self.layer,
                id: self.layer.id,
                cursor: self.state.pos,
                clip_rect: Rect::everything_spec(),
            }),
    {
        crate::context::Ui { layer: self.layer, id: self.layer.id, cursor: self.state.pos, clip_rect: Rect::everything() }
    }

    pub fn state(&self) -> (r: &AreaState)
        ensures
            *r == self.state,
    {
        &self.state
    }

    pub fn state_mut(&mut self) -> (r: &mut AreaState)
        ensures
            *r == old(self).state,
            *final(self) == (Prepared { state: *final(r), ..*old(self) }),
    {
        &mut self.state
    }

    /// Ends the area's frame (see `ends`), with `content_size` the extent
    /// of what was laid out in it.
    pub fn end(self, ctx: &mut Context, content_size: Vec2) -> (r: Response)
        requires
            old(ctx).wf(),
        ensures
            final(ctx).wf(),
            self.ends(*old(ctx), *final(ctx), content_size, r),
    {
        let layer = self.layer;
        let mut state = self.state;
        state.size = Vec2 {
            x: if content_size.x >= 0 { content_size.x } else { 0 },
            y: if content_size.y >= 0 { content_size.y } else { 0 },
        };
        let rect = state.rect();
        let interact_id = if self.movable {
            Some(layer.id.with("move"))
        } else {
            None
        };
        let move_interact = ctx.interact(layer, Rect::everything(), rect, interact_id, Sense::click_and_drag());
        let input = ctx.input;
        if move_interact.active {
            state = state.dragged(input.mouse.delta, input.mouse.velocity);
        } else {
            state = state.coasted(input.dt_ms);
        }
        state = state.clamped(input.screen_size);
        if move_interact.active || mouse_pressed_on_area(ctx, layer) || !ctx.memory.visible_last_frame(&layer) {
            ctx.memory.move_to_top(layer);
            proof {
                crate::memory::lemma_with_entry(old(ctx).memory.order_seq(), layer);
                crate::memory::lemma_with_entry(old(ctx).memory.shown_this_frame(), layer);
            }
        }
        proof {
            assert(old(ctx).memory.shown_last_frame().contains(layer) ==> old(ctx).memory.was_shown(layer));
        }
        ctx.memory.set_area(layer, state);
        proof {
            crate::memory::lemma_with_entry(old(ctx).memory.shown_this_frame(), layer);
        }
        move_interact
    }
}

/// Whether the button went down this frame over the area of `layer`.
pub fn mouse_pressed_on_area(ctx: &Context, layer: LayerId) -> (r: bool)
    ensures
        r == pressed_on(ctx.memory, ctx.input.mouse, layer),
{
    match ctx.input.mouse.pos {
        Some(p) => ctx.input.mouse.pressed && ctx.memory.layer_at(p) == Some(layer),
        None => false,
    }
}

/// One frame of an area that nobody touches.
pub open spec fn idle_frame(s: AreaState, dt_ms: u32, screen: Vec2) -> AreaState {
    clamp_spec(coast_spec(s, dt_ms), screen)
}

/// `n` frames of an area that nobody touches.
pub open spec fn idle_frames(s: AreaState, dt_ms: u32, screen: Vec2, n: nat) -> AreaState
    decreases n,
{
    if n == 0 {
        s
    } else {
        idle_frames(idle_frame(s, dt_ms, screen), dt_ms, screen, (n - 1) as nat)
    }
}

/// The sum of the magnitudes of the velocity's components.
pub open spec fn vel_measure(v: Vec2) -> nat {
    ((if v.x >= 0 { v.x as int } else { -v.x }) + (if v.y >= 0 { v.y as int } else { -v.y })) as nat
}

/// Keeping an area on the screen puts its position between
/// `margin - size` and `screen - margin` on each axis, wherever it was,
/// when the screen leaves room for that.
pub proof fn lemma_clamp_keeps_on_screen(s: AreaState, screen: Vec2)
    requires
        s.size.x >= 0,
        s.size.y >= 0,
        SCREEN_MARGIN - s.size.x <= screen.x - SCREEN_MARGIN,
        SCREEN_MARGIN - s.size.y <= screen.y - SCREEN_MARGIN,
    ensures
        SCREEN_MARGIN - s.size.x <= clamp_spec(s, screen).pos.x <= screen.x - SCREEN_MARGIN,
        SCREEN_MARGIN - s.size.y <= clamp_spec(s, screen).pos.y <= screen.y - SCREEN_MARGIN,
{
}

/// Keeping an area on the screen a second time changes nothing.
pub proof fn lemma_clamp_idempotent(s: AreaState, screen: Vec2)
    ensures
        clamp_spec(clamp_spec(s, screen), screen) == clamp_spec(s, screen),
{
}

/// A component scaled by `keep / speed`, rounded, keeps its sign and is no
/// larger than it was.
proof fn lemma_scaled_bounded(c: int, keep: int, speed: int)
    requires
        0 <= keep <= speed,
        0 < speed,
    ensures
        c >= 0 ==> 0 <= scaled(c, keep, speed) <= c,
        c < 0 ==> c <= scaled(c, keep, speed) <= 0,
{
    let m = if c >= 0 { c } else { -c };
    let q = (2 * m * keep + speed) / (2 * speed);
    assert(0 <= q <= m) by (nonlinear_arith)
        requires
            q == (2 * m * keep + speed) / (2 * speed),
            0 <= m,
            0 <= keep <= speed,
            0 < speed,
    ;
}

/// Scaling both components of a velocity of at least `speed` by
/// `keep / speed < 1`, each rounded to nearest, takes at least one off the
/// sum of their magnitudes.
proof fn lemma_scaled_pair_shrinks(x: int, y: int, keep: int, speed: int)
    requires
        0 <= keep < speed,
        speed * speed <= x * x + y * y,
        x != 0 || y != 0,
    ensures
        (if scaled(x, keep, speed) >= 0 { scaled(x, keep, speed) } else { -scaled(x, keep, speed) }) + (if scaled(
            y,
            keep,
            speed,
        ) >= 0 {
            scaled(y, keep, speed)
        } else {
            -scaled(y, keep, speed)
        }) < (if x >= 0 { x } else { -x }) + (if y >= 0 { y } else { -y }),
{
    lemma_scaled_bounded(x, keep, speed);
    lemma_scaled_bounded(y, keep, speed);
    let mx = if x >= 0 { x } else { -x };
    let my = if y >= 0 { y } else { -y };
    assert(mx * mx == x * x && my * my == y * y) by (nonlinear_arith)
        requires
            mx == (if x >= 0 { x } else { -x }),
            my == (if y >= 0 { y } else { -y }),
    ;
    let qx = (2 * mx * keep + speed) / (2 * speed);
    let qy = (2 * my * keep + speed) / (2 * speed);
    assert(2 * speed * qx <= 2 * mx * keep + speed) by (nonlinear_arith)
        requires
            qx == (2 * mx * keep + speed) / (2 * speed),
            0 <= mx,
            0 <= keep < speed,
    ;
    assert(2 * speed * qy <= 2 * my * keep + speed) by (nonlinear_arith)
        requires
            qy == (2 * my * keep + speed) / (2 * speed),
            0 <= my,
            0 <= keep < speed,
    ;
    assert(2 * mx * keep <= 2 * mx * (speed - 1)) by (nonlinear_arith)
        requires
            0 <= mx,
            keep <= speed - 1,
    ;
    assert(2 * my * keep <= 2 * my * (speed - 1)) by (nonlinear_arith)
        requires
            0 <= my,
            keep <= speed - 1,
    ;
    if my == 0 {
        assert(qy == 0) by (nonlinear_arith)
            requires
                qy == (2 * my * keep + speed) / (2 * speed),
                my == 0,
                0 < speed,
        ;
        assert(my * my == 0) by (nonlinear_arith)
            requires
                my == 0,
        ;
        assert(mx >= speed) by (nonlinear_arith)
            requires
                speed * speed <= mx * mx,
                0 <= mx,
                0 < speed,
        ;
        assert(qx < mx) by (nonlinear_arith)
            requires
                2 * speed * qx <= 2 * mx * (speed - 1) + speed,
                mx >= speed,
                0 < speed,
        ;
    } else if mx == 0 {
        assert(qx == 0) by (nonlinear_arith)
            requires
                qx == (2 * mx * keep + speed) / (2 * speed),
                mx == 0,
                0 < speed,
        ;
        assert(mx * mx == 0) by (nonlinear_arith)
            requires
                mx == 0,
        ;
        assert(my >= speed) by (nonlinear_arith)
            requires
                speed * speed <= my * my,
                0 <= my,
                0 < speed,
        ;
        assert(qy < my) by (nonlinear_arith)
            requires
                2 * speed * qy <= 2 * my * (speed - 1) + speed,
                my >= speed,
                0 < speed,
        ;
    } else {
        let m = mx + my;
        assert(m > speed) by (nonlinear_arith)
            requires
                speed * speed <= mx * mx + my * my,
                mx > 0,
                my > 0,
                m == mx + my,
                0 < speed,
        ;
        assert(2 * m * (speed - 1) == 2 * mx * (speed - 1) + 2 * my * (speed - 1)) by (nonlinear_arith)
            requires
                m == mx + my,
        ;
        assert(qx + qy < m) by (nonlinear_arith)
            requires
                2 * speed * qx + 2 * speed * qy <= 2 * m * (speed - 1) + 2 * speed,
                m > speed,
                0 < speed,
        ;
    }
}

/// With time passing, every frame of coasting either stops the area or
/// takes something off its velocity.
proof fn lemma_idle_frame_slows(s: AreaState, dt_ms: u32, screen: Vec2)
    requires
        dt_ms > 0,
    ensures
        vel_measure(s.vel) == 0 ==> vel_measure(idle_frame(s, dt_ms, screen).vel) == 0,
        vel_measure(s.vel) > 0 ==> vel_measure(idle_frame(s, dt_ms, screen).vel) < vel_measure(s.vel),
{
    assert(FRICTION == 1000 && STOP_SPEED == 20);
    assert(friction_loss(dt_ms) == dt_ms) by (nonlinear_arith)
        requires
            friction_loss(dt_ms) == 1000 * (dt_ms as int) / 1000,
    ;
    if !stops(s.vel, dt_ms) {
        let n = speed_sq(s.vel);
        assert(n >= 0) by (nonlinear_arith)
            requires
                n == s.vel.x * s.vel.x + s.vel.y * s.vel.y,
        ;
        lemma_isqrt_bounds(n as nat);
        let speed = isqrt_spec(n as nat) as int;
        let f = friction_loss(dt_ms);
        assert(speed >= f) by (nonlinear_arith)
            requires
                f * f <= n,
                0 <= f,
                n < (speed + 1) * (speed + 1),
                0 <= speed,
        ;
        let keep = speed - f;
        lemma_scaled_bounded(s.vel.x as int, keep, speed);
        lemma_scaled_bounded(s.vel.y as int, keep, speed);
        if s.vel.x == 0 && s.vel.y == 0 {
            assert(n == 0) by (nonlinear_arith)
                requires
                    n == s.vel.x * s.vel.x + s.vel.y * s.vel.y,
                    s.vel.x == 0,
                    s.vel.y == 0,
            ;
        } else {
            lemma_scaled_pair_shrinks(s.vel.x as int, s.vel.y as int, keep, speed);
        }
    } else {
    }
}

/// The whole speed of `v`, in pixels per second, rounded down.
pub open spec fn whole_speed(v: Vec2) -> nat {
    isqrt_spec(speed_sq(v) as nat)
}

/// Each frame of coasting either stops the area dead or takes friction off
/// its speed: up to rounding to whole pixels per second, the whole speed
/// afterwards is at most the whole speed before minus the friction, plus one.
pub proof fn lemma_coasting_loses_friction(s: AreaState, dt_ms: u32)
    ensures
        !stops(s.vel, dt_ms) ==> whole_speed(coast_spec(s, dt_ms).vel) + friction_loss(dt_ms) <= whole_speed(s.vel) + 1,
        stops(s.vel, dt_ms) ==> coast_spec(s, dt_ms).vel == (Vec2 { x: 0, y: 0 }),
{
    assert(FRICTION == 1000 && STOP_SPEED == 20);
    if !stops(s.vel, dt_ms) {
        let x = s.vel.x as int;
        let y = s.vel.y as int;
        let n = speed_sq(s.vel);
        assert(n >= 0) by (nonlinear_arith)
            requires
                n == x * x + y * y,
        ;
        lemma_isqrt_bounds(n as nat);
        let sp = isqrt_spec(n as nat) as int;
        let f = friction_loss(dt_ms);
        assert(f >= 0) by (nonlinear_arith)
            requires
                f == 1000 * (dt_ms as int) / 1000,
                dt_ms >= 0,
        ;
        assert(sp >= f) by (nonlinear_arith)
            requires
                f * f <= n,
                0 <= f,
                n < (sp + 1) * (sp + 1),
                0 <= sp,
        ;
        assert(sp >= 20) by (nonlinear_arith)
            requires
                400 <= n,
                n < (sp + 1) * (sp + 1),
                0 <= sp,
        ;
        let k = sp - f;
        let mx = if x >= 0 { x } else { -x };
        let my = if y >= 0 { y } else { -y };
        assert(mx * mx == x * x && my * my == y * y) by (nonlinear_arith)
            requires
                mx == (if x >= 0 { x } else { -x }),
                my == (if y >= 0 { y } else { -y }),
        ;
        let qx = (2 * mx * k + sp) / (2 * sp);
        let qy = (2 * my * k + sp) / (2 * sp);
        let v2 = coast_spec(s, dt_ms).vel;
        lemma_scaled_bounded(x, k, sp);
        lemma_scaled_bounded(y, k, sp);
        assert(v2.x * v2.x == qx * qx && v2.y * v2.y == qy * qy) by (nonlinear_arith)
            requires
                v2.x == (if x >= 0 { qx } else { -qx }),
                v2.y == (if y >= 0 { qy } else { -qy }),
        ;
        assert(0 <= 2 * sp * qx <= 2 * mx * k + sp) by (nonlinear_arith)
            requires
                qx == (2 * mx * k + sp) / (2 * sp),
                0 <= mx,
                0 <= k,
                0 < sp,
        ;
        assert(0 <= 2 * sp * qy <= 2 * my * k + sp) by (nonlinear_arith)
            requires
                qy == (2 * my * k + sp) / (2 * sp),
                0 <= my,
                0 <= k,
                0 < sp,
        ;
        let a = 2 * mx * k + sp;
        let b = 2 * my * k + sp;
        assert((2 * sp * qx) * (2 * sp * qx) <= a * a) by (nonlinear_arith)
            requires
                0 <= 2 * sp * qx <= a,
        ;
        assert((2 * sp * qy) * (2 * sp * qy) <= b * b) by (nonlinear_arith)
            requires
                0 <= 2 * sp * qy <= b,
        ;
        let m = mx + my;
        assert(m * m <= 2 * n) by (nonlinear_arith)
            requires
                m == mx + my,
                n == mx * mx + my * my,
        ;
        assert(2 * m < 3 * (sp + 1)) by (nonlinear_arith)
            requires
                m * m <= 2 * n,
                n < (sp + 1) * (sp + 1),
                0 <= m,
                0 <= sp,
        ;
        assert(a * a == 4 * k * k * (mx * mx) + 4 * k * sp * mx + sp * sp) by (nonlinear_arith)
            requires
                a == 2 * mx * k + sp,
        ;
        assert(b * b == 4 * k * k * (my * my) + 4 * k * sp * my + sp * sp) by (nonlinear_arith)
            requires
                b == 2 * my * k + sp,
        ;
        assert(4 * k * k * (mx * mx) + 4 * k * k * (my * my) == 4 * k * k * n) by (nonlinear_arith)
            requires
                n == mx * mx + my * my,
        ;
        assert(4 * k * sp * mx + 4 * k * sp * my == 4 * k * sp * m) by (nonlinear_arith)
            requires
                m == mx + my,
        ;
        assert(a * a + b * b == 4 * k * k * n + 4 * k * sp * m + 2 * sp * sp) by (nonlinear_arith)
            requires
                a * a == 4 * k * k * (mx * mx) + 4 * k * sp * mx + sp * sp,
                b * b == 4 * k * k * (my * my) + 4 * k * sp * my + sp * sp,
                4 * k * k * (mx * mx) + 4 * k * k * (my * my) == 4 * k * k * n,
                4 * k * sp * mx + 4 * k * sp * my == 4 * k * sp * m,
        ;
        assert(4 * k * k * n <= 4 * k * k * ((sp + 1) * (sp + 1))) by (nonlinear_arith)
            requires
                n < (sp + 1) * (sp + 1),
        ;
        assert(2 * (4 * k * sp * m) <= 4 * k * sp * (3 * (sp + 1))) by (nonlinear_arith)
            requires
                2 * m < 3 * (sp + 1),
                0 <= k,
                0 <= sp,
        ;
        assert(2 * (4 * k * k * ((sp + 1) * (sp + 1))) + 4 * k * sp * (3 * (sp + 1)) + 4 * sp * sp
            < 2 * (4 * sp * sp * ((k + 2) * (k + 2)))) by (nonlinear_arith)
            requires
                0 <= k <= sp,
                sp >= 20,
        ;
        assert(2 * (a * a + b * b) < 2 * (4 * sp * sp * ((k + 2) * (k + 2)))) by (nonlinear_arith)
            requires
                a * a + b * b == 4 * k * k * n + 4 * k * sp * m + 2 * sp * sp,
                4 * k * k * n <= 4 * k * k * ((sp + 1) * (sp + 1)),
                2 * (4 * k * sp * m) <= 4 * k * sp * (3 * (sp + 1)),
                2 * (4 * k * k * ((sp + 1) * (sp + 1))) + 4 * k * sp * (3 * (sp + 1)) + 4 * sp * sp
                    < 2 * (4 * sp * sp * ((k + 2) * (k + 2))),
        ;
        let n2 = speed_sq(v2);
        assert(4 * sp * sp * n2 < 4 * sp * sp * ((k + 2) * (k + 2))) by (nonlinear_arith)
            requires
                n2 == v2.x * v2.x + v2.y * v2.y,
                v2.x * v2.x == qx * qx,
                v2.y * v2.y == qy * qy,
                (2 * sp * qx) * (2 * sp * qx) + (2 * sp * qy) * (2 * sp * qy) <= a * a + b * b,
                2 * (a * a + b * b) < 2 * (4 * sp * sp * ((k + 2) * (k + 2))),
        ;
        assert(n2 < (k + 2) * (k + 2)) by (nonlinear_arith)
            requires
                4 * sp * sp * n2 < 4 * sp * sp * ((k + 2) * (k + 2)),
                sp > 0,
        ;
        assert(n2 >= 0) by (nonlinear_arith)
            requires
                n2 == v2.x * v2.x + v2.y * v2.y,
        ;
        lemma_isqrt_bounds(n2 as nat);
        let s2 = isqrt_spec(n2 as nat) as int;
        assert(s2 <= k + 1) by (nonlinear_arith)
            requires
                s2 * s2 <= n2,
                n2 < (k + 2) * (k + 2),
                0 <= s2,
                0 <= k,
        ;
    }
}

/// What an area that nobody holds stores at the end of its frame (see
/// `Prepared::ends`) is one untouched frame of its state.
pub proof fn lemma_released_area_coasts(s: AreaState, input: crate::context::InputState)
    ensures
        moved_spec(s, false, input) == idle_frame(s, input.dt_ms, input.screen_size),
{
}

proof fn lemma_idle_frames_stop_in_time(s: AreaState, dt_ms: u32, screen: Vec2, k: nat)
    requires
        friction_loss(dt_ms) >= 2,
        k * (friction_loss(dt_ms) - 1) >= whole_speed(s.vel),
    ensures
        idle_frames(s, dt_ms, screen, k).vel == (Vec2 { x: 0, y: 0 }),
    decreases k,
{
    let f = friction_loss(dt_ms);
    if k == 0 {
        let n = speed_sq(s.vel);
        assert(n >= 0) by (nonlinear_arith)
            requires
                n == s.vel.x * s.vel.x + s.vel.y * s.vel.y,
        ;
        lemma_isqrt_bounds(n as nat);
        let r = isqrt_spec(n as nat);
        assert(0 * (f - 1) == 0);
        assert(r == 0);
        assert((r + 1) * (r + 1) == 1) by (nonlinear_arith)
            requires
                r == 0,
        ;
        assert(s.vel.x == 0 && s.vel.y == 0) by (nonlinear_arith)
            requires
                n == s.vel.x * s.vel.x + s.vel.y * s.vel.y,
                n < 1,
        ;
    } else {
        let s1 = idle_frame(s, dt_ms, screen);
        lemma_coasting_loses_friction(s, dt_ms);
        assert(k * (f - 1) == (k - 1) * (f - 1) + (f - 1)) by (nonlinear_arith);
        if stops(s.vel, dt_ms) {
            assert(speed_sq(s1.vel) == 0);
            assert(isqrt_spec(0) == 0);
            assert((k - 1) * (f - 1) >= 0) by (nonlinear_arith)
                requires
                    k >= 1,
                    f >= 2,
            ;
        }
        lemma_idle_frames_stop_in_time(s1, dt_ms, screen, (k - 1) as nat);
    }
}

/// With friction of at least 2 px/s per frame, a thrown area that nobody
/// touches is at rest after at most `ceil(speed / (friction - 1))` frames,
/// `speed` being its whole speed in pixels per second, and stays at rest.
pub proof fn lemma_coasting_stops_in_time(s: AreaState, dt_ms: u32, screen: Vec2)
    requires
        friction_loss(dt_ms) >= 2,
    ensures
        forall|m: nat|
            m >= (whole_speed(s.vel) + friction_loss(dt_ms) - 2) / (friction_loss(dt_ms) - 1) ==> #[trigger] idle_frames(
                s,
                dt_ms,
                screen,
                m,
            ).vel == (Vec2 { x: 0, y: 0 }),
{
    let f = friction_loss(dt_ms);
    let w = whole_speed(s.vel) as int;
    let n = (w + f - 2) / (f - 1);
    assert(n * (f - 1) >= w) by (nonlinear_arith)
        requires
            n == (w + f - 2) / (f - 1),
            f >= 2,
            w >= 0,
    ;
    assert forall|m: nat| m >= n implies #[trigger] idle_frames(s, dt_ms, screen, m).vel == (Vec2 { x: 0, y: 0 }) by {
        assert(m * (f - 1) >= n * (f - 1)) by (nonlinear_arith)
            requires
                m >= n,
                f >= 2,
        ;
        lemma_idle_frames_stop_in_time(s, dt_ms, screen, m);
    }
}

/// Splitting a run of untouched frames.
proof fn lemma_idle_frames_split(s: AreaState, dt_ms: u32, screen: Vec2, a: nat, b: nat)
    ensures
        idle_frames(s, dt_ms, screen, a + b) == idle_frames(idle_frames(s, dt_ms, screen, a), dt_ms, screen, b),
    decreases a,
{
    if a > 0 {
        lemma_idle_frames_split(idle_frame(s, dt_ms, screen), dt_ms, screen, (a - 1) as nat, b);
        assert((a + b - 1) as nat == (a - 1) as nat + b);
    }
}

proof fn lemma_idle_frames_stop(s: AreaState, dt_ms: u32, screen: Vec2, k: nat)
    requires
        dt_ms > 0,
        k >= vel_measure(s.vel),
    ensures
        idle_frames(s, dt_ms, screen, k + 1).vel == (Vec2 { x: 0, y: 0 }),
    decreases k,
{
    let s1 = idle_frame(s, dt_ms, screen);
    lemma_idle_frame_slows(s, dt_ms, screen);
    assert(idle_frames(s, dt_ms, screen, k + 1) == idle_frames(s1, dt_ms, screen, k));
    if k > 0 {
        lemma_idle_frames_stop(s1, dt_ms, screen, (k - 1) as nat);
        assert((k - 1) as nat + 1 == k);
    }
}

/// An area at rest on the screen stays where it is.
proof fn lemma_rest_is_fixed(f: AreaState, dt_ms: u32, screen: Vec2, k: nat)
    requires
        f.vel == (Vec2 { x: 0, y: 0 }),
        clamp_spec(f, screen) == f,
    ensures
        idle_frames(f, dt_ms, screen, k) == f,
    decreases k,
{
    assert(speed_sq(f.vel) == 0);
    assert(coast_spec(f, dt_ms) == f);
    if k > 0 {
        lemma_rest_is_fixed(f, dt_ms, screen, (k - 1) as nat);
    }
}

/// A thrown area that nobody touches comes to rest: with frames of a fixed
/// non-zero length, after at most one frame more than the sum of its
/// velocity's components (in pixels per second) the velocity is exactly
/// zero, and from then on neither it nor the position changes.
pub proof fn lemma_coasting_stops(s: AreaState, dt_ms: u32, screen: Vec2)
    requires
        dt_ms > 0,
    ensures
        idle_frames(s, dt_ms, screen, vel_measure(s.vel) + 1).vel == (Vec2 { x: 0, y: 0 }),
        forall|k: nat|
            #[trigger] idle_frames(s, dt_ms, screen, vel_measure(s.vel) + 1 + k) == idle_frames(
                s,
                dt_ms,
                screen,
                vel_measure(s.vel) + 1,
            ),
{
    let n: nat = vel_measure(s.vel) + 1;
    lemma_idle_frames_stop(s, dt_ms, screen, vel_measure(s.vel));
    let f = idle_frames(s, dt_ms, screen, n);
    lemma_idle_frames_split(s, dt_ms, screen, (n - 1) as nat, 1);
    let g = idle_frames(s, dt_ms, screen, (n - 1) as nat);
    assert(f == idle_frames(g, dt_ms, screen, 1));
    assert(idle_frames(idle_frame(g, dt_ms, screen), dt_ms, screen, 0) == idle_frame(g, dt_ms, screen));
    assert(f == idle_frame(g, dt_ms, screen));
    lemma_clamp_idempotent(coast_spec(g, dt_ms), screen);
    assert forall|k: nat| #[trigger] idle_frames(s, dt_ms, screen, n + k) == f by {
        lemma_idle_frames_split(s, dt_ms, screen, n, k);
        lemma_rest_is_fixed(f, dt_ms, screen, k);
    }
}

} // verus!
