use egui_core::area::{mouse_pressed_on_area, Area, FRICTION, SCREEN_MARGIN, STOP_SPEED};
use egui_core::context::{Context, InputState, MouseInput};
use egui_core::id::Id;
use egui_core::layers::{LayerId, Order, PaintCmd};
use egui_core::math::{Pos2, Rect, Vec2};
use egui_core::memory::AreaState;

fn input(pos: Option<(i32, i32)>, down: bool, pressed: bool, released: bool, delta: (i32, i32), vel: (i32, i32), dt_ms: u32) -> InputState {
    InputState {
        mouse: MouseInput {
            pos: pos.map(|(x, y)| Pos2 { x, y }),
            down,
            pressed,
            released,
            delta: Vec2 { x: delta.0, y: delta.1 },
            velocity: Vec2 { x: vel.0, y: vel.1 },
        },
        screen_size: Vec2 { x: 800, y: 600 },
        dt_ms,
    }
}

fn still(x: i32, y: i32, vx: i32, vy: i32) -> AreaState {
    AreaState { pos: Pos2 { x, y }, size: Vec2 { x: 50, y: 30 }, interactable: true, vel: Vec2 { x: vx, y: vy } }
}

#[test]
fn area_builders() {
    let a = Area::new(Id(3));
    assert!(a.is_movable());
    assert_eq!(a.layer(), LayerId::new(Order::Middle, Id(3)));
    let b = a.interactable(false);
    assert!(!b.is_movable());
    assert!(!b.interactable);
    let c = b.movable(true);
    assert!(c.is_movable() && c.interactable);
    let d = a.order(Order::Foreground).default_pos(Pos2 { x: 1, y: 2 });
    assert_eq!(d.order, Order::Foreground);
    assert_eq!(d.default_pos, Some(Pos2 { x: 1, y: 2 }));
    let e = a.fixed_pos(Pos2 { x: 4, y: 5 });
    assert!(!e.is_movable());
    assert_eq!(e.fixed_pos, Some(Pos2 { x: 4, y: 5 }));
    assert_eq!(e.default_pos, Some(Pos2 { x: 4, y: 5 }));
}

#[test]
fn area_show_drag_then_throw() {
    let mut ctx = Context::new();
    let id = Id::new("A");
    let layer = LayerId::new(Order::Middle, id);

    // First frame: content measures (50, 30); the area is new, so on top.
    ctx.begin_frame(input(None, false, false, false, (0, 0), (0, 0), 16));
    let r = Area::new(id).show(&mut ctx, Vec2 { x: 50, y: 30 });
    assert!(!r.active);
    let s = ctx.memory.area(id).unwrap();
    assert_eq!(s.pos, Pos2 { x: 100, y: 100 });
    assert_eq!(s.size, Vec2 { x: 50, y: 30 });
    assert_eq!(ctx.memory.order().clone(), vec![layer]);
    ctx.end_frame();

    // Second frame: pressed inside and dragged by (10, -5).
    ctx.begin_frame(input(Some((120, 110)), true, true, false, (10, -5), (100, -50), 16));
    let r = Area::new(id).show(&mut ctx, Vec2 { x: 50, y: 30 });
    assert!(r.active);
    let s = ctx.memory.area(id).unwrap();
    assert_eq!(s.pos, Pos2 { x: 110, y: 95 });
    assert_eq!(s.vel, Vec2 { x: 100, y: -50 });
    ctx.end_frame();

    // Third frame: released; dt 0.1 s takes 100 px/s off a speed of about
    // 111.8, leaving about (10.56, -5.28), whole: (10, -5); the area moves
    // by about (1.06, -0.53) and rounds to (111, 94).
    ctx.begin_frame(input(Some((130, 105)), false, false, true, (0, 0), (0, 0), 100));
    let r = Area::new(id).show(&mut ctx, Vec2 { x: 50, y: 30 });
    assert!(!r.active);
    let s = ctx.memory.area(id).unwrap();
    assert_eq!(s.vel, Vec2 { x: 10, y: -5 });
    assert_ne!(s.vel, Vec2 { x: 0, y: 0 });
    assert_eq!(s.pos, Pos2 { x: 111, y: 94 });
}

#[test]
fn coasting_constants() {
    assert_eq!(FRICTION, 1000);
    assert_eq!(STOP_SPEED, 20);
    assert_eq!(SCREEN_MARGIN, 32);
}

#[test]
fn coasting_slows_by_friction() {
    let s = still(0, 0, 300, 400).coasted(100);
    assert_eq!(s.vel, Vec2 { x: 240, y: 320 });
    assert_eq!(s.pos, Pos2 { x: 24, y: 32 });
}

#[test]
fn coasting_stops_below_stop_speed() {
    let s = still(5, 5, 19, 0).coasted(1);
    assert_eq!(s.vel, Vec2 { x: 0, y: 0 });
    assert_eq!(s.pos, Pos2 { x: 5, y: 5 });
}

#[test]
fn coasting_stops_when_friction_exceeds_speed() {
    let s = still(5, 5, 60, 80).coasted(101);
    assert_eq!(s.vel, Vec2 { x: 0, y: 0 });
    assert_eq!(s.pos, Pos2 { x: 5, y: 5 });
}

#[test]
fn coasting_comes_to_rest_and_stays() {
    let screen = Vec2 { x: 100_000, y: 100_000 };
    let mut s = still(1000, 1000, 3000, -2000);
    let mut frames = 0;
    while s.vel != (Vec2 { x: 0, y: 0 }) {
        s = s.coasted(16).clamped(screen);
        frames += 1;
        assert!(frames <= 5001);
    }
    let rest = s;
    for _ in 0..10 {
        s = s.coasted(16).clamped(screen);
        assert_eq!(s, rest);
    }
}

#[test]
fn clamping_keeps_margin_on_screen() {
    let screen = Vec2 { x: 800, y: 600 };
    let s = still(-5000, 9000, 0, 0).clamped(screen);
    assert_eq!(s.pos, Pos2 { x: 32 - 50, y: 600 - 32 });
    let s = still(9000, -9000, 0, 0).clamped(screen);
    assert_eq!(s.pos, Pos2 { x: 800 - 32, y: 32 - 30 });
    let s = still(i32::MIN, i32::MAX, 0, 0).clamped(screen);
    assert!(32 - 50 <= s.pos.x && s.pos.x <= 800 - 32);
    assert!(32 - 30 <= s.pos.y && s.pos.y <= 600 - 32);
}

#[test]
fn clamping_on_zero_screen_still_gives_a_position() {
    let s = still(100, 100, 0, 0).clamped(Vec2 { x: 0, y: 0 });
    assert_eq!(s.pos, Pos2 { x: -32, y: -32 });
}

#[test]
fn dragging_follows_pointer() {
    let s = still(10, 10, 0, 0).dragged(Vec2 { x: 3, y: -4 }, Vec2 { x: 7, y: 8 });
    assert_eq!(s.pos, Pos2 { x: 13, y: 6 });
    assert_eq!(s.vel, Vec2 { x: 7, y: 8 });
}

#[test]
fn fixed_position_overrides_memory() {
    let mut ctx = Context::new();
    ctx.begin_frame(input(None, false, false, false, (0, 0), (0, 0), 16));
    let area = Area::new(Id(8)).fixed_pos(Pos2 { x: 200, y: 150 });
    let prepared = area.begin(&ctx);
    assert_eq!(prepared.state().pos, Pos2 { x: 200, y: 150 });
    let ui = prepared.content_ui();
    assert_eq!(ui.cursor, Pos2 { x: 200, y: 150 });
    assert_eq!(ui.layer, LayerId::new(Order::Middle, Id(8)));
    assert_eq!(ui.clip_rect, Rect::everything());
    assert!(!prepared.movable);
    prepared.end(&mut ctx, Vec2 { x: 10, y: 10 });
    assert_eq!(ctx.memory.area(Id(8)).unwrap().pos, Pos2 { x: 200, y: 150 });
}

#[test]
fn pressing_an_area_brings_it_to_top() {
    let mut ctx = Context::new();
    let a = Id(1);
    let b = Id(2);
    ctx.begin_frame(input(None, false, false, false, (0, 0), (0, 0), 16));
    Area::new(a).default_pos(Pos2 { x: 100, y: 100 }).show(&mut ctx, Vec2 { x: 100, y: 100 });
    Area::new(b).default_pos(Pos2 { x: 150, y: 150 }).show(&mut ctx, Vec2 { x: 100, y: 100 });
    ctx.end_frame();
    let la = LayerId::new(Order::Middle, a);
    let lb = LayerId::new(Order::Middle, b);
    assert_eq!(ctx.memory.order().clone(), vec![la, lb]);
    // Press where only `a` is.
    ctx.begin_frame(input(Some((110, 110)), true, true, false, (0, 0), (0, 0), 16));
    assert!(mouse_pressed_on_area(&ctx, la));
    assert!(!mouse_pressed_on_area(&ctx, lb));
    Area::new(a).movable(false).show(&mut ctx, Vec2 { x: 100, y: 100 });
    Area::new(b).show(&mut ctx, Vec2 { x: 100, y: 100 });
    assert_eq!(ctx.memory.order().clone(), vec![lb, la]);
}

#[test]
fn last_moved_to_top_is_painted_last() {
    let mut ctx = Context::new();
    let a = LayerId::new(Order::Middle, Id(1));
    let b = LayerId::new(Order::Middle, Id(2));
    let clip = Rect::everything();
    ctx.memory.move_to_top(a);
    ctx.memory.move_to_top(b);
    ctx.memory.move_to_top(a);
    ctx.graphics.add(a, clip, PaintCmd::Noop);
    ctx.graphics.add(b, clip, PaintCmd::Rect {
        rect: clip,
        corner_radius: 0,
        fill: 0,
        stroke: egui_core::layers::Stroke { width: 1, color: 1 },
    });
    let out = ctx.end_frame();
    assert_eq!(out.len(), 2);
    assert!(matches!(out[0].1, PaintCmd::Rect { .. }));
    assert_eq!(out[1].1, PaintCmd::Noop);
}

#[test]
fn prepared_state_can_be_adjusted_before_end() {
    let mut ctx = Context::new();
    ctx.begin_frame(input(None, false, false, false, (0, 0), (0, 0), 16));
    let mut prepared = Area::new(Id(9)).begin(&ctx);
    prepared.state_mut().pos = Pos2 { x: 300, y: 200 };
    assert_eq!(prepared.state().pos, Pos2 { x: 300, y: 200 });
    prepared.end(&mut ctx, Vec2 { x: 10, y: 10 });
    assert_eq!(ctx.memory.area(Id(9)).unwrap().pos, Pos2 { x: 300, y: 200 });
}

fn whole_speed(v: Vec2) -> i64 {
    let n = (v.x as i64) * (v.x as i64) + (v.y as i64) * (v.y as i64);
    let mut r: i64 = 0;
    while (r + 1) * (r + 1) <= n {
        r += 1;
    }
    r
}

#[test]
fn coasting_takes_friction_off_the_speed() {
    let s = still(0, 0, 100, -50).coasted(100);
    assert_eq!(s.vel, Vec2 { x: 10, y: -5 });
    assert!(whole_speed(s.vel) + 100 <= whole_speed(Vec2 { x: 100, y: -50 }) + 1);
    let mut s = still(0, 0, 700, -2400);
    for _ in 0..20 {
        let before = whole_speed(s.vel);
        s = s.coasted(50);
        if s.vel != (Vec2 { x: 0, y: 0 }) {
            assert!(whole_speed(s.vel) + 50 <= before + 1);
        }
    }
}

#[test]
fn coasting_stops_within_speed_over_friction_frames() {
    let screen = Vec2 { x: 100_000, y: 100_000 };
    let mut s = still(50_000, 50_000, 300, 400);
    // Whole speed 500, friction 100 px/s per frame: at most ceil(500 / 99) = 6 frames.
    for _ in 0..6 {
        s = s.coasted(100).clamped(screen);
    }
    assert_eq!(s.vel, Vec2 { x: 0, y: 0 });
    let rest = s;
    s = s.coasted(100).clamped(screen);
    assert_eq!(s, rest);
}
