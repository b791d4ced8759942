use egui_core::context::{Context, InputState, MouseInput, Response, Ui};
use egui_core::id::Id;
use egui_core::layers::{LayerId, PaintCmd, Stroke};
use egui_core::math::{Pos2, Rect, Vec2};
use egui_core::resize::{paint_resize_corner, paint_resize_corner_with_style, Resize};

fn input(pos: Option<(i32, i32)>, down: bool, pressed: bool) -> InputState {
    InputState {
        mouse: MouseInput {
            pos: pos.map(|(x, y)| Pos2 { x, y }),
            down,
            pressed,
            released: false,
            delta: Vec2 { x: 0, y: 0 },
            velocity: Vec2 { x: 0, y: 0 },
        },
        screen_size: Vec2 { x: 800, y: 600 },
        dt_ms: 16,
    }
}

fn ui() -> Ui {
    Ui { layer: LayerId::background(), id: Id::new("parent"), cursor: Pos2 { x: 0, y: 0 }, clip_rect: Rect::everything() }
}

#[test]
fn resize_builders() {
    let r = Resize::default();
    assert!(r.is_resizable());
    assert_eq!(r.min_size, Vec2 { x: 16, y: 16 });
    assert_eq!(r.default_size, Vec2 { x: 320, y: 128 });
    let a = r.auto_sized();
    assert!(!a.is_resizable());
    assert_eq!(a.min_size, Vec2 { x: 0, y: 0 });
    let f = r.fixed_size(Vec2 { x: 40, y: 30 });
    assert!(!f.is_resizable());
    assert_eq!(f.min_size, Vec2 { x: 40, y: 30 });
    assert_eq!(f.default_size, Vec2 { x: 40, y: 30 });
    let w = r.default_width(100).default_height(50).with_stroke(false).id(Id(3)).resizable(false).min_size(Vec2 { x: 1, y: 1 });
    assert_eq!(w.default_size, Vec2 { x: 100, y: 50 });
    assert!(!w.with_stroke);
    assert_eq!(w.id, Some(Id(3)));
    assert_eq!(r.default_size(Vec2 { x: 7, y: 9 }).default_size, Vec2 { x: 7, y: 9 });
}

#[test]
fn resize_first_frame_uses_default_size_and_asks_for_repaint() {
    let mut ctx = Context::new();
    ctx.begin_frame(input(None, false, false));
    let size = Resize::default().show(&mut ctx, &ui(), Vec2 { x: 5, y: 5 });
    assert_eq!(size, Vec2 { x: 320, y: 128 });
    assert!(ctx.repaint_requested);
    let id = Id::new("parent").with("resize");
    assert_eq!(ctx.memory.resize_state(id).unwrap().last_content_size, Vec2 { x: 5, y: 5 });
}

#[test]
fn resize_corner_drag_clamps_to_min_size() {
    let mut ctx = Context::new();
    let u = ui();
    ctx.begin_frame(input(None, false, false));
    Resize::default().show(&mut ctx, &u, Vec2 { x: 5, y: 5 });
    ctx.end_frame();
    // Press on the corner handle, at the bottom-right of (320, 128).
    ctx.begin_frame(input(Some((314, 122)), true, true));
    let p = Resize::default().begin(&mut ctx, &u);
    assert!(p.corner.unwrap().active);
    assert_eq!(p.state.desired_size, Vec2 { x: 320, y: 128 });
    Resize::default().end(&mut ctx, &u, p, Vec2 { x: 5, y: 5 });
    ctx.end_frame();
    // Drag to the content origin + (10, 10).
    ctx.begin_frame(input(Some((10, 10)), true, false));
    let p = Resize::default().begin(&mut ctx, &u);
    assert_eq!(p.state.desired_size, Vec2 { x: 16, y: 16 });
    let size = Resize::default().end(&mut ctx, &u, p, Vec2 { x: 5, y: 5 });
    assert_eq!(size, Vec2 { x: 16, y: 16 });
    assert!(ctx.resize_cursor);
}

#[test]
fn resize_clip_keeps_last_content_when_shrinking() {
    let mut ctx = Context::new();
    let u = ui();
    ctx.begin_frame(input(None, false, false));
    Resize::default().show(&mut ctx, &u, Vec2 { x: 200, y: 100 });
    ctx.end_frame();
    ctx.begin_frame(input(Some((314, 122)), true, true));
    let p = Resize::default().begin(&mut ctx, &u);
    Resize::default().end(&mut ctx, &u, p, Vec2 { x: 200, y: 100 });
    ctx.end_frame();
    ctx.begin_frame(input(Some((50, 50)), true, false));
    let p = Resize::default().begin(&mut ctx, &u);
    assert_eq!(p.state.desired_size, Vec2 { x: 56, y: 56 });
    assert_eq!(p.content_rect, Rect { min: Pos2 { x: 0, y: 0 }, max: Pos2 { x: 56, y: 56 } });
    assert_eq!(p.content_clip_rect.max, Pos2 { x: 203, y: 103 });
    assert_eq!(p.content_clip_rect.min, Pos2 { x: -3, y: -3 });
    // The content still needs its room: the region takes it.
    let size = Resize::default().end(&mut ctx, &u, p, Vec2 { x: 200, y: 100 });
    assert_eq!(size, Vec2 { x: 200, y: 100 });
}

#[test]
fn resize_clip_respects_parent_clip() {
    let mut ctx = Context::new();
    let mut u = ui();
    u.clip_rect = Rect { min: Pos2 { x: 0, y: 0 }, max: Pos2 { x: 100, y: 100 } };
    ctx.begin_frame(input(None, false, false));
    let p = Resize::default().begin(&mut ctx, &u);
    assert_eq!(p.content_clip_rect.max, Pos2 { x: 100, y: 100 });
    assert_eq!(p.content_clip_rect.min, Pos2 { x: 0, y: 0 });
}

#[test]
fn auto_sized_region_takes_content_size() {
    let mut ctx = Context::new();
    ctx.begin_frame(input(None, false, false));
    let size = Resize::default().auto_sized().with_stroke(false).show(&mut ctx, &ui(), Vec2 { x: 42, y: 17 });
    assert_eq!(size, Vec2 { x: 42, y: 17 });
}

#[test]
fn requested_size_applies_once() {
    let mut ctx = Context::new();
    let u = ui();
    ctx.begin_frame(input(None, false, false));
    Resize::default().show(&mut ctx, &u, Vec2 { x: 5, y: 5 });
    let id = Id::new("parent").with("resize");
    let mut st = ctx.memory.resize_state(id).unwrap();
    st.requested_size = Some(Vec2 { x: 60, y: 70 });
    ctx.memory.set_resize_state(id, st);
    let p = Resize::default().begin(&mut ctx, &u);
    assert_eq!(p.state.desired_size, Vec2 { x: 60, y: 70 });
    assert_eq!(p.state.requested_size, None);
}

#[test]
fn corner_lines_fit_the_handle() {
    let mut ctx = Context::new();
    let u = ui();
    let rect = Rect { min: Pos2 { x: 8, y: 8 }, max: Pos2 { x: 20, y: 20 } };
    let stroke = Stroke { width: 1, color: 7 };
    paint_resize_corner_with_style(&mut ctx, &u, &rect, stroke);
    let out = ctx.end_frame();
    let cmds: Vec<PaintCmd> = out.iter().map(|(_, c)| *c).collect();
    assert_eq!(
        cmds,
        vec![
            PaintCmd::LineSegment { a: Pos2 { x: 18, y: 20 }, b: Pos2 { x: 20, y: 18 }, stroke },
            PaintCmd::LineSegment { a: Pos2 { x: 14, y: 20 }, b: Pos2 { x: 20, y: 14 }, stroke },
            PaintCmd::LineSegment { a: Pos2 { x: 10, y: 20 }, b: Pos2 { x: 20, y: 10 }, stroke },
        ]
    );
}

#[test]
fn corner_stroke_follows_response() {
    let mut ctx = Context::new();
    let u = ui();
    let rect = Rect { min: Pos2 { x: 0, y: 0 }, max: Pos2 { x: 3, y: 3 } };
    let resp = Response { rect, hovered: false, clicked: false, active: true };
    paint_resize_corner(&mut ctx, &u, &resp);
    let out = ctx.end_frame();
    assert_eq!(out.len(), 1);
    assert_eq!(
        out[0].1,
        PaintCmd::LineSegment { a: Pos2 { x: 1, y: 3 }, b: Pos2 { x: 3, y: 1 }, stroke: Stroke { width: 2, color: 0xffffffff } }
    );
}
