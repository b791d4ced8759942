use egui_core::context::{Context, InputState, MouseInput, Sense};
use egui_core::id::Id;
use egui_core::layers::{LayerId, Order};
use egui_core::math::{Pos2, Rect, Vec2};

fn mouse(pos: Option<(i32, i32)>, down: bool, pressed: bool, released: bool) -> InputState {
    InputState {
        mouse: MouseInput {
            pos: pos.map(|(x, y)| Pos2 { x, y }),
            down,
            pressed,
            released,
            delta: Vec2 { x: 0, y: 0 },
            velocity: Vec2 { x: 0, y: 0 },
        },
        screen_size: Vec2 { x: 800, y: 600 },
        dt_ms: 16,
    }
}

fn r(x0: i32, y0: i32, x1: i32, y1: i32) -> Rect {
    Rect { min: Pos2 { x: x0, y: y0 }, max: Pos2 { x: x1, y: y1 } }
}

#[test]
fn press_takes_the_mouse_and_drag_keeps_it() {
    let mut ctx = Context::new();
    let bg = LayerId::background();
    let everything = Rect::everything();
    ctx.begin_frame(mouse(Some((5, 5)), true, true, false));
    let resp = ctx.interact(bg, everything, r(0, 0, 10, 10), Some(Id(100)), Sense::drag());
    assert!(resp.active && resp.hovered && !resp.clicked);
    assert_eq!(ctx.memory.active_id(), Some(Id(100)));
    // Pointer leaves the widget while held: still active.
    ctx.begin_frame(mouse(Some((50, 50)), true, false, false));
    let resp = ctx.interact(bg, everything, r(0, 0, 10, 10), Some(Id(100)), Sense::drag());
    assert!(resp.active);
    assert!(!resp.hovered);
}

#[test]
fn second_widget_cannot_steal_the_mouse() {
    let mut ctx = Context::new();
    let bg = LayerId::background();
    let everything = Rect::everything();
    ctx.begin_frame(mouse(Some((5, 5)), true, true, false));
    let first = ctx.interact(bg, everything, r(0, 0, 10, 10), Some(Id(1)), Sense::click());
    let second = ctx.interact(bg, everything, r(0, 0, 10, 10), Some(Id(2)), Sense::click());
    assert!(first.active);
    assert!(!second.active);
    assert_eq!(ctx.memory.active_id(), Some(Id(1)));
}

#[test]
fn release_over_active_widget_clicks_and_frees_next_frame() {
    let mut ctx = Context::new();
    let bg = LayerId::background();
    let everything = Rect::everything();
    ctx.begin_frame(mouse(Some((5, 5)), true, true, false));
    ctx.interact(bg, everything, r(0, 0, 10, 10), Some(Id(1)), Sense::click());
    ctx.begin_frame(mouse(Some((5, 5)), false, false, true));
    let resp = ctx.interact(bg, everything, r(0, 0, 10, 10), Some(Id(1)), Sense::click());
    assert!(resp.clicked);
    assert!(!resp.active);
    assert_eq!(ctx.memory.active_id(), Some(Id(1)));
    ctx.begin_frame(mouse(Some((5, 5)), false, false, false));
    assert_eq!(ctx.memory.active_id(), None);
    let resp = ctx.interact(bg, everything, r(0, 0, 10, 10), Some(Id(1)), Sense::click());
    assert!(!resp.clicked && !resp.active);
}

#[test]
fn widget_without_sense_only_hovers() {
    let mut ctx = Context::new();
    let bg = LayerId::background();
    ctx.begin_frame(mouse(Some((5, 5)), true, true, false));
    let resp = ctx.interact(bg, Rect::everything(), r(0, 0, 10, 10), Some(Id(1)), Sense::nothing());
    assert!(resp.hovered && !resp.active);
    let resp = ctx.interact(bg, Rect::everything(), r(0, 0, 10, 10), None, Sense::click());
    assert!(resp.hovered && !resp.active);
    assert_eq!(ctx.memory.active_id(), None);
}

#[test]
fn covered_widget_is_not_hovered() {
    let mut ctx = Context::new();
    let top = LayerId::new(Order::Middle, Id(77));
    ctx.memory.set_area(
        top,
        egui_core::memory::AreaState {
            pos: Pos2 { x: 0, y: 0 },
            size: Vec2 { x: 20, y: 20 },
            interactable: true,
            vel: Vec2 { x: 0, y: 0 },
        },
    );
    ctx.begin_frame(mouse(Some((5, 5)), true, true, false));
    assert_eq!(ctx.layer_under(Pos2 { x: 5, y: 5 }), top);
    let resp = ctx.interact(LayerId::background(), Rect::everything(), r(0, 0, 10, 10), Some(Id(1)), Sense::click());
    assert!(!resp.hovered && !resp.active);
    let resp = ctx.interact(top, Rect::everything(), r(0, 0, 10, 10), Some(Id(2)), Sense::click());
    assert!(resp.hovered && resp.active);
}

#[test]
fn tooltip_tier_never_catches_the_pointer() {
    let mut ctx = Context::new();
    let tip = LayerId::new(Order::Tooltip, Id(1));
    ctx.memory.set_area(
        tip,
        egui_core::memory::AreaState {
            pos: Pos2 { x: 0, y: 0 },
            size: Vec2 { x: 20, y: 20 },
            interactable: true,
            vel: Vec2 { x: 0, y: 0 },
        },
    );
    ctx.begin_frame(mouse(Some((5, 5)), true, true, false));
    assert_eq!(ctx.layer_under(Pos2 { x: 5, y: 5 }), LayerId::background());
    let resp = ctx.interact(tip, Rect::everything(), r(0, 0, 10, 10), Some(Id(2)), Sense::click());
    assert!(!resp.hovered && !resp.active);
}

#[test]
fn clip_rect_limits_hovering() {
    let mut ctx = Context::new();
    ctx.begin_frame(mouse(Some((8, 8)), false, false, false));
    let resp = ctx.interact(LayerId::background(), r(0, 0, 5, 5), r(0, 0, 10, 10), Some(Id(1)), Sense::click());
    assert!(!resp.hovered);
    assert!(!ctx.contains_mouse(LayerId::background(), r(0, 0, 5, 5), r(0, 0, 10, 10)));
    assert!(ctx.contains_mouse(LayerId::background(), Rect::everything(), r(0, 0, 10, 10)));
}

#[test]
fn request_repaint_sets_flag_until_next_frame() {
    let mut ctx = Context::new();
    assert!(!ctx.repaint_requested);
    ctx.request_repaint();
    assert!(ctx.repaint_requested);
    ctx.begin_frame(InputState::idle());
    assert!(!ctx.repaint_requested);
}
