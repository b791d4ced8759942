use egui_core::context::{Context, InputState, MouseInput};
use egui_core::id::Id;
use egui_core::layers::{LayerId, Order};
use egui_core::math::{Pos2, Vec2};
use egui_core::popup::show_tooltip;

fn input(pos: Option<(i32, i32)>) -> InputState {
    InputState {
        mouse: MouseInput {
            pos: pos.map(|(x, y)| Pos2 { x, y }),
            down: false,
            pressed: false,
            released: false,
            delta: Vec2 { x: 0, y: 0 },
            velocity: Vec2 { x: 0, y: 0 },
        },
        screen_size: Vec2 { x: 800, y: 600 },
        dt_ms: 16,
    }
}

#[test]
fn tooltip_appears_next_to_pointer() {
    let mut ctx = Context::new();
    ctx.begin_frame(input(Some((10, 20))));
    show_tooltip(&mut ctx, Vec2 { x: 30, y: 10 });
    let s = ctx.memory.area(Id::tooltip()).unwrap();
    assert_eq!(s.pos, Pos2 { x: 26, y: 36 });
    assert!(!s.interactable);
    assert_eq!(ctx.memory.order().clone(), vec![LayerId::new(Order::Tooltip, Id::tooltip())]);
}

#[test]
fn no_tooltip_without_pointer() {
    let mut ctx = Context::new();
    ctx.begin_frame(input(None));
    show_tooltip(&mut ctx, Vec2 { x: 30, y: 10 });
    assert_eq!(ctx.memory.area(Id::tooltip()), None);
    assert!(ctx.memory.order().is_empty());
}
