use egui_core::id::Id;
use egui_core::layers::{LayerId, Order};
use egui_core::math::{Pos2, Vec2};
use egui_core::memory::{AreaState, Memory, ResizeState};

fn state(x: i32, y: i32, w: i32, h: i32, interactable: bool) -> AreaState {
    AreaState { pos: Pos2 { x, y }, size: Vec2 { x: w, y: h }, interactable, vel: Vec2 { x: 0, y: 0 } }
}

#[test]
fn store_round_trip_for_areas() {
    let mut m = Memory::new();
    let l = LayerId::new(Order::Middle, Id(5));
    assert_eq!(m.area(Id(5)), None);
    let s = state(3, 4, 10, 20, true);
    m.set_area(l, s);
    assert_eq!(m.area(Id(5)), Some(s));
    let s2 = state(7, 8, 1, 2, false);
    m.set_area(l, s2);
    assert_eq!(m.area(Id(5)), Some(s2));
}

#[test]
fn store_round_trip_for_resizable_regions() {
    let mut m = Memory::new();
    let s = ResizeState {
        desired_size: Vec2 { x: 100, y: 50 },
        last_content_size: Vec2 { x: 80, y: 40 },
        requested_size: Some(Vec2 { x: 1, y: 2 }),
    };
    assert_eq!(m.resize_state(Id(9)), None);
    m.set_resize_state(Id(9), s);
    assert_eq!(m.resize_state(Id(9)), Some(s));
    assert_eq!(m.area(Id(9)), None);
}

#[test]
fn move_to_top_reorders() {
    let mut m = Memory::new();
    let a = LayerId::new(Order::Middle, Id(1));
    let b = LayerId::new(Order::Middle, Id(2));
    let c = LayerId::new(Order::Middle, Id(3));
    m.move_to_top(a);
    m.move_to_top(b);
    m.move_to_top(c);
    assert_eq!(m.order().clone(), vec![a, b, c]);
    m.move_to_top(a);
    assert_eq!(m.order().clone(), vec![b, c, a]);
    m.move_to_top(b);
    m.move_to_top(a);
    assert_eq!(m.order().clone(), vec![c, b, a]);
}

#[test]
fn set_area_adds_new_area_on_top_once() {
    let mut m = Memory::new();
    let a = LayerId::new(Order::Middle, Id(1));
    let b = LayerId::new(Order::Middle, Id(2));
    m.set_area(a, state(0, 0, 1, 1, true));
    m.set_area(b, state(0, 0, 1, 1, true));
    m.set_area(a, state(5, 5, 1, 1, true));
    assert_eq!(m.order().clone(), vec![a, b]);
    m.move_to_top(a);
    m.set_area(a, state(6, 6, 1, 1, true));
    assert_eq!(m.order().clone(), vec![b, a]);
}

#[test]
fn layer_at_prefers_higher_tier_then_later_in_stack() {
    let mut m = Memory::new();
    let low = LayerId::new(Order::Middle, Id(1));
    let low2 = LayerId::new(Order::Middle, Id(2));
    let fg = LayerId::new(Order::Foreground, Id(3));
    let tip = LayerId::new(Order::Tooltip, Id(4));
    m.set_area(fg, state(0, 0, 50, 50, true));
    m.set_area(low, state(0, 0, 100, 100, true));
    m.set_area(low2, state(0, 0, 100, 100, true));
    m.set_area(tip, state(0, 0, 100, 100, true));
    assert_eq!(m.layer_at(Pos2 { x: 10, y: 10 }), Some(fg));
    assert_eq!(m.layer_at(Pos2 { x: 80, y: 80 }), Some(low2));
    m.move_to_top(low);
    assert_eq!(m.layer_at(Pos2 { x: 80, y: 80 }), Some(low));
    assert_eq!(m.layer_at(Pos2 { x: 500, y: 500 }), None);
}

#[test]
fn layer_at_skips_areas_that_let_clicks_through() {
    let mut m = Memory::new();
    let a = LayerId::new(Order::Middle, Id(1));
    let b = LayerId::new(Order::Middle, Id(2));
    m.set_area(a, state(0, 0, 100, 100, true));
    m.set_area(b, state(0, 0, 100, 100, false));
    assert_eq!(m.layer_at(Pos2 { x: 5, y: 5 }), Some(a));
}

#[test]
fn visibility_moves_to_last_frame_at_end_of_frame() {
    let mut m = Memory::new();
    let a = LayerId::new(Order::Middle, Id(1));
    m.set_area(a, state(0, 0, 10, 10, true));
    assert!(!m.visible_last_frame(&a));
    assert!(m.is_visible(&a));
    m.end_frame();
    assert!(m.visible_last_frame(&a));
    m.end_frame();
    assert!(!m.visible_last_frame(&a));
    assert!(!m.is_visible(&a));
    assert_eq!(m.layer_at(Pos2 { x: 5, y: 5 }), None);
}
