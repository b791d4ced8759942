use egui_core::graphics::GraphicLayers;
use egui_core::id::Id;
use egui_core::layers::{LayerId, Order, PaintCmd, PaintList, Stroke};
use egui_core::math::{Pos2, Rect, Vec2};

fn rect(x0: i32, y0: i32, x1: i32, y1: i32) -> Rect {
    Rect { min: Pos2 { x: x0, y: y0 }, max: Pos2 { x: x1, y: y1 } }
}

fn line(n: i32) -> PaintCmd {
    PaintCmd::LineSegment { a: Pos2 { x: n, y: 0 }, b: Pos2 { x: 0, y: n }, stroke: Stroke { width: 1, color: 0 } }
}

#[test]
fn order_interaction() {
    assert!(Order::Background.allow_interaction());
    assert!(Order::Middle.allow_interaction());
    assert!(Order::Foreground.allow_interaction());
    assert!(!Order::Tooltip.allow_interaction());
    assert!(Order::Debug.allow_interaction());
    assert!(LayerId::new(Order::Middle, Id(7)).allow_interaction());
    assert!(!LayerId::new(Order::Tooltip, Id(7)).allow_interaction());
}

#[test]
fn layer_ids_of_background_and_debug() {
    assert_eq!(LayerId::background(), LayerId { order: Order::Background, id: Id(0) });
    assert_eq!(LayerId::debug(), LayerId { order: Order::Debug, id: Id::new("debug") });
}

#[test]
fn paint_list_add_then_set_replaces_placeholder() {
    let mut list = PaintList::new();
    assert!(list.is_empty());
    let clip = rect(0, 0, 100, 100);
    let idx = list.add(clip, PaintCmd::Noop);
    list.add(clip, line(1));
    assert_eq!(idx.get(), 0);
    assert_eq!(list.len(), 2);
    list.set(idx, rect(1, 1, 2, 2), line(5));
    assert_eq!(list.get(0), (rect(1, 1, 2, 2), line(5)));
    assert_eq!(list.get(1), (clip, line(1)));
}

#[test]
fn paint_list_extend_keeps_order() {
    let mut list = PaintList::new();
    let clip = rect(0, 0, 10, 10);
    list.add(clip, PaintCmd::Noop);
    list.extend(clip, vec![line(1), line(2), line(3)]);
    assert_eq!(list.len(), 4);
    assert_eq!(list.get(1).1, line(1));
    assert_eq!(list.get(3).1, line(3));
}

#[test]
fn paint_list_translate_moves_everything() {
    let mut list = PaintList::new();
    list.add(rect(0, 0, 10, 10), line(3));
    list.translate(Vec2 { x: 5, y: -2 });
    assert_eq!(list.get(0).0, rect(5, -2, 15, 8));
    assert_eq!(
        list.get(0).1,
        PaintCmd::LineSegment { a: Pos2 { x: 8, y: -2 }, b: Pos2 { x: 5, y: 1 }, stroke: Stroke { width: 1, color: 0 } }
    );
}

#[test]
fn paint_list_translate_saturates() {
    let mut list = PaintList::new();
    list.add(rect(i32::MAX - 1, 0, i32::MAX, 0), PaintCmd::Noop);
    list.translate(Vec2 { x: 10, y: 0 });
    assert_eq!(list.get(0).0, rect(i32::MAX, 0, i32::MAX, 0));
}

#[test]
fn drain_follows_tiers_then_explicit_order() {
    let mut layers = GraphicLayers::new();
    let clip = rect(0, 0, 1, 1);
    let a = LayerId::new(Order::Middle, Id(10));
    let b = LayerId::new(Order::Middle, Id(11));
    let bg = LayerId::new(Order::Background, Id(12));
    let tip = LayerId::new(Order::Tooltip, Id(13));
    layers.add(tip, clip, line(4));
    layers.add(a, clip, line(1));
    layers.add(b, clip, line(2));
    layers.add(bg, clip, line(3));
    layers.add(a, clip, line(5));
    let out = layers.drain(&[b, a]);
    let cmds: Vec<PaintCmd> = out.iter().map(|(_, c)| *c).collect();
    assert_eq!(cmds, vec![line(3), line(2), line(1), line(5), line(4)]);
}

#[test]
fn drain_paints_each_buffer_once_even_if_named_twice() {
    let mut layers = GraphicLayers::new();
    let clip = rect(0, 0, 1, 1);
    let a = LayerId::new(Order::Middle, Id(10));
    layers.add(a, clip, line(1));
    let out = layers.drain(&[a, a, a]);
    assert_eq!(out.len(), 1);
}

#[test]
fn drain_includes_layers_missing_from_order() {
    let mut layers = GraphicLayers::new();
    let clip = rect(0, 0, 1, 1);
    let a = LayerId::new(Order::Foreground, Id(20));
    let b = LayerId::new(Order::Foreground, Id(21));
    layers.add(a, clip, line(1));
    layers.add(b, clip, line(2));
    let out = layers.drain(&[b]);
    let cmds: Vec<PaintCmd> = out.iter().map(|(_, c)| *c).collect();
    assert_eq!(cmds, vec![line(2), line(1)]);
}

#[test]
fn drain_prunes_buffers_left_empty_for_a_frame() {
    let mut layers = GraphicLayers::new();
    let clip = rect(0, 0, 1, 1);
    let a = LayerId::new(Order::Middle, Id(30));
    let b = LayerId::new(Order::Middle, Id(31));
    layers.add(a, clip, line(1));
    layers.add(b, clip, line(2));
    assert_eq!(layers.drain(&[a, b]).len(), 2);
    // Both buffers survive their first drain, emptied.
    assert!(layers.has_list(a));
    assert!(layers.has_list(b));
    // Next frame only `b` gets a command.
    layers.add(b, clip, line(3));
    assert_eq!(layers.drain(&[a, b]), vec![(clip, line(3))]);
    assert!(!layers.has_list(a));
    assert!(layers.has_list(b));
}

#[test]
fn set_through_layers_replaces_command() {
    let mut layers = GraphicLayers::new();
    let clip = rect(0, 0, 1, 1);
    let a = LayerId::new(Order::Middle, Id(40));
    let idx = layers.add(a, clip, PaintCmd::Noop);
    layers.add(a, clip, line(2));
    layers.set(a, idx, clip, line(1));
    let out = layers.drain(&[a]);
    assert_eq!(out, vec![(clip, line(1)), (clip, line(2))]);
}

#[test]
fn list_creates_buffer_on_first_use() {
    let mut layers = GraphicLayers::new();
    let a = LayerId::new(Order::Debug, Id(50));
    assert!(!layers.has_list(a));
    assert!(layers.list(a).is_empty());
    assert!(layers.has_list(a));
    let clip = rect(0, 0, 3, 3);
    layers.list(a).add(clip, line(9));
    assert_eq!(layers.list(a).len(), 1);
    assert_eq!(layers.drain(&[]), vec![(clip, line(9))]);
}
