use egui_core::table_rows::{clock_emoji, DemoRows};

#[test]
fn demo_rows_heights() {
    let mut rows = DemoRows::new(8);
    let mut heights = Vec::new();
    while let Some(h) = rows.next() {
        heights.push(h);
    }
    assert_eq!(heights, vec![30, 18, 18, 18, 18, 18, 30, 18]);
    assert_eq!(rows.next(), None);
}

#[test]
fn demo_rows_empty() {
    let mut rows = DemoRows::new(0);
    assert_eq!(rows.next(), None);
}

#[test]
fn clock_emoji_cycles_through_faces() {
    assert_eq!(clock_emoji(0), "\u{1f550}");
    assert_eq!(clock_emoji(1), "\u{1f551}");
    assert_eq!(clock_emoji(23), "\u{1f567}");
    assert_eq!(clock_emoji(24), "\u{1f550}");
    assert_eq!(clock_emoji(25).chars().count(), 1);
}
