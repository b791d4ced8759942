use egui_core::id::Id;

#[test]
fn id_new_is_deterministic() {
    assert_eq!(Id::new("window"), Id::new("window"));
    assert_eq!(Id::new("window").value(), Id::new("window").value());
}

#[test]
fn id_with_is_deterministic_and_differs_from_parent() {
    let parent = Id::new("area");
    let a = parent.with("move");
    let b = parent.with("move");
    assert_eq!(a, b);
    assert_ne!(a, parent);
}

#[test]
fn id_with_distinct_inputs_give_distinct_ids() {
    let p1 = Id::new("first");
    let p2 = Id::new("second");
    assert_ne!(p1, p2);
    assert_ne!(p1.with("corner"), p1.with("move"));
    assert_ne!(p1.with("corner"), p2.with("corner"));
}

#[test]
fn id_fixed_values() {
    assert_eq!(Id::background(), Id(0));
    assert_eq!(Id::tooltip(), Id(1));
    assert_ne!(Id::background(), Id::tooltip());
}
