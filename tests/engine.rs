use edmcoverlay::engine::{Command, Overlay};
use edmcoverlay::graphics_data::{Color, Drawable, Graphic, ShapeRect, Size};

fn rect(id: &str, ttl: isize) -> Graphic {
    Graphic {
        id: id.to_string(),
        ttl,
        drawable: Some(Drawable::Rectangle {
            shape: ShapeRect::Rect,
            x: 10,
            y: 10,
            w: 50,
            h: 50,
            fill: Color::try_from("red").unwrap(),
            color: Color::try_from("black").unwrap(),
        }),
    }
}

fn text(id: &str, ttl: isize) -> Graphic {
    Graphic {
        id: id.to_string(),
        ttl,
        drawable: Some(Drawable::Text {
            text: "hi".to_string(),
            size: Size::Normal,
            color: Color::try_from("#00ff00").unwrap(),
            x: 5,
            y: 5,
        }),
    }
}

fn deletion(id: &str) -> Graphic {
    Graphic { id: id.to_string(), ttl: 0, drawable: None }
}

fn keys(o: &Overlay) -> Vec<(usize, String, isize)> {
    o.snapshot().iter().map(|e| (e.client_id, e.graphic.id.clone(), e.graphic.ttl)).collect()
}

#[test]
fn new_overlay_is_empty() {
    let o = Overlay::new();
    assert!(o.snapshot().is_empty());
}

#[test]
fn rectangle_with_negative_ttl_never_expires() {
    let mut o = Overlay::new();
    let expired = o.handle_command(Command { client_id: 1, graphic: rect("r1", -1) });
    assert!(expired.is_empty());
    assert_eq!(keys(&o), vec![(1, "r1".to_string(), -1)]);
    assert!(matches!(o.snapshot()[0].graphic.drawable, Some(Drawable::Rectangle { x: 10, y: 10, w: 50, h: 50, .. })));
    for _ in 0..100 {
        assert!(o.tick().is_empty());
        assert_eq!(keys(&o), vec![(1, "r1".to_string(), -1)]);
    }
}

#[test]
fn text_with_ttl_two_expires_on_third_tick() {
    let mut o = Overlay::new();
    assert!(o.handle_command(Command { client_id: 3, graphic: text("t1", 2) }).is_empty());
    assert_eq!(keys(&o), vec![(3, "t1".to_string(), 2)]);
    assert!(o.tick().is_empty());
    assert_eq!(keys(&o), vec![(3, "t1".to_string(), 1)]);
    assert!(o.tick().is_empty());
    assert_eq!(keys(&o), vec![(3, "t1".to_string(), 0)]);
    let expired = o.tick();
    assert_eq!(expired.len(), 1);
    assert_eq!(expired[0].id, "t1");
    assert_eq!(expired[0].ttl, 0);
    assert!(o.snapshot().is_empty());
    assert!(o.tick().is_empty());
    assert!(o.snapshot().is_empty());
}

#[test]
fn zero_ttl_graphic_is_drawn_once_then_expires() {
    let mut o = Overlay::new();
    o.handle_command(Command { client_id: 1, graphic: text("z", 0) });
    assert_eq!(keys(&o), vec![(1, "z".to_string(), 0)]);
    assert_eq!(o.tick().len(), 1);
    assert!(o.snapshot().is_empty());
}

#[test]
fn replacement_expires_previous_once() {
    let mut o = Overlay::new();
    o.handle_command(Command { client_id: 1, graphic: rect("a", 5) });
    let expired = o.handle_command(Command { client_id: 1, graphic: text("a", 7) });
    assert_eq!(expired.len(), 1);
    assert_eq!(expired[0].ttl, 5);
    assert!(matches!(expired[0].drawable, Some(Drawable::Rectangle { .. })));
    assert_eq!(keys(&o), vec![(1, "a".to_string(), 7)]);
    assert!(matches!(o.snapshot()[0].graphic.drawable, Some(Drawable::Text { .. })));
    assert!(o.tick().is_empty());
    assert_eq!(keys(&o), vec![(1, "a".to_string(), 6)]);
}

#[test]
fn deletion_stores_marker_then_expires() {
    let mut o = Overlay::new();
    o.handle_command(Command { client_id: 2, graphic: rect("d", -1) });
    o.handle_command(Command { client_id: 2, graphic: text("keep", -1) });
    let expired = o.handle_command(Command { client_id: 2, graphic: deletion("d") });
    assert_eq!(expired.len(), 1);
    assert_eq!(expired[0].id, "d");
    assert!(matches!(expired[0].drawable, Some(Drawable::Rectangle { .. })));
    assert_eq!(keys(&o), vec![(2, "d".to_string(), 0), (2, "keep".to_string(), -1)]);
    assert!(o.snapshot()[0].graphic.drawable.is_none());
    let swept = o.tick();
    assert_eq!(swept.len(), 1);
    assert_eq!(swept[0].id, "d");
    assert!(swept[0].drawable.is_none());
    assert_eq!(keys(&o), vec![(2, "keep".to_string(), -1)]);
    assert!(o.tick().is_empty());
}

#[test]
fn deletion_of_unknown_key_stores_marker() {
    let mut o = Overlay::new();
    assert!(o.handle_command(Command { client_id: 2, graphic: deletion("nothing") }).is_empty());
    assert_eq!(keys(&o), vec![(2, "nothing".to_string(), 0)]);
    assert_eq!(o.tick().len(), 1);
    assert!(o.snapshot().is_empty());
}

#[test]
fn ttl_only_update_is_stored_as_is() {
    let mut o = Overlay::new();
    o.handle_command(Command { client_id: 1, graphic: rect("u", -1) });
    let expired = o.handle_command(Command { client_id: 1, graphic: Graphic { id: "u".to_string(), ttl: 4, drawable: None } });
    assert_eq!(expired.len(), 1);
    assert_eq!(keys(&o), vec![(1, "u".to_string(), 4)]);
    assert!(o.snapshot()[0].graphic.drawable.is_none());
}

#[test]
fn same_id_from_two_clients_does_not_collide() {
    let mut o = Overlay::new();
    o.handle_command(Command { client_id: 1, graphic: rect("x", -1) });
    let expired = o.handle_command(Command { client_id: 2, graphic: rect("x", 3) });
    assert!(expired.is_empty());
    assert_eq!(keys(&o), vec![(1, "x".to_string(), -1), (2, "x".to_string(), 3)]);
}

#[test]
fn tick_keeps_order_and_counts_down() {
    let mut o = Overlay::new();
    o.handle_command(Command { client_id: 1, graphic: text("a", 1) });
    o.handle_command(Command { client_id: 1, graphic: text("b", 0) });
    o.handle_command(Command { client_id: 1, graphic: text("c", -1) });
    o.handle_command(Command { client_id: 1, graphic: text("d", 0) });
    let expired = o.tick();
    let ids: Vec<String> = expired.iter().map(|g| g.id.clone()).collect();
    assert_eq!(ids, vec!["b".to_string(), "d".to_string()]);
    assert_eq!(keys(&o), vec![(1, "a".to_string(), 0), (1, "c".to_string(), -1)]);
}

#[test]
fn countdown_is_unaffected_by_other_keys() {
    let mut o = Overlay::new();
    o.handle_command(Command { client_id: 1, graphic: text("k", 2) });
    o.handle_command(Command { client_id: 2, graphic: text("k", -1) });
    assert!(o.tick().is_empty());
    o.handle_command(Command { client_id: 1, graphic: rect("other", 9) });
    o.handle_command(Command { client_id: 2, graphic: deletion("k") });
    assert!(o.tick().iter().all(|g| g.drawable.is_none()));
    assert_eq!(keys(&o)[0], (1, "k".to_string(), 0));
    let expired = o.tick();
    assert_eq!(expired.len(), 1);
    assert_eq!((expired[0].id.as_str(), expired[0].ttl), ("k", 0));
    assert!(keys(&o).iter().all(|k| !(k.0 == 1 && k.1 == "k")));
}
