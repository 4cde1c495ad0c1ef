use edmcoverlay::engine::Overlay;
use edmcoverlay::graphics_data::{Drawable, Graphic};
use edmcoverlay::intake::{route_line, LineOutcome};
use edmcoverlay::protocol::{decode_drawable, WireFields};

fn fields() -> WireFields {
    WireFields {
        shape: None,
        x: None,
        y: None,
        w: None,
        h: None,
        fill: None,
        color: None,
        vector: None,
        text: None,
        size: None,
    }
}

fn line(client_id: usize, id: &str, ttl: isize, f: WireFields) -> LineOutcome {
    let parsed = decode_drawable(f).ok().map(|drawable| Graphic { id: id.to_string(), ttl, drawable });
    route_line(client_id, parsed)
}

fn submit(o: &mut Overlay, outcome: LineOutcome) -> Vec<Graphic> {
    match outcome {
        LineOutcome::Submit(c) => o.handle_command(c),
        other => panic!("{:?}", other),
    }
}

#[test]
fn scenario_rectangle_never_expires() {
    let mut o = Overlay::new();
    let f = WireFields {
        shape: Some("rect".to_string()),
        x: Some(10),
        y: Some(10),
        w: Some(50),
        h: Some(50),
        fill: Some("red".to_string()),
        color: Some("black".to_string()),
        ..fields()
    };
    assert!(submit(&mut o, line(7, "r1", -1, f)).is_empty());
    for _ in 0..50 {
        assert!(o.tick().is_empty());
        let snap = o.snapshot();
        assert_eq!(snap.len(), 1);
        assert_eq!(snap[0].client_id, 7);
        assert_eq!(snap[0].graphic.id, "r1");
        assert!(matches!(snap[0].graphic.drawable, Some(Drawable::Rectangle { .. })));
    }
}

#[test]
fn scenario_text_lives_two_ticks() {
    let mut o = Overlay::new();
    let f = WireFields {
        text: Some("hi".to_string()),
        color: Some("#00ff00".to_string()),
        x: Some(5),
        y: Some(5),
        ..fields()
    };
    assert!(submit(&mut o, line(1, "t1", 2, f)).is_empty());
    assert!(o.tick().is_empty());
    assert_eq!(o.snapshot().len(), 1);
    assert!(o.tick().is_empty());
    assert_eq!(o.snapshot().len(), 1);
    let expired = o.tick();
    assert_eq!(expired.len(), 1);
    assert_eq!(expired[0].id, "t1");
    assert!(o.snapshot().is_empty());
    assert!(o.tick().is_empty());
    assert!(o.snapshot().is_empty());
}

#[test]
fn scenario_malformed_line_is_skipped() {
    let mut o = Overlay::new();
    assert!(matches!(route_line(1, None), LineOutcome::Malformed));
    let bad = WireFields { text: Some("x".to_string()), color: Some("nope".to_string()), x: Some(0), y: Some(0), ..fields() };
    assert!(matches!(line(1, "x", -1, bad), LineOutcome::Malformed));
    let good = WireFields { text: Some("ok".to_string()), color: Some("blue".to_string()), x: Some(1), y: Some(1), ..fields() };
    assert!(submit(&mut o, line(1, "x", -1, good)).is_empty());
    assert_eq!(o.snapshot().len(), 1);
}
