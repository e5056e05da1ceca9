use virtual_whiteboard::canvas::ActiveCanvas;
use virtual_whiteboard::geometry::{Color, Point, Spline, SplineNode, Stroke, Transform, ONE_BITS};
use virtual_whiteboard::ids::{ClientID, CounterU64, ItemID, PathID, SessionID};
use virtual_whiteboard::item::{Item, LineItem, LocationUpdate, PathItem, PolygonItem, TextItem};
use virtual_whiteboard::message::{non_existent_id, resource_not_owned, Error, ErrorCode, RejectReason};
use virtual_whiteboard::notify_c::{ItemsDeleted, NotifyC, NotifyCType};
use virtual_whiteboard::outbox::MsgSend;

fn stroke() -> Stroke {
    Stroke { width: 1.5f64.to_bits(), color: Color("blue".to_string()) }
}

fn p(x: f64, y: f64) -> Point {
    Point { x: x.to_bits(), y: y.to_bits() }
}

fn moved(x: f64) -> Transform {
    let mut t = Transform::identity();
    t.origin = p(x, x);
    t
}

#[test]
fn transform_item_takes_transform() {
    let mut item = Item::Text(TextItem { transform: Transform::identity(), text: "hi".to_string() });
    let r = item.apply_location_update(ItemID(2), &LocationUpdate::Transform(moved(3.0)));
    assert!(r.is_ok());
    match item {
        Item::Text(t) => assert_eq!(t.transform, moved(3.0)),
        other => panic!("unexpected {:?}", other),
    }
}

#[test]
fn transform_item_refuses_points() {
    let mut item = Item::Text(TextItem { transform: moved(1.0), text: "hi".to_string() });
    let r = item.apply_location_update(ItemID(12), &LocationUpdate::Points(vec![p(0.0, 0.0)]));
    match r {
        Err((LocationUpdate::Transform(t), RejectReason::IncorrectType { key, expected, received })) => {
            assert_eq!(t, moved(1.0));
            assert_eq!(key.as_deref(), Some("12"));
            assert_eq!(expected, "Transform");
            assert_eq!(received, "Point[]");
        }
        other => panic!("unexpected {:?}", other),
    }
    match item {
        Item::Text(t) => assert_eq!(t.transform, moved(1.0)),
        other => panic!("unexpected {:?}", other),
    }
}

#[test]
fn line_takes_exactly_two_points() {
    let mut item = Item::Line(LineItem { start: p(0.0, 0.0), end: p(1.0, 1.0), stroke: stroke() });
    let r = item.apply_location_update(ItemID(5), &LocationUpdate::Points(vec![p(2.0, 2.0), p(3.0, 3.0)]));
    assert!(r.is_ok());
    match &item {
        Item::Line(l) => {
            assert_eq!(l.start, p(2.0, 2.0));
            assert_eq!(l.end, p(3.0, 3.0));
        }
        other => panic!("unexpected {:?}", other),
    }
    let r = item.apply_location_update(ItemID(5), &LocationUpdate::Points(vec![p(9.0, 9.0)]));
    match r {
        Err((LocationUpdate::Points(cur), RejectReason::IncorrectType { key, expected, received })) => {
            assert_eq!(cur, vec![p(2.0, 2.0), p(3.0, 3.0)]);
            assert_eq!(key.as_deref(), Some("5"));
            assert_eq!(expected, "Point[2]");
            assert_eq!(received, "Point[]");
        }
        other => panic!("unexpected {:?}", other),
    }
}

#[test]
fn polygon_takes_points_not_transform() {
    let mut item = Item::Polygon(PolygonItem { points: vec![p(0.0, 0.0)], stroke: stroke(), fill: Color("red".to_string()) });
    let pts = vec![p(1.0, 0.0), p(0.0, 1.0), p(1.0, 1.0)];
    assert!(item.apply_location_update(ItemID(1), &LocationUpdate::Points(pts.clone())).is_ok());
    match item.apply_location_update(ItemID(1), &LocationUpdate::Transform(moved(2.0))) {
        Err((LocationUpdate::Points(cur), RejectReason::IncorrectType { expected, received, .. })) => {
            assert_eq!(cur, pts);
            assert_eq!(expected, "Point[]");
            assert_eq!(received, "Transform");
        }
        other => panic!("unexpected {:?}", other),
    }
}

#[test]
fn path_item_location_round_trip() {
    let mut item = Item::Path(PathItem {
        transform: Transform::identity(),
        path: Spline { points: vec![SplineNode { position: p(0.0, 0.0), velocity: p(1.0, 0.0) }] },
        stroke: stroke(),
    });
    assert!(item.apply_location_update(ItemID(1), &LocationUpdate::Transform(moved(7.0))).is_ok());
    match item.apply_location_update(ItemID(1), &LocationUpdate::Points(vec![])) {
        Err((LocationUpdate::Transform(t), _)) => assert_eq!(t, moved(7.0)),
        other => panic!("unexpected {:?}", other),
    }
}

#[test]
fn canvas_ids_increase_and_delete() {
    let mut canvas = ActiveCanvas::new_empty();
    let a = canvas.add_item(Item::Text(TextItem { transform: Transform::identity(), text: "a".to_string() }));
    let b = canvas.add_item(Item::Text(TextItem { transform: Transform::identity(), text: "b".to_string() }));
    assert_eq!(a, ItemID(1));
    assert_eq!(b, ItemID(2));
    assert_eq!(canvas.edit_count(), 2);
    canvas.delete_item(a);
    canvas.delete_item(ItemID(99));
    assert_eq!(canvas.get_item_ids(), vec![b]);
    assert!(canvas.get_item(a).is_none());
    let c = canvas.add_item(Item::Text(TextItem { transform: Transform::identity(), text: "c".to_string() }));
    assert_eq!(c, ItemID(3));
    let scanned: Vec<ItemID> = canvas.scan_items().iter().map(|e| e.0).collect();
    assert_eq!(scanned, vec![b, c]);
}

#[test]
fn counters_hand_out_increasing_ids() {
    let mut counter = CounterU64::new();
    assert_eq!(counter.get(), 0);
    assert_eq!(counter.next(), 0);
    assert_eq!(counter.next(), 1);
    assert_eq!(counter.get(), 2);
    let mut ids = CounterU64::starting_at(5);
    let c1 = ClientID::new(&mut ids);
    let c2 = ClientID::new(&mut ids);
    assert_eq!(c1, ClientID(5));
    assert!(c1 < c2);
    let s1 = SessionID::new(&mut ids);
    let path1 = PathID::new(&mut ids);
    assert_eq!(s1, SessionID(7));
    assert_eq!(path1, PathID(8));
}

#[test]
fn identity_transform_bits() {
    let t = Transform::identity();
    assert_eq!(f64::from_bits(t.basis_x.x), 1.0);
    assert_eq!(f64::from_bits(t.basis_y.y), 1.0);
    assert_eq!(t.origin, p(0.0, 0.0));
    assert_eq!(ONE_BITS, 1.0f64.to_bits());
}

#[test]
fn reject_helpers() {
    match resource_not_owned(ItemID(3)) {
        RejectReason::ResourceNotOwned { resource_type, target_id } => {
            assert_eq!(resource_type, "Item");
            assert_eq!(target_id, 3);
        }
        other => panic!("unexpected {:?}", other),
    }
    match non_existent_id(ClientID(4)) {
        RejectReason::NonExistentID { id_type, value } => {
            assert_eq!(id_type, "Client");
            assert_eq!(value, 4);
        }
        other => panic!("unexpected {:?}", other),
    }
}

#[test]
fn error_presets() {
    let e = Error::internal();
    assert_eq!(e.code, ErrorCode::Internal);
    assert!(e.msg.is_none());
    let e = Error::code(ErrorCode::NotFound);
    assert_eq!(e.code, ErrorCode::NotFound);
}

#[test]
fn notify_wraps_into_message() {
    let n = ItemsDeleted { ids: vec![ItemID(1)] }.as_notify();
    match n.as_msg() {
        MsgSend::NotifyC(NotifyC::ItemsDeleted(d)) => assert_eq!(d.ids, vec![ItemID(1)]),
        other => panic!("unexpected {:?}", other),
    }
}
