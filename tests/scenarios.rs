use virtual_whiteboard::board::{Board, BoardMessage};
use virtual_whiteboard::canvas::ActiveCanvas;
use virtual_whiteboard::geometry::{Color, Point, SplineNode, Stroke, Transform};
use virtual_whiteboard::ids::{ClientID, ItemID, PathID, SessionID};
use virtual_whiteboard::item::{Item, LineItem, LocationUpdate, RectangleItem};
use virtual_whiteboard::iterate::{GetActivePath, GetFullItems, IterateCall, IterateResponses};
use virtual_whiteboard::message::{ClientInfo, ErrorCode, RejectLevel, RejectReason, Result as WireResult};
use virtual_whiteboard::method::{
    BeginPath, Call, ContinuePath, CreateItem, DeleteItems, EditSingleItem, EndPath,
    SelectionAddItems, SelectionRemoveItems, Responses,
};
use virtual_whiteboard::notify_c::NotifyC;
use virtual_whiteboard::outbox::{MsgSend, Outgoing};

fn stroke() -> Stroke {
    Stroke { width: 2.0f64.to_bits(), color: Color("black".to_string()) }
}

fn rectangle(x: f64) -> Item {
    let mut transform = Transform::identity();
    transform.origin = Point { x: x.to_bits(), y: 0 };
    Item::Rectangle(RectangleItem { transform, stroke: stroke(), fill: Color("red".to_string()) })
}

fn line() -> Item {
    Item::Line(LineItem {
        start: Point { x: 1.0f64.to_bits(), y: 2.0f64.to_bits() },
        end: Point { x: 3.0f64.to_bits(), y: 4.0f64.to_bits() },
        stroke: stroke(),
    })
}

fn node(i: u64) -> SplineNode {
    SplineNode { position: Point { x: i, y: i }, velocity: Point { x: 0, y: 0 } }
}

fn new_board() -> Board {
    Board::new_from_canvas(ActiveCanvas::new_empty())
}

fn join(board: &mut Board, name: &str, out: &mut Vec<Outgoing>) -> ClientID {
    let info = board
        .handle_message(BoardMessage::SessionRequest(ClientInfo { name: name.to_string() }, SessionID(0)), 0, out)
        .unwrap();
    board.set_connected(info.client_id, true);
    info.client_id
}

fn create(board: &mut Board, client: ClientID, item: Item, out: &mut Vec<Outgoing>) -> ItemID {
    board.handle_create_item(client, Call { id: 100, params: CreateItem { item } }, out)
}

fn select(board: &mut Board, client: ClientID, id: ItemID, out: &mut Vec<Outgoing>) {
    let params = SelectionAddItems {
        new_srt: Transform::identity(),
        old_sits: vec![],
        new_sits: vec![(id, Transform::identity())],
    };
    board.handle_selection_add_items(client, Call { id: 200, params }, out);
}

fn direct_to(out: &[Outgoing], client: ClientID) -> Vec<&MsgSend> {
    out.iter()
        .filter_map(|o| match o {
            Outgoing::Direct(c, m) if *c == client => Some(m),
            _ => None,
        })
        .collect()
}

fn broadcasts(out: &[Outgoing]) -> Vec<&NotifyC> {
    out.iter()
        .filter_map(|o| match o {
            Outgoing::Broadcast(_, MsgSend::NotifyC(n)) => Some(n),
            _ => None,
        })
        .collect()
}

#[test]
fn create_select_edit_delete() {
    let mut board = new_board();
    let mut out = Vec::new();
    let a = join(&mut board, "a", &mut out);
    out.clear();

    let id = create(&mut board, a, rectangle(1.0), &mut out);
    assert_eq!(id, ItemID(1));
    match &out[0] {
        Outgoing::Direct(c, MsgSend::Response(Responses::CreateItem(r))) => {
            assert_eq!(*c, a);
            assert_eq!(r.value, ItemID(1));
        }
        other => panic!("unexpected {:?}", other),
    }
    out.clear();

    let params = SelectionAddItems {
        new_srt: Transform::identity(),
        old_sits: vec![],
        new_sits: vec![(ItemID(1), Transform::identity())],
    };
    board.handle_selection_add_items(a, Call { id: 2, params }, &mut out);
    match &out[0] {
        Outgoing::Direct(_, MsgSend::Response(Responses::SelectionAddItems(r))) => {
            assert_eq!(r.value.len(), 1);
            assert!(matches!(r.value[0], WireResult::Success(())));
        }
        other => panic!("unexpected {:?}", other),
    }
    match &out[1] {
        Outgoing::Broadcast(to, MsgSend::NotifyC(NotifyC::SelectionItemsAdded(n))) => {
            assert_eq!(to, &vec![a]);
            assert_eq!(n.items, vec![ItemID(1)]);
        }
        other => panic!("unexpected {:?}", other),
    }
    out.clear();

    let params = EditSingleItem { item_id: ItemID(1), item: rectangle(5.0) };
    board.handle_edit_single_item(a, Call { id: 3, params }, &mut out);
    assert!(matches!(
        &out[0],
        Outgoing::Direct(_, MsgSend::Response(Responses::EditSingleItem(r))) if matches!(r.value, WireResult::Success(()))
    ));
    match board.get_canvas().get_item(ItemID(1)) {
        Some(Item::Rectangle(r)) => assert_eq!(r.transform.origin.x, 5.0f64.to_bits()),
        other => panic!("unexpected {:?}", other),
    }
    out.clear();

    board.handle_delete_items(a, Call { id: 4, params: DeleteItems { ids: vec![ItemID(1)] } }, &mut out);
    assert!(matches!(&out[0], Outgoing::Direct(_, MsgSend::Response(Responses::DeleteItems(_)))));
    match &out[1] {
        Outgoing::Broadcast(_, MsgSend::NotifyC(NotifyC::ItemsDeleted(n))) => assert_eq!(n.ids, vec![ItemID(1)]),
        other => panic!("unexpected {:?}", other),
    }
    assert!(board.get_canvas().get_item_ids().is_empty());
    assert!(board.owner_of(ItemID(1)).is_none());
    assert!(board.client_snapshot(a).unwrap().selected_items.is_empty());
}

#[test]
fn selection_conflict() {
    let mut board = new_board();
    let mut out = Vec::new();
    let a = join(&mut board, "a", &mut out);
    let b = join(&mut board, "b", &mut out);
    for i in 0..7 {
        create(&mut board, a, rectangle(i as f64), &mut out);
    }
    select(&mut board, a, ItemID(7), &mut out);
    let before = board.client_snapshot(b).unwrap();
    out.clear();

    let params = SelectionAddItems {
        new_srt: Transform::identity(),
        old_sits: vec![],
        new_sits: vec![(ItemID(7), Transform::identity())],
    };
    board.handle_selection_add_items(b, Call { id: 9, params }, &mut out);
    assert_eq!(out.len(), 1);
    match &out[0] {
        Outgoing::Direct(c, MsgSend::Response(Responses::SelectionAddItems(r))) => {
            assert_eq!(*c, b);
            assert_eq!(r.value.len(), 1);
            match &r.value[0] {
                WireResult::Failure(e) => assert_eq!(e.code, ErrorCode::NotAvailable),
                other => panic!("unexpected {:?}", other),
            }
        }
        other => panic!("unexpected {:?}", other),
    }
    assert!(broadcasts(&out).is_empty());
    let after = board.client_snapshot(b).unwrap();
    assert_eq!(after.selected_items, before.selected_items);
    assert_eq!(after.selection_transform, before.selection_transform);
    assert_eq!(board.owner_of(ItemID(7)), Some(Some(a)));
}

#[test]
fn unowned_edit_rejected() {
    let mut board = new_board();
    let mut out = Vec::new();
    let a = join(&mut board, "a", &mut out);
    let b = join(&mut board, "b", &mut out);
    for i in 0..3 {
        create(&mut board, a, rectangle(i as f64), &mut out);
    }
    out.clear();
    let params = EditSingleItem { item_id: ItemID(3), item: rectangle(9.0) };
    board.handle_edit_single_item(b, Call { id: 5, params }, &mut out);
    assert_eq!(out.len(), 1);
    match &out[0] {
        Outgoing::Direct(c, MsgSend::Reject(r)) => {
            assert_eq!(*c, b);
            assert_eq!(r.level, RejectLevel::Error);
            assert_eq!(r.request_protocol, "EditSingleItem");
            assert_eq!(r.request_id, Some(5));
            match &r.reason {
                RejectReason::ResourceNotOwned { resource_type, target_id } => {
                    assert_eq!(*resource_type, "Item");
                    assert_eq!(*target_id, 3);
                }
                other => panic!("unexpected {:?}", other),
            }
        }
        other => panic!("unexpected {:?}", other),
    }
}

#[test]
fn path_lifecycle_with_listener() {
    let mut board = new_board();
    let mut out = Vec::new();
    let a = join(&mut board, "a", &mut out);
    let b = join(&mut board, "b", &mut out);
    for i in 0..5 {
        create(&mut board, a, rectangle(i as f64), &mut out);
    }
    out.clear();

    let path = board.handle_begin_path(a, Call { id: 1, params: BeginPath { stroke: stroke() } }, 0, &mut out);
    assert_eq!(path, PathID(1));
    assert!(matches!(broadcasts(&out)[0], NotifyC::PathStarted(p) if p.path == PathID(1) && p.client == a));
    out.clear();

    board.handle_get_active_path(b, IterateCall { id: 7, params: GetActivePath { path: PathID(1) } }, &mut out);
    match direct_to(&out, b)[0] {
        MsgSend::IterateResponse(IterateResponses::GetActivePath(r)) => {
            assert_eq!(r.part, 0);
            assert!(!r.complete);
            assert!(r.items.is_empty());
        }
        other => panic!("unexpected {:?}", other),
    }
    out.clear();

    let points: Vec<SplineNode> = (1..=5).map(node).collect();
    board.handle_continue_path(a, Call { id: 2, params: ContinuePath { path_id: PathID(1), points: points.clone() } }, 100, &mut out);
    assert!(direct_to(&out, b).is_empty());
    out.clear();

    board.handle_continue_path(a, Call { id: 3, params: ContinuePath { path_id: PathID(1), points: vec![] } }, 800, &mut out);
    match direct_to(&out, b)[0] {
        MsgSend::IterateResponse(IterateResponses::GetActivePath(r)) => {
            assert_eq!(r.part, 1);
            assert!(!r.complete);
            assert_eq!(r.items, points);
        }
        other => panic!("unexpected {:?}", other),
    }
    out.clear();

    board.handle_end_path(a, Call { id: 4, params: EndPath { path_id: PathID(1) } }, &mut out);
    match direct_to(&out, b)[0] {
        MsgSend::IterateResponse(IterateResponses::GetActivePath(r)) => assert!(r.complete),
        other => panic!("unexpected {:?}", other),
    }
    match direct_to(&out, a).last().unwrap() {
        MsgSend::Response(Responses::EndPath(r)) => assert!(matches!(r.value, WireResult::Success(ItemID(6)))),
        other => panic!("unexpected {:?}", other),
    }
    match board.get_canvas().get_item(ItemID(6)) {
        Some(Item::Path(p)) => assert_eq!(p.path.points, points),
        other => panic!("unexpected {:?}", other),
    }
    assert_eq!(board.owner_of(ItemID(6)), Some(None));
    assert!(!board.has_path(PathID(1)));
    assert!(board.client_snapshot(a).unwrap().paths.is_empty());
}

#[test]
fn empty_path() {
    let mut board = new_board();
    let mut out = Vec::new();
    let a = join(&mut board, "a", &mut out);
    let path = board.handle_begin_path(a, Call { id: 1, params: BeginPath { stroke: stroke() } }, 0, &mut out);
    board.handle_get_active_path(a, IterateCall { id: 8, params: GetActivePath { path } }, &mut out);
    out.clear();
    board.handle_end_path(a, Call { id: 2, params: EndPath { path_id: path } }, &mut out);
    assert!(broadcasts(&out).is_empty());
    let to_a = direct_to(&out, a);
    match to_a[0] {
        MsgSend::IterateResponse(IterateResponses::GetActivePath(r)) => {
            assert!(r.complete);
            assert!(r.items.is_empty());
        }
        other => panic!("unexpected {:?}", other),
    }
    match to_a[1] {
        MsgSend::Response(Responses::EndPath(r)) => match &r.value {
            WireResult::Failure(e) => assert_eq!(e.code, ErrorCode::EmptyPath),
            other => panic!("unexpected {:?}", other),
        },
        other => panic!("unexpected {:?}", other),
    }
    assert!(board.get_canvas().get_item_ids().is_empty());
}

#[test]
fn location_type_mismatch() {
    let mut board = new_board();
    let mut out = Vec::new();
    let a = join(&mut board, "a", &mut out);
    for i in 0..3 {
        create(&mut board, a, rectangle(i as f64), &mut out);
    }
    let id = create(&mut board, a, line(), &mut out);
    assert_eq!(id, ItemID(4));
    select(&mut board, a, id, &mut out);
    out.clear();

    let params = SelectionRemoveItems { items: vec![(id, LocationUpdate::Transform(Transform::identity()))] };
    board.handle_selection_remove_items(a, Call { id: 6, params }, &mut out);
    let to_a = direct_to(&out, a);
    match to_a[0] {
        MsgSend::Reject(r) => {
            assert_eq!(r.level, RejectLevel::Warning);
            match &r.reason {
                RejectReason::IncorrectType { key, expected, received } => {
                    assert_eq!(key.as_deref(), Some("4"));
                    assert_eq!(*expected, "Point[2]");
                    assert_eq!(received, "Transform");
                }
                other => panic!("unexpected {:?}", other),
            }
        }
        other => panic!("unexpected {:?}", other),
    }
    match to_a[1] {
        MsgSend::Response(Responses::SelectionRemoveItems(r)) => match &r.value {
            WireResult::Failure(e) => assert_eq!(e.code, ErrorCode::BadData),
            other => panic!("unexpected {:?}", other),
        },
        other => panic!("unexpected {:?}", other),
    }
    match board.get_canvas().get_item(id) {
        Some(Item::Line(l)) => {
            assert_eq!(l.start, Point { x: 1.0f64.to_bits(), y: 2.0f64.to_bits() });
            assert_eq!(l.end, Point { x: 3.0f64.to_bits(), y: 4.0f64.to_bits() });
        }
        other => panic!("unexpected {:?}", other),
    }
}

#[test]
fn full_items_stream_in_order() {
    let mut board = new_board();
    let mut out = Vec::new();
    let a = join(&mut board, "a", &mut out);
    for i in 0..20 {
        create(&mut board, a, rectangle(i as f64), &mut out);
    }
    out.clear();
    let ids: Vec<ItemID> = (0..40).map(|i| ItemID(i)).collect();
    board.handle_get_full_items(a, IterateCall { id: 3, params: GetFullItems { ids: ids.clone() } }, &mut out);
    let mut items = Vec::new();
    let mut completes = 0;
    let parts = direct_to(&out, a);
    for (n, m) in parts.iter().enumerate() {
        match m {
            MsgSend::IterateResponse(IterateResponses::GetFullItems(r)) => {
                assert_eq!(r.part as usize, n);
                if n + 1 < parts.len() {
                    assert_eq!(r.items.len(), 16);
                } else {
                    assert_eq!(r.items.len(), 8);
                }
                if r.complete {
                    completes += 1;
                    assert_eq!(n, parts.len() - 1);
                }
                for it in &r.items {
                    items.push(match it {
                        WireResult::Success((id, _)) => Some(*id),
                        WireResult::Failure(e) => {
                            assert_eq!(e.code, ErrorCode::NotFound);
                            None
                        }
                    });
                }
            }
            other => panic!("unexpected {:?}", other),
        }
    }
    assert_eq!(completes, 1);
    assert_eq!(parts.len(), 3);
    let expected: Vec<Option<ItemID>> =
        ids.iter().map(|id| if id.0 >= 1 && id.0 <= 20 { Some(*id) } else { None }).collect();
    assert_eq!(items, expected);
}

#[test]
fn broadcast_reaches_attached_clients_only() {
    let mut board = new_board();
    let mut out = Vec::new();
    let a = join(&mut board, "a", &mut out);
    let b = join(&mut board, "b", &mut out);
    let c = join(&mut board, "c", &mut out);
    board.set_connected(b, false);
    out.clear();
    create(&mut board, c, rectangle(0.0), &mut out);
    match &out[1] {
        Outgoing::Broadcast(to, MsgSend::NotifyC(NotifyC::ItemCreated(n))) => {
            assert_eq!(to, &vec![a, c]);
            assert_eq!(n.client, c);
            assert_eq!(n.id, ItemID(1));
        }
        other => panic!("unexpected {:?}", other),
    }
}

#[test]
fn selection_exclusive_after_operations() {
    let mut board = new_board();
    let mut out = Vec::new();
    let a = join(&mut board, "a", &mut out);
    let b = join(&mut board, "b", &mut out);
    let x = create(&mut board, a, rectangle(0.0), &mut out);
    let y = create(&mut board, a, rectangle(1.0), &mut out);
    select(&mut board, a, x, &mut out);
    select(&mut board, b, x, &mut out);
    select(&mut board, b, y, &mut out);
    let sa: Vec<ItemID> = board.client_snapshot(a).unwrap().selected_items.iter().map(|e| e.0).collect();
    let sb: Vec<ItemID> = board.client_snapshot(b).unwrap().selected_items.iter().map(|e| e.0).collect();
    assert_eq!(sa, vec![x]);
    assert_eq!(sb, vec![y]);
    let params = SelectionRemoveItems { items: vec![(x, LocationUpdate::Transform(Transform::identity()))] };
    board.handle_selection_remove_items(a, Call { id: 1, params }, &mut out);
    select(&mut board, b, x, &mut out);
    let sa = board.client_snapshot(a).unwrap().selected_items;
    let sb: Vec<ItemID> = board.client_snapshot(b).unwrap().selected_items.iter().map(|e| e.0).collect();
    assert!(sa.is_empty());
    assert_eq!(sb, vec![x, y]);
    assert_eq!(board.owner_of(x), Some(Some(b)));
}

#[test]
fn index_follows_canvas() {
    let mut board = new_board();
    let mut out = Vec::new();
    let a = join(&mut board, "a", &mut out);
    let x = create(&mut board, a, rectangle(0.0), &mut out);
    let y = create(&mut board, a, rectangle(1.0), &mut out);
    assert_eq!(board.owner_of(x), Some(None));
    assert_eq!(board.owner_of(y), Some(None));
    select(&mut board, a, x, &mut out);
    board.handle_delete_items(a, Call { id: 1, params: DeleteItems { ids: vec![x, y] } }, &mut out);
    assert_eq!(board.owner_of(x), None);
    assert_eq!(board.owner_of(y), Some(None));
    assert_eq!(board.get_canvas().get_item_ids(), vec![y]);
}

#[test]
fn path_listed_by_owner_until_end() {
    let mut board = new_board();
    let mut out = Vec::new();
    let a = join(&mut board, "a", &mut out);
    let b = join(&mut board, "b", &mut out);
    let p = board.handle_begin_path(a, Call { id: 1, params: BeginPath { stroke: stroke() } }, 0, &mut out);
    let q = board.handle_begin_path(a, Call { id: 2, params: BeginPath { stroke: stroke() } }, 0, &mut out);
    assert!(p.0 < q.0);
    assert_eq!(board.client_snapshot(a).unwrap().paths, vec![p, q]);
    assert!(board.client_snapshot(b).unwrap().paths.is_empty());
    out.clear();
    board.handle_end_path(b, Call { id: 3, params: EndPath { path_id: p } }, &mut out);
    assert!(board.has_path(p));
    assert!(matches!(&out[0], Outgoing::Direct(_, MsgSend::Reject(r)) if matches!(r.reason, RejectReason::ResourceNotOwned { .. })));
    board.handle_continue_path(a, Call { id: 4, params: ContinuePath { path_id: p, points: vec![node(1)] } }, 10, &mut out);
    board.handle_end_path(a, Call { id: 5, params: EndPath { path_id: p } }, &mut out);
    assert!(!board.has_path(p));
    assert_eq!(board.client_snapshot(a).unwrap().paths, vec![q]);
}

#[test]
fn missing_path_rejected() {
    let mut board = new_board();
    let mut out = Vec::new();
    let a = join(&mut board, "a", &mut out);
    out.clear();
    board.handle_continue_path(a, Call { id: 4, params: ContinuePath { path_id: PathID(9), points: vec![] } }, 0, &mut out);
    match &out[0] {
        Outgoing::Direct(_, MsgSend::Reject(r)) => match &r.reason {
            RejectReason::NonExistentID { id_type, value } => {
                assert_eq!(*id_type, "Path");
                assert_eq!(*value, 9);
            }
            other => panic!("unexpected {:?}", other),
        },
        other => panic!("unexpected {:?}", other),
    }
}
