use virtual_whiteboard::board::{Board, BoardMessage};
use virtual_whiteboard::canvas::ActiveCanvas;
use virtual_whiteboard::geometry::{Color, Point, Transform};
use virtual_whiteboard::ids::{ClientID, CounterU64, ItemID, SessionID};
use virtual_whiteboard::item::{Item, LocationUpdate, TextItem};
use virtual_whiteboard::manager::{canvas_from_items, load_action, BoardSlot, LoadAction};
use virtual_whiteboard::message::{BatchChanges, ClientInfo, ErrorCode, Result as WireResult};
use virtual_whiteboard::method::{
    Call, CreateItem, EditBatchItems, GetAllClientIDs, GetAllItemIDs, GetClientState, Methods,
    Responses, SelectionAddItems, SelectionMove, SelectionRemoveItems,
};
use virtual_whiteboard::notify_c::NotifyC;
use virtual_whiteboard::outbox::{MsgRecv, MsgSend, Outgoing};

fn text(s: &str) -> Item {
    Item::Text(TextItem { transform: Transform::identity(), text: s.to_string() })
}

fn shifted(x: u64) -> Transform {
    let mut t = Transform::identity();
    t.origin = Point { x, y: 0 };
    t
}

fn session(board: &mut Board, name: &str, out: &mut Vec<Outgoing>) -> ClientID {
    let info = board
        .handle_message(BoardMessage::SessionRequest(ClientInfo { name: name.to_string() }, SessionID(0)), 0, out)
        .unwrap();
    assert!(board.handle_message(BoardMessage::ClientConnected(info.client_id), 0, out).is_none());
    info.client_id
}

#[test]
fn session_requests_get_increasing_ids() {
    let mut first = Board::new_from_canvas(ActiveCanvas::new_empty());
    let mut second = Board::new_from_canvas(ActiveCanvas::new_empty());
    let mut sessions = CounterU64::new();
    let mut out = Vec::new();
    let s1 = SessionID::new(&mut sessions);
    let a = first
        .handle_message(BoardMessage::SessionRequest(ClientInfo { name: "a".to_string() }, s1), 0, &mut out)
        .unwrap();
    let s2 = SessionID::new(&mut sessions);
    let b = first
        .handle_message(BoardMessage::SessionRequest(ClientInfo { name: "b".to_string() }, s2), 0, &mut out)
        .unwrap();
    let s3 = SessionID::new(&mut sessions);
    let c = second
        .handle_message(BoardMessage::SessionRequest(ClientInfo { name: "c".to_string() }, s3), 0, &mut out)
        .unwrap();
    assert!(a.client_id.0 < b.client_id.0);
    assert_eq!((a.session_id, b.session_id, c.session_id), (s1, s2, s3));
    assert!(a.session_id.0 < b.session_id.0 && b.session_id.0 < c.session_id.0);
    assert_eq!(board_name(&first, a.client_id), "a");
    assert_eq!(first.client_snapshot(a.client_id).unwrap().selection_transform, Transform::identity());
    assert!(first.has_client(b.client_id));
    assert!(!first.has_client(ClientID(77)));
}

fn board_name(board: &Board, id: ClientID) -> String {
    board.client_snapshot(id).unwrap().info.name
}

#[test]
fn client_joined_goes_to_attached_clients() {
    let mut board = Board::new_from_canvas(ActiveCanvas::new_empty());
    let mut out = Vec::new();
    let a = session(&mut board, "a", &mut out);
    out.clear();
    board.handle_message(BoardMessage::SessionRequest(ClientInfo { name: "b".to_string() }, SessionID(0)), 0, &mut out);
    match &out[0] {
        Outgoing::Broadcast(to, MsgSend::NotifyC(NotifyC::ClientJoined(j))) => {
            assert_eq!(to, &vec![a]);
            assert_eq!(j.info.name, "b");
        }
        other => panic!("unexpected {:?}", other),
    }
}

#[test]
fn method_dispatch_and_listings() {
    let mut board = Board::new_from_canvas(ActiveCanvas::new_empty());
    let mut out = Vec::new();
    let a = session(&mut board, "a", &mut out);
    let b = session(&mut board, "b", &mut out);
    let create = MsgRecv::Method(Methods::CreateItem(Call { id: 1, params: CreateItem { item: text("x") } }));
    board.handle_message(BoardMessage::ClientMessage(a, create), 0, &mut out);
    out.clear();
    board.handle_method(a, Methods::GetAllItemIDs(Call { id: 2, params: GetAllItemIDs {} }), 0, &mut out);
    board.handle_method(a, Methods::GetAllClientIDs(Call { id: 3, params: GetAllClientIDs {} }), 0, &mut out);
    match &out[0] {
        Outgoing::Direct(_, MsgSend::Response(Responses::GetAllItemIDs(r))) => assert_eq!(r.value, vec![ItemID(1)]),
        other => panic!("unexpected {:?}", other),
    }
    match &out[1] {
        Outgoing::Direct(_, MsgSend::Response(Responses::GetAllClientIDs(r))) => assert_eq!(r.value, vec![a, b]),
        other => panic!("unexpected {:?}", other),
    }
}

#[test]
fn detached_client_gets_no_messages() {
    let mut board = Board::new_from_canvas(ActiveCanvas::new_empty());
    let mut out = Vec::new();
    let a = session(&mut board, "a", &mut out);
    board.handle_message(BoardMessage::ClientDisconnected(a), 0, &mut out);
    out.clear();
    board.handle_create_item(a, Call { id: 1, params: CreateItem { item: text("x") } }, &mut out);
    assert_eq!(out.len(), 1);
    match &out[0] {
        Outgoing::Broadcast(to, _) => assert!(to.is_empty()),
        other => panic!("unexpected {:?}", other),
    }
}

#[test]
fn batch_edit_answers_internal() {
    let mut board = Board::new_from_canvas(ActiveCanvas::new_empty());
    let mut out = Vec::new();
    let a = session(&mut board, "a", &mut out);
    out.clear();
    let params = EditBatchItems {
        ids: vec![ItemID(1), ItemID(2)],
        changes: BatchChanges { fill: Some(Color("red".to_string())), stroke: None },
    };
    board.handle_edit_batch_items(a, Call { id: 4, params }, &mut out);
    match &out[0] {
        Outgoing::Direct(_, MsgSend::Response(Responses::EditBatchItems(r))) => {
            assert_eq!(r.value.len(), 2);
            for v in &r.value {
                match v {
                    WireResult::Failure(e) => assert_eq!(e.code, ErrorCode::Internal),
                    other => panic!("unexpected {:?}", other),
                }
            }
        }
        other => panic!("unexpected {:?}", other),
    }
}

#[test]
fn client_state_and_selection_move() {
    let mut board = Board::new_from_canvas(ActiveCanvas::new_empty());
    let mut out = Vec::new();
    let a = session(&mut board, "a", &mut out);
    let b = session(&mut board, "b", &mut out);
    let x = board.handle_create_item(a, Call { id: 1, params: CreateItem { item: text("x") } }, &mut out);
    let y = board.handle_create_item(a, Call { id: 2, params: CreateItem { item: text("y") } }, &mut out);
    let params = SelectionAddItems { new_srt: shifted(1), old_sits: vec![], new_sits: vec![(y, shifted(2)), (x, shifted(3))] };
    board.handle_selection_add_items(a, Call { id: 3, params }, &mut out);
    out.clear();

    let params = SelectionMove { new_srt: shifted(9), new_sits: Some(vec![(x, shifted(4)), (ItemID(50), shifted(5))]) };
    board.handle_selection_move(a, Call { id: 4, params }, &mut out);
    assert!(matches!(&out[0], Outgoing::Direct(_, MsgSend::Reject(_))));
    match &out[1] {
        Outgoing::Broadcast(_, MsgSend::NotifyC(NotifyC::SelectionMoved(m))) => {
            assert_eq!(m.transform, shifted(9));
            assert_eq!(m.new_sits.as_ref().unwrap().len(), 1);
        }
        other => panic!("unexpected {:?}", other),
    }
    assert!(matches!(&out[2], Outgoing::Direct(_, MsgSend::Response(Responses::SelectionMove(_)))));
    out.clear();

    board.handle_get_client_state(b, Call { id: 5, params: GetClientState { client_id: a } }, &mut out);
    match &out[0] {
        Outgoing::Direct(to, MsgSend::Response(Responses::GetClientState(r))) => {
            assert_eq!(*to, b);
            assert_eq!(r.value.info.name, "a");
            assert_eq!(r.value.selection_transform, shifted(9));
            assert_eq!(r.value.selected_items, vec![(x, shifted(4)), (y, shifted(2))]);
        }
        other => panic!("unexpected {:?}", other),
    }
    out.clear();
    board.handle_get_client_state(b, Call { id: 6, params: GetClientState { client_id: ClientID(99) } }, &mut out);
    assert!(matches!(&out[0], Outgoing::Direct(_, MsgSend::Reject(_))));
}

#[test]
fn load_actions_follow_slot() {
    assert_eq!(load_action(None), LoadAction::CreateEntry);
    assert_eq!(load_action(Some(BoardSlot::Unloaded)), LoadAction::ReadStore);
    assert_eq!(load_action(Some(BoardSlot::Loaded { running: true })), LoadAction::Reuse);
    assert_eq!(load_action(Some(BoardSlot::Loaded { running: false })), LoadAction::Rebuild);
}

#[test]
fn stored_items_get_ids_in_order() {
    let canvas = canvas_from_items(vec![text("a"), text("b"), text("c")]);
    assert_eq!(canvas.get_item_ids(), vec![ItemID(1), ItemID(2), ItemID(3)]);
    match canvas.get_item(ItemID(2)) {
        Some(Item::Text(t)) => assert_eq!(t.text, "b"),
        other => panic!("unexpected {:?}", other),
    }
    let mut board = Board::new_from_canvas(canvas);
    assert_eq!(board.owner_of(ItemID(3)), Some(None));
    let mut out = Vec::new();
    let a = session(&mut board, "a", &mut out);
    let board = board.rebuild();
    assert_eq!(board.get_canvas().get_item_ids().len(), 3);
    assert!(!board.has_client(a));
    let mut board = board;
    let b = session(&mut board, "b", &mut out);
    assert!(b.0 > a.0);
}

#[test]
fn edit_counter_follows_mutations() {
    let mut canvas = ActiveCanvas::new_empty();
    let a = canvas.add_item(text("a"));
    assert_eq!(canvas.edit_count(), 1);
    canvas.replace_item(a, text("b"));
    assert_eq!(canvas.edit_count(), 2);
    assert!(canvas.apply_location_update(a, &LocationUpdate::Points(vec![])).is_err());
    assert_eq!(canvas.edit_count(), 2);
    canvas.delete_item(ItemID(40));
    assert_eq!(canvas.edit_count(), 2);
    canvas.delete_item(a);
    assert_eq!(canvas.edit_count(), 3);
}

#[test]
fn released_items_announce_their_location() {
    let mut board = Board::new_from_canvas(ActiveCanvas::new_empty());
    let mut out = Vec::new();
    let a = session(&mut board, "a", &mut out);
    let x = board.handle_create_item(a, Call { id: 1, params: CreateItem { item: text("x") } }, &mut out);
    let y = board.handle_create_item(a, Call { id: 2, params: CreateItem { item: text("y") } }, &mut out);
    let params = SelectionAddItems {
        new_srt: Transform::identity(),
        old_sits: vec![],
        new_sits: vec![(x, Transform::identity()), (y, Transform::identity())],
    };
    board.handle_selection_add_items(a, Call { id: 3, params }, &mut out);
    out.clear();
    let params = SelectionRemoveItems {
        items: vec![(x, LocationUpdate::Transform(shifted(7))), (y, LocationUpdate::Points(vec![]))],
    };
    board.handle_selection_remove_items(a, Call { id: 4, params }, &mut out);
    match out.last().unwrap() {
        Outgoing::Broadcast(_, MsgSend::NotifyC(NotifyC::SelectionItemsRemoved(n))) => {
            assert_eq!(n.items.len(), 2);
            assert!(matches!(&n.items[0], (i, LocationUpdate::Transform(t)) if *i == x && *t == shifted(7)));
            assert!(matches!(&n.items[1], (i, LocationUpdate::Transform(t)) if *i == y && *t == Transform::identity()));
        }
        other => panic!("unexpected {:?}", other),
    }
    assert_eq!(board.owner_of(x), Some(None));
    assert_eq!(board.owner_of(y), Some(None));
}
