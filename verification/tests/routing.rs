use signaling::clients::ClientRegistry;
use signaling::message::{Delivery, OutboundMessage, SignalMessage};
use signaling::rooms::RoomRegistry;
use signaling::session::Session;

fn s(x: &str) -> String {
    x.to_string()
}

fn msg(action: &str, room_id: Option<&str>, target: Option<&str>, data: &str, sender: &str) -> SignalMessage {
    SignalMessage {
        action: s(action),
        room_id: room_id.map(|r| s(r)),
        target: target.map(|t| s(t)),
        data: s(data),
        sender: s(sender),
    }
}

/// A world of registered connections with chosen identities.
fn world(ids: &[&str]) -> (ClientRegistry<u32>, RoomRegistry, Vec<Session>) {
    let mut clients: ClientRegistry<u32> = ClientRegistry::new();
    let mut sessions = Vec::new();
    for (n, id) in ids.iter().enumerate() {
        clients.register(s(id), n as u32);
        sessions.push(Session::with_id(s(id)));
    }
    (clients, RoomRegistry::new(), sessions)
}

#[test]
fn join_then_relay() {
    let (clients, mut rooms, mut sessions) = world(&["A", "B"]);
    let mut sb = sessions.pop().unwrap();
    let mut sa = sessions.pop().unwrap();

    // A joins r1 and is confirmed; the room was empty, nobody is announced to
    let out = sa.handle_frame(Ok(msg("join", Some("r1"), None, "null", "A")), &clients, &mut rooms);
    assert_eq!(
        out.reply,
        Some(OutboundMessage::Joined { room_id: s("r1"), client_id: s("A") })
    );
    assert!(out.deliveries.is_empty());

    // B joins r1; A is told
    let out = sb.handle_frame(Ok(msg("join", Some("r1"), None, "null", "B")), &clients, &mut rooms);
    assert_eq!(
        out.reply,
        Some(OutboundMessage::Joined { room_id: s("r1"), client_id: s("B") })
    );
    assert_eq!(
        out.deliveries,
        vec![Delivery {
            recipient: s("A"),
            message: OutboundMessage::UserJoined { room_id: s("r1"), client_id: s("B") },
        }]
    );

    // B broadcasts an offer; A receives it verbatim, B does not
    let offer = msg("offer", None, None, "{\"sdp\":\"v=0\"}", "B");
    let out = sb.handle_frame(Ok(offer.clone()), &clients, &mut rooms);
    assert_eq!(out.reply, None);
    assert_eq!(
        out.deliveries,
        vec![Delivery { recipient: s("A"), message: OutboundMessage::Relay(offer) }]
    );
}

#[test]
fn targeted_ice_candidate() {
    let (clients, mut rooms, mut sessions) = world(&["A", "B"]);
    let mut sb = sessions.pop().unwrap();
    let mut sa = sessions.pop().unwrap();
    sa.handle_frame(Ok(msg("join", Some("r1"), None, "null", "A")), &clients, &mut rooms);
    sb.handle_frame(Ok(msg("join", Some("r1"), None, "null", "B")), &clients, &mut rooms);

    let ice = msg("ice-candidate", None, Some("B"), "{\"candidate\":\"c0\"}", "A");
    let out = sa.handle_frame(Ok(ice.clone()), &clients, &mut rooms);
    assert_eq!(out.reply, None);
    assert_eq!(
        out.deliveries,
        vec![Delivery { recipient: s("B"), message: OutboundMessage::Relay(ice) }]
    );
}

#[test]
fn targeted_to_unreachable_is_dropped() {
    let (clients, mut rooms, mut sessions) = world(&["A", "B"]);
    let _sb = sessions.pop().unwrap();
    let mut sa = sessions.pop().unwrap();
    sa.handle_frame(Ok(msg("join", Some("r1"), None, "null", "A")), &clients, &mut rooms);
    let out = sa.handle_frame(Ok(msg("answer", None, Some("Z"), "null", "A")), &clients, &mut rooms);
    assert_eq!(out.reply, None);
    assert!(out.deliveries.is_empty());
}

#[test]
fn broadcast_excludes_sender_only() {
    let (clients, mut rooms, mut sessions) = world(&["A", "B", "C"]);
    let mut sc = sessions.pop().unwrap();
    let mut sb = sessions.pop().unwrap();
    let mut sa = sessions.pop().unwrap();
    sa.handle_frame(Ok(msg("join", Some("r1"), None, "null", "A")), &clients, &mut rooms);
    sb.handle_frame(Ok(msg("join", Some("r1"), None, "null", "B")), &clients, &mut rooms);
    sc.handle_frame(Ok(msg("join", Some("r1"), None, "null", "C")), &clients, &mut rooms);

    let offer = msg("offer", None, None, "null", "A");
    let out = sa.handle_frame(Ok(offer.clone()), &clients, &mut rooms);
    let recipients: Vec<&str> = out.deliveries.iter().map(|d| d.recipient.as_str()).collect();
    assert_eq!(out.deliveries.len(), 2);
    assert!(recipients.contains(&"B"));
    assert!(recipients.contains(&"C"));
    assert!(!recipients.contains(&"A"));
    for d in &out.deliveries {
        assert_eq!(d.message, OutboundMessage::Relay(offer.clone()));
    }
}

#[test]
fn relay_without_room_or_target_is_silent() {
    let (clients, mut rooms, mut sessions) = world(&["A"]);
    let mut sa = sessions.pop().unwrap();
    let out = sa.handle_frame(Ok(msg("offer", None, None, "null", "A")), &clients, &mut rooms);
    assert_eq!(out.reply, None);
    assert!(out.deliveries.is_empty());
}

#[test]
fn idempotent_leave() {
    let (clients, mut rooms, mut sessions) = world(&["A"]);
    let mut sa = sessions.pop().unwrap();
    // leaving while in no room still confirms, and touches nothing
    let out = sa.handle_frame(Ok(msg("leave", None, None, "null", "A")), &clients, &mut rooms);
    assert_eq!(out.reply, Some(OutboundMessage::Left { client_id: s("A") }));
    assert!(out.deliveries.is_empty());
    assert_eq!(*sa.current_room(), None);
    assert!(!rooms.has_room(&s("r1")));
}

#[test]
fn leave_of_last_member_removes_room() {
    let (clients, mut rooms, mut sessions) = world(&["A"]);
    let mut sa = sessions.pop().unwrap();
    sa.handle_frame(Ok(msg("join", Some("r1"), None, "null", "A")), &clients, &mut rooms);
    assert!(rooms.has_room(&s("r1")));
    let out = sa.handle_frame(Ok(msg("leave", None, None, "null", "A")), &clients, &mut rooms);
    assert_eq!(out.reply, Some(OutboundMessage::Left { client_id: s("A") }));
    assert_eq!(*sa.current_room(), None);
    assert_eq!(rooms.members(&s("r1")), None);
}

#[test]
fn rejoin_moves_between_rooms() {
    let (clients, mut rooms, mut sessions) = world(&["A", "B"]);
    let mut sb = sessions.pop().unwrap();
    let mut sa = sessions.pop().unwrap();
    sa.handle_frame(Ok(msg("join", Some("r1"), None, "null", "A")), &clients, &mut rooms);
    sb.handle_frame(Ok(msg("join", Some("r1"), None, "null", "B")), &clients, &mut rooms);
    // A moves on to r2: it leaves r1 first, so the registries stay consistent
    let out = sa.handle_frame(Ok(msg("join", Some("r2"), None, "null", "A")), &clients, &mut rooms);
    assert_eq!(
        out.reply,
        Some(OutboundMessage::Joined { room_id: s("r2"), client_id: s("A") })
    );
    assert!(out.deliveries.is_empty());
    assert_eq!(rooms.members(&s("r1")).unwrap(), vec![s("B")]);
    assert_eq!(rooms.members(&s("r2")).unwrap(), vec![s("A")]);
    assert_eq!(*sa.current_room(), Some(s("r2")));
}

#[test]
fn disconnect_cleanup() {
    let (mut clients, mut rooms, mut sessions) = world(&["A", "B"]);
    let mut sb = sessions.pop().unwrap();
    let mut sa = sessions.pop().unwrap();
    sa.handle_frame(Ok(msg("join", Some("r1"), None, "null", "A")), &clients, &mut rooms);
    sb.handle_frame(Ok(msg("join", Some("r1"), None, "null", "B")), &clients, &mut rooms);

    // A's connection drops abnormally
    let ds = sa.teardown(&mut clients, &mut rooms);
    assert_eq!(
        ds,
        vec![Delivery {
            recipient: s("B"),
            message: OutboundMessage::UserLeft { room_id: s("r1"), client_id: s("A") },
        }]
    );
    assert_eq!(clients.lookup("A"), None);
    assert_eq!(rooms.members(&s("r1")).unwrap(), vec![s("B")]);
}

#[test]
fn teardown_of_roomless_session() {
    let (mut clients, mut rooms, mut sessions) = world(&["A"]);
    let sa = sessions.pop().unwrap();
    let ds = sa.teardown(&mut clients, &mut rooms);
    assert!(ds.is_empty());
    assert_eq!(clients.lookup("A"), None);
}

#[test]
fn malformed_input_changes_nothing() {
    let (clients, mut rooms, mut sessions) = world(&["A", "B"]);
    let mut sb = sessions.pop().unwrap();
    let mut sa = sessions.pop().unwrap();
    sa.handle_frame(Ok(msg("join", Some("r1"), None, "null", "A")), &clients, &mut rooms);
    sb.handle_frame(Ok(msg("join", Some("r1"), None, "null", "B")), &clients, &mut rooms);

    let out = sa.handle_frame(Err(s("expected an object")), &clients, &mut rooms);
    assert_eq!(
        out.reply,
        Some(OutboundMessage::MalformedInput { details: s("expected an object") })
    );
    assert!(out.deliveries.is_empty());
    assert_eq!(*sa.current_room(), Some(s("r1")));
    let ms = rooms.members(&s("r1")).unwrap();
    assert_eq!(ms.len(), 2);
}

#[test]
fn join_without_room_is_rejected() {
    let (clients, mut rooms, mut sessions) = world(&["A"]);
    let mut sa = sessions.pop().unwrap();
    let out = sa.handle_frame(Ok(msg("join", None, None, "null", "A")), &clients, &mut rooms);
    assert_eq!(out.reply, Some(OutboundMessage::MissingRoomId));
    assert!(out.deliveries.is_empty());
    assert_eq!(*sa.current_room(), None);
}

#[test]
fn unknown_action_is_echoed() {
    let (clients, mut rooms, mut sessions) = world(&["A"]);
    let mut sa = sessions.pop().unwrap();
    let out = sa.handle_frame(Ok(msg("dance", None, None, "null", "A")), &clients, &mut rooms);
    assert_eq!(out.reply, Some(OutboundMessage::UnknownAction { action: s("dance") }));
    assert!(out.deliveries.is_empty());
    assert_eq!(*sa.current_room(), None);
}

#[test]
fn accepted_session_gets_uuid_identity() {
    let mut clients: ClientRegistry<u32> = ClientRegistry::new();
    let sa = Session::accept(&mut clients, 0);
    let sb = Session::accept(&mut clients, 1);
    assert_eq!(sa.client_id().chars().count(), 36);
    assert_eq!(sb.client_id().chars().count(), 36);
    assert!(clients.is_registered(sa.client_id().as_str()));
    assert!(clients.is_registered(sb.client_id().as_str()));
}
