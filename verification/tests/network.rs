use std::io::{Error, ErrorKind};
use gloss_renderer::messages::{ComponentTypeId, MessageFrame, SceneMessage};
use gloss_renderer::receiver::{
    EntityTarget, ReceiveStep, ReceiverAction, SceneReceiver, SceneReceiverPlugin, MAX_PENDING_FRAMES, plan_message,
};
use gloss_renderer::sender::SceneSender;
use gloss_renderer::transport::{
    decode_length_header, encode_packet, is_connection_lost, TransportConfig, TransportError, MAX_MESSAGE_BYTES,
};

fn spawn(name: &str) -> SceneMessage {
    SceneMessage::EntitySpawn { entity_name: name.to_string(), is_renderable: true, is_on_gui: false }
}

fn insert(name: &str, ty: &str, data: &[u8]) -> SceneMessage {
    SceneMessage::ComponentInsert {
        entity_name: name.to_string(),
        component_type: ComponentTypeId(ty.to_string()),
        data: data.to_vec(),
    }
}

fn names(v: &[&str]) -> Vec<String> {
    v.iter().map(|s| s.to_string()).collect()
}

#[test]
fn transport_config_default() {
    let c = TransportConfig::default();
    assert_eq!(c.address, "127.0.0.1");
    assert_eq!(c.port, 9876);
    assert!(c.auto_reconnect);
    assert_eq!(c.reconnect_delay_ms, 1000);
    assert_eq!(c.connect_timeout_ms, 5000);
}

#[test]
fn packet_is_big_endian_length_then_payload() {
    let p = encode_packet(&vec![9, 8, 7]);
    assert_eq!(p, vec![0, 0, 0, 3, 9, 8, 7]);
    let big = vec![0u8; 0x0102_03];
    let p = encode_packet(&big);
    assert_eq!(&p[0..4], &[0, 0x01, 0x02, 0x03]);
    assert_eq!(p.len(), 4 + big.len());
    assert_eq!(encode_packet(&Vec::new()), vec![0, 0, 0, 0]);
}

#[test]
fn length_header_is_read_back() {
    assert_eq!(decode_length_header([0, 0, 0, 3]).ok(), Some(3));
    assert_eq!(decode_length_header([0x01, 0x02, 0x03, 0x04]).ok(), Some(0x0102_0304));
    let p = encode_packet(&vec![1u8; 300]);
    let h = [p[0], p[1], p[2], p[3]];
    assert_eq!(decode_length_header(h).ok(), Some(300));
}

#[test]
fn oversized_announcement_is_refused() {
    let limit = MAX_MESSAGE_BYTES as u32;
    assert_eq!(decode_length_header(limit.to_be_bytes()).ok(), Some(MAX_MESSAGE_BYTES));
    match decode_length_header((limit + 1).to_be_bytes()) {
        Err(TransportError::Io(e)) => assert_eq!(e.kind(), std::io::ErrorKind::InvalidData),
        _ => panic!("expected an I/O error"),
    }
    assert!(matches!(decode_length_header([0xff; 4]), Err(TransportError::Io(_))));
}

#[test]
fn individual_messages_of_a_batch() {
    let f = MessageFrame::new(7, SceneMessage::Batch(vec![spawn("a"), insert("a", "T", &[1, 2])]));
    let parts = f.to_individual_messages();
    assert_eq!(parts.len(), 2);
    assert!(parts.iter().all(|p| p.sequence == 7));
    assert!(matches!(&parts[0].message, SceneMessage::EntitySpawn { entity_name, .. } if entity_name == "a"));
    assert!(matches!(&parts[1].message, SceneMessage::ComponentInsert { data, .. } if data == &vec![1, 2]));
}

#[test]
fn individual_messages_of_a_single_message() {
    let f = MessageFrame::new(3, SceneMessage::Ping { timestamp_ms: 11 });
    let parts = f.to_individual_messages();
    assert_eq!(parts.len(), 1);
    assert_eq!(parts[0].sequence, 3);
    assert!(matches!(parts[0].message, SceneMessage::Ping { timestamp_ms: 11 }));
    let empty = MessageFrame::new(4, SceneMessage::Batch(Vec::new())).to_individual_messages();
    assert!(empty.is_empty());
}

#[test]
fn clone_of_nested_batch() {
    let m = SceneMessage::Batch(vec![SceneMessage::Batch(vec![spawn("x")]), SceneMessage::Pong { timestamp_ms: 2 }]);
    let c = m.clone();
    match c {
        SceneMessage::Batch(v) => {
            assert_eq!(v.len(), 2);
            assert!(matches!(&v[0], SceneMessage::Batch(w) if w.len() == 1));
            assert!(matches!(v[1], SceneMessage::Pong { timestamp_ms: 2 }));
        },
        _ => panic!("clone changed the variant"),
    }
}

#[test]
fn sender_without_transport_sends_nothing() {
    let mut s = SceneSender::new(TransportConfig::default());
    assert!(!s.is_enabled());
    assert!(s.send_message(spawn("a")).is_empty());
    assert_eq!(s.sequence(), 0);
    // a frame still counts, but nothing leaves
    assert!(s.start_frame().is_empty());
    assert!(s.send_entity_spawn("b", true, false).is_empty());
    assert!(s.end_frame().is_empty());
    assert_eq!(s.frame_number(), 1);
    assert_eq!(s.sequence(), 0);
}

#[test]
fn sender_numbers_frames_consecutively() {
    let mut s = SceneSender::new(TransportConfig::default());
    s.set_transport();
    let a = s.send_message(spawn("a"));
    let b = s.send_component("a", ComponentTypeId("T".to_string()), vec![5]);
    assert_eq!(a.len(), 1);
    assert_eq!(b.len(), 1);
    assert_eq!(a[0].sequence, 0);
    assert_eq!(b[0].sequence, 1);
    assert!(matches!(&b[0].message, SceneMessage::ComponentInsert { entity_name, data, .. } if entity_name == "a" && data == &vec![5]));
    assert_eq!(s.sequence(), 2);
}

#[test]
fn frame_groups_its_messages_in_one_batch() {
    let mut s = SceneSender::new(TransportConfig::default());
    s.set_transport();
    let begin = s.start_frame();
    assert!(s.send_entity_spawn("a", true, false).is_empty());
    assert!(s.send_message(insert("a", "T", &[1])).is_empty());
    let end = s.end_frame();
    assert_eq!(begin.len(), 1);
    assert!(matches!(begin[0].message, SceneMessage::FrameBegin { frame_number: 0 }));
    assert_eq!(begin[0].sequence, 0);
    assert_eq!(end.len(), 2);
    assert_eq!(end[0].sequence, 1);
    assert_eq!(end[1].sequence, 2);
    match &end[0].message {
        SceneMessage::Batch(v) => {
            assert_eq!(v.len(), 2);
            assert!(matches!(&v[0], SceneMessage::EntitySpawn { entity_name, .. } if entity_name == "a"));
            assert!(matches!(&v[1], SceneMessage::ComponentInsert { .. }));
        },
        _ => panic!("expected a batch"),
    }
    assert!(matches!(end[1].message, SceneMessage::FrameEnd { frame_number: 0 }));
    assert_eq!(s.frame_number(), 1);
}

#[test]
fn frame_of_one_message_sends_it_alone() {
    let mut s = SceneSender::new(TransportConfig::default());
    s.set_transport();
    s.start_frame();
    s.send_message(SceneMessage::Ping { timestamp_ms: 9 });
    let end = s.end_frame();
    assert_eq!(end.len(), 2);
    assert!(matches!(end[0].message, SceneMessage::Ping { timestamp_ms: 9 }));
    assert!(matches!(end[1].message, SceneMessage::FrameEnd { frame_number: 0 }));
}

#[test]
fn empty_frame_sends_only_markers_and_end_outside_frame_does_nothing() {
    let mut s = SceneSender::new(TransportConfig::default());
    s.set_transport();
    assert!(s.end_frame().is_empty());
    s.start_frame();
    let end = s.end_frame();
    assert_eq!(end.len(), 1);
    assert!(matches!(end[0].message, SceneMessage::FrameEnd { frame_number: 0 }));
    let begin = s.start_frame();
    assert!(matches!(begin[0].message, SceneMessage::FrameBegin { frame_number: 1 }));
}

#[test]
fn sender_reconnects_at_most_once_a_second() {
    let mut s = SceneSender::new(TransportConfig::default());
    assert!(!s.maybe_reconnect(true, 0));
    assert!(s.maybe_reconnect(false, 5_000));
    assert!(!s.maybe_reconnect(false, 5_999));
    assert!(s.maybe_reconnect(false, 6_000));
    // a clock reading before the last attempt counts as no time passed
    assert!(!s.maybe_reconnect(false, 10));
}

#[test]
fn receiver_plans_spawns() {
    let existing = names(&["a"]);
    assert!(matches!(&plan_message(&spawn("b"), &existing)[..],
        [ReceiverAction::Spawn { entity_name, is_renderable: true, is_on_gui: false }] if entity_name == "b"));
    assert!(matches!(&plan_message(&spawn("a"), &existing)[..],
        [ReceiverAction::SkipExistingEntity { entity_name }] if entity_name == "a"));
    assert!(plan_message(&spawn("floor"), &existing).is_empty());
    assert!(plan_message(&spawn("gloss_camera"), &existing).is_empty());
}

#[test]
fn receiver_plans_components() {
    let existing = names(&["a"]);
    assert!(matches!(&plan_message(&insert("a", "T", &[4]), &existing)[..],
        [ReceiverAction::InsertComponent { target: EntityTarget::Named(n), component_type, data }]
            if n == "a" && component_type.0 == "T" && data == &vec![4]));
    assert!(matches!(&plan_message(&insert("entity_resource", "T", &[]), &existing)[..],
        [ReceiverAction::InsertComponent { target: EntityTarget::Resource, .. }]));
    assert!(matches!(&plan_message(&insert("zz", "T", &[]), &existing)[..],
        [ReceiverAction::MissingEntity { entity_name }] if entity_name == "zz"));
    assert!(plan_message(&SceneMessage::FrameBegin { frame_number: 1 }, &existing).is_empty());
}

#[test]
fn batch_planned_at_once_sees_the_scene_before_it() {
    let m = SceneMessage::Batch(vec![spawn("n"), insert("n", "T", &[])]);
    let actions = plan_message(&m, &Vec::new());
    assert_eq!(actions.len(), 2);
    assert!(matches!(&actions[0], ReceiverAction::Spawn { .. }));
    assert!(matches!(&actions[1], ReceiverAction::MissingEntity { .. }));
}

#[test]
fn receiver_reports_sequence_gaps() {
    let mut r = SceneReceiver::new(TransportConfig::default());
    let none = Vec::new();
    let rep = r.process_frame(&MessageFrame::new(1, SceneMessage::Ping { timestamp_ms: 0 }), &none);
    assert_eq!(rep.gap, None);
    let rep = r.process_frame(&MessageFrame::new(3, SceneMessage::Ping { timestamp_ms: 0 }), &none);
    assert_eq!(rep.gap, Some(2));
    assert_eq!(r.last_sequence(), 3);
    let rep = r.process_frame(&MessageFrame::new(0, SceneMessage::Ping { timestamp_ms: 0 }), &none);
    assert_eq!(rep.gap, None);
    assert_eq!(r.last_sequence(), 0);
}

#[test]
fn spawn_then_insert_in_one_batch_reaches_the_entity() {
    let mut r = SceneReceiver::new(TransportConfig::default());
    let mut scene_names = names(&["floor"]);
    let frames = vec![
        MessageFrame::new(1, SceneMessage::FrameBegin { frame_number: 0 }),
        MessageFrame::new(2, SceneMessage::Batch(vec![spawn("mesh"), insert("mesh", "Verts", &[1, 2, 3])])),
        MessageFrame::new(3, SceneMessage::FrameEnd { frame_number: 0 }),
    ];
    let reports = r.process_frames(&frames, &mut scene_names);
    assert_eq!(reports.len(), 4);
    assert!(reports[0].actions.is_empty());
    assert!(matches!(&reports[1].actions[..], [ReceiverAction::Spawn { entity_name, .. }] if entity_name == "mesh"));
    assert!(matches!(&reports[2].actions[..],
        [ReceiverAction::InsertComponent { target: EntityTarget::Named(n), .. }] if n == "mesh"));
    assert!(reports[3].actions.is_empty());
    assert_eq!(scene_names, names(&["floor", "mesh"]));
    // the second message of the batch repeats the batch's sequence number
    assert_eq!(reports[1].gap, None);
    assert_eq!(reports[2].gap, Some(3));
    assert_eq!(reports[3].gap, None);
    assert_eq!(r.last_sequence(), 3);
}

#[test]
fn every_message_of_a_batch_is_checked_against_the_one_before() {
    let mut r = SceneReceiver::new(TransportConfig::default());
    let frames = vec![
        MessageFrame::new(1, SceneMessage::Batch(vec![spawn("a"), spawn("b"), spawn("c")])),
        MessageFrame::new(4, SceneMessage::Batch(vec![spawn("d"), spawn("e")])),
    ];
    let reports = r.process_frames(&frames, &mut Vec::new());
    let gaps: Vec<Option<u64>> = reports.iter().map(|x| x.gap).collect();
    assert_eq!(gaps, vec![None, Some(2), Some(2), Some(2), Some(5)]);
    assert_eq!(r.last_sequence(), 4);
}

#[test]
fn receiver_drains_until_empty_full_or_failed() {
    let mut r = SceneReceiver::new(TransportConfig::default());
    r.set_transport();
    let mut frames = Vec::new();
    assert!(matches!(r.accept_received(&mut frames, Ok(Some(MessageFrame::new(1, SceneMessage::Ping { timestamp_ms: 0 })))), ReceiveStep::More));
    assert!(matches!(r.accept_received(&mut frames, Ok(None)), ReceiveStep::Done));
    assert_eq!(frames.len(), 1);
    for i in 1..MAX_PENDING_FRAMES - 1 {
        let step = r.accept_received(&mut frames, Ok(Some(MessageFrame::new(i as u64 + 1, SceneMessage::Ping { timestamp_ms: 0 }))));
        assert!(matches!(step, ReceiveStep::More));
    }
    let step = r.accept_received(&mut frames, Ok(Some(MessageFrame::new(99, SceneMessage::Ping { timestamp_ms: 0 }))));
    assert!(matches!(step, ReceiveStep::Done));
    assert_eq!(frames.len(), MAX_PENDING_FRAMES);
    assert!(matches!(r.accept_received(&mut frames, Err(TransportError::NotConnected)), ReceiveStep::Failed(TransportError::NotConnected)));
    assert!(r.is_enabled());
    assert!(matches!(r.accept_received(&mut frames, Err(TransportError::ConnectionClosed)), ReceiveStep::Failed(TransportError::ConnectionClosed)));
    assert!(!r.is_enabled());
    assert_eq!(frames.len(), MAX_PENDING_FRAMES);
}

#[test]
fn receiver_reconnection_is_paced() {
    let mut r = SceneReceiver::new(TransportConfig::default());
    assert!(!r.begin_connect_attempt(true, 0));
    assert!(r.begin_connect_attempt(false, 100));
    assert!(!r.begin_connect_attempt(false, 1_099));
    assert!(r.should_attempt_reconnect(false, 1_100));
    assert!(r.begin_connect_attempt(false, 1_100));
    let mut cfg = TransportConfig::default();
    cfg.auto_reconnect = false;
    let mut off = SceneReceiver::new(cfg);
    assert!(!off.begin_connect_attempt(false, 1_000_000));
}

#[test]
fn receiver_plugin_keeps_autorun() {
    assert!(SceneReceiverPlugin::new(true).autorun);
    assert!(!SceneReceiverPlugin::new(false).autorun);
}

#[test]
fn sequence_overflow_is_detected_before_processing() {
    let r = SceneReceiver::new(TransportConfig::default());
    let ok = vec![MessageFrame::new(u64::MAX, SceneMessage::Ping { timestamp_ms: 0 })];
    assert!(!r.sequence_overflows(&ok));
    let bad = vec![
        MessageFrame::new(u64::MAX, SceneMessage::Ping { timestamp_ms: 0 }),
        MessageFrame::new(1, SceneMessage::Ping { timestamp_ms: 0 }),
    ];
    assert!(r.sequence_overflows(&bad));
    let zero_after_max = vec![
        MessageFrame::new(u64::MAX, SceneMessage::Ping { timestamp_ms: 0 }),
        MessageFrame::new(0, SceneMessage::Ping { timestamp_ms: 0 }),
    ];
    assert!(!r.sequence_overflows(&zero_after_max));
}

#[test]
fn what_the_sender_sends_the_receiver_applies() {
    let mut s = SceneSender::new(TransportConfig::default());
    s.set_transport();
    let mut wire = Vec::new();
    wire.extend(s.start_frame());
    wire.extend(s.send_entity_spawn("robot", true, false));
    wire.extend(s.send_component("robot", ComponentTypeId("Verts".to_string()), vec![7, 7]));
    wire.extend(s.end_frame());
    // the bytes on the wire carry each frame's length
    for f in &wire {
        let payload = vec![f.sequence as u8; 5];
        let p = encode_packet(&payload);
        assert_eq!(decode_length_header([p[0], p[1], p[2], p[3]]).ok(), Some(5));
        assert_eq!(&p[4..], &payload[..]);
    }
    // unpacked message by message, the frame gives back what was sent in it
    let unpacked: Vec<SceneMessage> = wire.iter().flat_map(|f| f.to_individual_messages()).map(|f| f.message).collect();
    assert_eq!(unpacked.len(), 4);
    assert!(matches!(unpacked[0], SceneMessage::FrameBegin { frame_number: 0 }));
    assert!(matches!(&unpacked[1], SceneMessage::EntitySpawn { entity_name, .. } if entity_name == "robot"));
    assert!(matches!(&unpacked[2], SceneMessage::ComponentInsert { entity_name, .. } if entity_name == "robot"));
    assert!(matches!(unpacked[3], SceneMessage::FrameEnd { frame_number: 0 }));

    let mut r = SceneReceiver::new(TransportConfig::default());
    let mut scene_names = Vec::new();
    assert!(!r.sequence_overflows(&wire));
    let reports = r.process_frames(&wire, &mut scene_names);
    let actions: Vec<&ReceiverAction> = reports.iter().flat_map(|rep| rep.actions.iter()).collect();
    assert_eq!(actions.len(), 2);
    assert!(matches!(actions[0], ReceiverAction::Spawn { entity_name, .. } if entity_name == "robot"));
    assert!(matches!(actions[1],
        ReceiverAction::InsertComponent { target: EntityTarget::Named(n), data, .. } if n == "robot" && data == &vec![7, 7]));
    assert_eq!(scene_names, names(&["robot"]));
    // only the batch's second message, which repeats its number, is reported
    let gaps: Vec<Option<u64>> = reports.iter().map(|x| x.gap).collect();
    assert_eq!(gaps, vec![None, None, Some(2), None]);
    assert_eq!(r.last_sequence(), 2);
}

#[test]
fn frames_sent_one_by_one_show_no_gap() {
    let mut s = SceneSender::new(TransportConfig::default());
    s.set_transport();
    let mut wire = Vec::new();
    for i in 0..5 {
        wire.extend(s.send_message(SceneMessage::Ping { timestamp_ms: i }));
    }
    let mut r = SceneReceiver::new(TransportConfig::default());
    // the receiver starts after frame 0, the sender numbers from 0
    let reports = r.process_frames(&wire, &mut Vec::new());
    assert_eq!(reports.len(), 5);
    assert!(reports.iter().all(|rep| rep.gap.is_none()));
    assert_eq!(r.last_sequence(), 4);
}

#[test]
fn lost_connections_are_told_apart_from_other_failures() {
    for kind in [ErrorKind::UnexpectedEof, ErrorKind::ConnectionReset, ErrorKind::ConnectionAborted, ErrorKind::BrokenPipe] {
        assert!(is_connection_lost(&TransportError::Io(Error::new(kind, "gone"))));
    }
    for kind in [ErrorKind::InvalidData, ErrorKind::WouldBlock, ErrorKind::Other, ErrorKind::PermissionDenied] {
        assert!(!is_connection_lost(&TransportError::Io(Error::new(kind, "not gone"))));
    }
    assert!(!is_connection_lost(&TransportError::ConnectionClosed));
    assert!(!is_connection_lost(&TransportError::NotConnected));
    match decode_length_header([0xff; 4]) {
        Err(e) => assert!(!is_connection_lost(&e)),
        Ok(_) => panic!("expected an error"),
    }
}

#[test]
fn sender_tells_when_an_operation_can_proceed() {
    let mut s = SceneSender::new(TransportConfig::default());
    assert!(s.can_send() && s.can_start_frame() && s.can_end_frame());
    s.set_transport();
    assert!(s.can_send() && s.can_start_frame() && s.can_end_frame());
    let _ = s.start_frame();
    let _ = s.send_message(spawn("a"));
    assert!(s.can_send() && s.can_end_frame());
}

#[test]
fn draining_starts_only_with_a_transport() {
    let mut r = SceneReceiver::new(TransportConfig::default());
    assert!(matches!(r.begin_receive(), ReceiveStep::Done));
    r.set_transport();
    assert!(matches!(r.begin_receive(), ReceiveStep::More));
}
