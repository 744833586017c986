use qalam::cbor::{get_str, CborValue};
use qalam::command::QalamCommand;
use qalam::direct::{
    frame_length, frame_payload, DirectError, QalamDirect, QalamDirectProtocol,
    QalamDirectRequest, QalamDirectResponse,
};
use qalam::event::QalamEvent;
use qalam::hex::hex_encode;
use qalam::room::RoomId;
use qalam::text::{join_crlf, split_lines_of};
use qalam::time::{ClockError, QalamTime};
use qalam::utils::keypair::{check_persona, key_file_name, open_stored_key, sanitize, KeypairError};
use qalam::{CommandPlan, GossipError, JoinedRooms, PeerId, QalamCore};
use sha2::Digest;

fn sha256(data: &[u8]) -> Vec<u8> {
    sha2::Sha256::digest(data).to_vec()
}

fn peer(fill: u8) -> PeerId {
    let mut bytes = vec![0x12u8, 0x20];
    bytes.extend(std::iter::repeat(fill).take(32));
    PeerId::from_bytes(&bytes).expect("a sha-256 multihash is a peer id")
}

fn lines(parts: &[&str]) -> Vec<String> {
    parts.iter().map(|s| s.to_string()).collect()
}

fn cbor_bytes(value: &ciborium::Value) -> Vec<u8> {
    let mut buf = Vec::new();
    ciborium::into_writer(value, &mut buf).unwrap();
    buf
}

fn text(s: &str) -> ciborium::Value {
    ciborium::Value::Text(s.to_string())
}

#[test]
fn time_from_millis_round_trips() {
    let t = QalamTime::from_millis(1_725_029_869_000);
    assert_eq!(t.as_millis(), 1_725_029_869_000);
}

#[test]
fn time_from_epoch_millis_overflow() {
    assert!(matches!(QalamTime::from_epoch_millis(u64::MAX as u128 + 1), Err(ClockError::MillisOverflow)));
    assert_eq!(QalamTime::from_epoch_millis(42).unwrap().as_millis(), 42);
}

#[test]
fn time_now_is_after_2020() {
    let now = QalamTime::now().expect("the clock reads after the epoch");
    assert!(now.as_millis() > 1_577_836_800_000);
    assert_eq!(now.to_duration(), std::time::Duration::from_millis(now.as_millis()));
}

#[test]
fn hex_encodes_lower_case() {
    assert_eq!(hex_encode(&[0xbe, 0xef, 0x01]), "beef01");
    assert_eq!(hex_encode(&[]), "");
    assert_eq!(sanitize(&[0x0a, 0xff]), "0aff");
}

#[test]
fn room_id_is_digest_of_prefixed_name() {
    let id = RoomId::room("general");
    assert_eq!(id.0.to_vec(), sha256(b"room:general"));
    assert_eq!(RoomId::room("general"), id);
    assert_ne!(RoomId::room("random"), id);
    assert_ne!(RoomId::room("random").as_str(), id.as_str());
}

#[test]
fn room_topic_name() {
    let id = RoomId([0xab; 32]);
    assert_eq!(id.as_str(), format!("room/{}", "ab".repeat(32)));
    let named = RoomId::room("x");
    assert_eq!(named.as_str(), format!("room/{}", hex_encode(&sha256(b"room:x"))));
}

#[test]
fn dm_room_is_symmetric_and_sorted() {
    let a = peer(1);
    let b = peer(2);
    let ab = RoomId::dm(&a, &b);
    let ba = RoomId::dm(&b, &a);
    assert_eq!(ab, ba);
    let mut pre = b"dm:".to_vec();
    pre.extend(a.to_bytes());
    pre.extend(b.to_bytes());
    assert_eq!(ab.0.to_vec(), sha256(&pre));
}

#[test]
fn dm_room_orders_a_prefix_first() {
    let short = PeerId::from_bytes(&[0x00, 0x02, 7, 7]).unwrap();
    let long = PeerId::from_bytes(&[0x00, 0x03, 7, 7, 0]).unwrap();
    let mut pre = b"dm:".to_vec();
    pre.extend(short.to_bytes());
    pre.extend(long.to_bytes());
    assert_eq!(RoomId::dm(&long, &short).0.to_vec(), sha256(&pre));
}

#[test]
fn room_same_as() {
    assert!(RoomId([3; 32]).same_as(&RoomId([3; 32])));
    assert!(!RoomId([3; 32]).same_as(&RoomId([4; 32])));
}

#[test]
fn peer_id_text_round_trip() {
    let p = peer(9);
    let text = p.to_base58();
    let expected = libp2p::PeerId::from_bytes(&p.to_bytes()).unwrap().to_string();
    assert_eq!(text, expected);
    let back = PeerId::from_base58(&text).unwrap();
    assert_eq!(back.to_bytes(), p.to_bytes());
    assert!(back.same_as(&p));
    assert!(!back.same_as(&peer(8)));
}

#[test]
fn peer_id_rejects_bad_input() {
    assert!(PeerId::from_bytes(&[1, 2, 3]).is_none());
    assert!(PeerId::from_base58("not a peer").is_err());
}

#[test]
fn chat_message_keeps_sender_and_lines() {
    let core = QalamCore::new("alice".to_string(), peer(1));
    let m = core.new_chat_message(peer(5), lines(&["hi", "there"])).unwrap();
    assert_eq!(m.content, lines(&["hi", "there"]));
    assert_eq!(m.from.to_bytes(), peer(5).to_bytes());
    assert!(m.ts.as_millis() > 0);
    assert!((m.id >> 80) as u64 >= m.ts.as_millis());
    assert_eq!((m.id >> 76) & 0xf, 7);
    assert_eq!((m.id >> 62) & 0x3, 2);
    let uuid = uuid::Uuid::from_u128(m.id);
    assert_eq!(uuid.get_version_num(), 7);
}

#[test]
fn stamp_message_keeps_the_time_given() {
    let core = QalamCore::new("alice".to_string(), peer(1));
    let ts = QalamTime::from_millis(1_725_029_869_123);
    let m = core.stamp_message(peer(2), lines(&["a"]), ts);
    assert_eq!(m.ts.as_millis(), 1_725_029_869_123);
    assert_eq!((m.id >> 80) as u64, 1_725_029_869_123);
    assert_eq!(m.from.to_bytes(), peer(2).to_bytes());
    assert_eq!(m.content, lines(&["a"]));
    assert_eq!((m.id >> 76) & 0xf, 7);
}

#[test]
fn time_unix_parts() {
    assert_eq!(QalamTime::from_millis(1_234_567).unix_parts(), (1_234, 567_000_000));
    assert_eq!(QalamTime::from_millis(999).unix_parts(), (0, 999_000_000));
}

#[test]
fn chat_message_ids_are_ordered_by_creation() {
    let core = QalamCore::new("alice".to_string(), peer(1));
    let mut last = 0u128;
    for _ in 0..1000 {
        let m = core.new_chat_message(peer(5), lines(&["x"])).unwrap();
        assert!(m.id > last);
        last = m.id;
    }
}

#[test]
fn time_from_clock_reading() {
    assert!(matches!(QalamTime::from_clock_reading(None), Err(ClockError::BeforeUnixEpoch)));
    assert_eq!(QalamTime::from_clock_reading(Some(1234)).unwrap().as_millis(), 1234);
    assert!(matches!(QalamTime::from_clock_reading(Some(u64::MAX as u128 + 1)), Err(ClockError::MillisOverflow)));
}

#[test]
fn time_to_duration_keeps_millis() {
    let t = QalamTime::from_millis(1_234_567);
    let d = t.to_duration();
    assert_eq!(d, std::time::Duration::from_millis(1_234_567));
    assert_eq!(d.as_millis(), t.as_millis() as u128);
    assert_eq!(d.as_secs(), 1_234);
    assert_eq!(d.subsec_nanos(), 567_000_000);
}

#[test]
fn protocol_name() {
    assert_eq!(QalamDirectProtocol.as_ref(), "/hat/direct/0.1.0");
}

#[test]
fn request_encoding_matches_ciborium() {
    let codec = QalamDirect;
    let ping = ciborium::Value::Map(vec![(text("type"), text("ping"))]);
    assert_eq!(codec.encode_request(&QalamDirectRequest::Ping), cbor_bytes(&ping));
    let persona = ciborium::Value::Map(vec![(text("type"), text("persona"))]);
    assert_eq!(codec.encode_request(&QalamDirectRequest::Persona), cbor_bytes(&persona));
}

#[test]
fn request_round_trip() {
    let codec = QalamDirect;
    for r in [QalamDirectRequest::Ping, QalamDirectRequest::Persona] {
        let bytes = codec.encode_request(&r);
        assert_eq!(codec.decode_request(&bytes), Ok(r));
    }
}

#[test]
fn request_decode_errors() {
    let codec = QalamDirect;
    let unknown = cbor_bytes(&ciborium::Value::Map(vec![(text("type"), text("pong"))]));
    assert_eq!(codec.decode_request(&unknown), Err(DirectError::UnknownRequestType("pong".to_string())));
    let missing = cbor_bytes(&ciborium::Value::Map(vec![(text("kind"), text("ping"))]));
    assert_eq!(codec.decode_request(&missing), Err(DirectError::MissingField("type".to_string())));
    let not_map = cbor_bytes(&text("ping"));
    assert_eq!(codec.decode_request(&not_map), Err(DirectError::ExpectedMap("type".to_string())));
    let not_text = cbor_bytes(&ciborium::Value::Map(vec![(text("type"), ciborium::Value::Integer(3.into()))]));
    assert_eq!(codec.decode_request(&not_text), Err(DirectError::NotText("type".to_string())));
    assert!(matches!(codec.decode_request(&[0xff]), Err(DirectError::InvalidCbor(_))));
    assert!(matches!(codec.decode_request(&[]), Err(DirectError::InvalidCbor(_))));
}

#[test]
fn request_decode_takes_first_matching_key() {
    let codec = QalamDirect;
    let two = cbor_bytes(&ciborium::Value::Map(vec![
        (ciborium::Value::Integer(1.into()), text("x")),
        (text("type"), text("persona")),
        (text("type"), text("ping")),
    ]));
    assert_eq!(codec.decode_request(&two), Ok(QalamDirectRequest::Persona));
}

#[test]
fn response_encoding_matches_ciborium() {
    let codec = QalamDirect;
    let p = peer(4);
    let response = QalamDirectResponse::Persona { peer: p.clone(), ident: "alice".to_string() };
    let expected = ciborium::Value::Map(vec![
        (text("type"), text("persona")),
        (
            text("data"),
            ciborium::Value::Map(vec![(text("peer"), text(&p.to_base58())), (text("ident"), text("alice"))]),
        ),
    ]);
    assert_eq!(codec.encode_response(&response), cbor_bytes(&expected));
    let pong = ciborium::Value::Map(vec![(text("type"), text("pong"))]);
    assert_eq!(codec.encode_response(&QalamDirectResponse::Pong), cbor_bytes(&pong));
}

#[test]
fn response_round_trip() {
    let codec = QalamDirect;
    let p = peer(6);
    let bytes = codec.encode_response(&QalamDirectResponse::Persona { peer: p.clone(), ident: "bob".to_string() });
    match codec.decode_response(&bytes) {
        Ok(QalamDirectResponse::Persona { peer, ident }) => {
            assert_eq!(peer.to_bytes(), p.to_bytes());
            assert_eq!(ident, "bob");
        }
        other => panic!("unexpected {:?}", other),
    }
    let bytes = codec.encode_response(&QalamDirectResponse::Pong);
    assert!(matches!(codec.decode_response(&bytes), Ok(QalamDirectResponse::Pong)));
}

#[test]
fn response_decode_errors() {
    let codec = QalamDirect;
    let unknown = cbor_bytes(&ciborium::Value::Map(vec![(text("type"), text("ping"))]));
    assert!(matches!(codec.decode_response(&unknown), Err(DirectError::UnknownResponseType(t)) if t == "ping"));
    let no_data = cbor_bytes(&ciborium::Value::Map(vec![(text("type"), text("persona"))]));
    assert!(matches!(codec.decode_response(&no_data), Err(DirectError::MissingField(k)) if k == "data"));
    let data_not_map = cbor_bytes(&ciborium::Value::Map(vec![(text("type"), text("persona")), (text("data"), text("x"))]));
    assert!(matches!(codec.decode_response(&data_not_map), Err(DirectError::ExpectedMap(k)) if k == "peer"));
    let bad_peer = cbor_bytes(&ciborium::Value::Map(vec![
        (text("type"), text("persona")),
        (text("data"), ciborium::Value::Map(vec![(text("peer"), text("zzz")), (text("ident"), text("a"))])),
    ]));
    assert!(matches!(codec.decode_response(&bad_peer), Err(DirectError::InvalidPeerId(_))));
    let no_ident = cbor_bytes(&ciborium::Value::Map(vec![
        (text("type"), text("persona")),
        (text("data"), ciborium::Value::Map(vec![(text("peer"), text("zzz"))])),
    ]));
    assert!(matches!(codec.decode_response(&no_ident), Err(DirectError::MissingField(k)) if k == "ident"));
    assert!(matches!(codec.decode_response(&[0x9f]), Err(DirectError::InvalidCbor(_))));
}

#[test]
fn request_value_conversions() {
    let v = QalamDirectRequest::Persona.to_value();
    assert_eq!(get_str(&v, &["type"]).unwrap(), "persona");
    assert_eq!(QalamDirectRequest::from_value(&v), Ok(QalamDirectRequest::Persona));
    let unknown = CborValue::Object(vec![(CborValue::Text("type".to_string()), CborValue::Text("x".to_string()))]);
    assert_eq!(QalamDirectRequest::from_value(&unknown), Err(DirectError::UnknownRequestType("x".to_string())));
    assert_eq!(QalamDirectRequest::from_value(&CborValue::Other), Err(DirectError::ExpectedMap("type".to_string())));
}

#[test]
fn response_value_conversions() {
    let p = peer(3);
    let v = QalamDirectResponse::Persona { peer: p.clone(), ident: "eve".to_string() }.to_value();
    assert_eq!(get_str(&v, &["data", "peer"]).unwrap(), &p.to_base58());
    assert_eq!(get_str(&v, &["data", "ident"]).unwrap(), "eve");
    match QalamDirectResponse::from_value(&v) {
        Ok(QalamDirectResponse::Persona { peer, ident }) => {
            assert_eq!(peer.to_bytes(), p.to_bytes());
            assert_eq!(ident, "eve");
        }
        other => panic!("unexpected {:?}", other),
    }
    let pong = QalamDirectResponse::Pong.to_value();
    assert!(matches!(QalamDirectResponse::from_value(&pong), Ok(QalamDirectResponse::Pong)));
}

#[test]
fn get_str_with_empty_path() {
    let v = CborValue::Text("x".to_string());
    assert_eq!(get_str(&v, &[]), Err(DirectError::EmptyPath));
}

#[test]
fn get_str_nested() {
    let inner = CborValue::Object(vec![(CborValue::Text("b".to_string()), CborValue::Text("deep".to_string()))]);
    let v = CborValue::Object(vec![(CborValue::Text("a".to_string()), inner)]);
    assert_eq!(get_str(&v, &["a", "b"]).unwrap(), "deep");
    assert_eq!(get_str(&v, &["a", "c"]), Err(DirectError::MissingField("c".to_string())));
    assert_eq!(get_str(&v, &["a"]), Err(DirectError::NotText("a".to_string())));
    assert_eq!(get_str(&CborValue::Other, &["a"]), Err(DirectError::ExpectedMap("a".to_string())));
}

#[test]
fn frame_layout() {
    assert_eq!(frame_payload(&[1, 2, 3]).unwrap(), vec![0, 0, 0, 3, 1, 2, 3]);
    assert_eq!(frame_payload(&[]).unwrap(), vec![0, 0, 0, 0]);
    let big = vec![7u8; 70_000];
    let framed = frame_payload(&big).unwrap();
    assert_eq!(&framed[..4], &70_000u32.to_be_bytes());
    assert_eq!(&framed[4..], &big[..]);
}

#[test]
fn frame_length_reads_big_endian() {
    assert_eq!(frame_length([0, 0, 1, 0]), 256);
    assert_eq!(frame_length([0x12, 0x34, 0x56, 0x78]), 0x1234_5678);
    assert_eq!(frame_length([0xff; 4]), u32::MAX);
}

#[test]
fn frame_round_trip() {
    let payload = QalamDirect.encode_request(&QalamDirectRequest::Ping);
    let framed = frame_payload(&payload).unwrap();
    let len = frame_length([framed[0], framed[1], framed[2], framed[3]]) as usize;
    assert_eq!(len, payload.len());
    assert_eq!(&framed[4..4 + len], &payload[..]);
}

#[test]
fn join_and_split_lines() {
    assert_eq!(join_crlf(&lines(&["a", "b", "c"])), "a\r\nb\r\nc");
    assert_eq!(join_crlf(&lines(&[])), "");
    assert_eq!(split_lines_of("a\r\nb\nc"), lines(&["a", "b", "c"]));
    assert_eq!(split_lines_of("a\n\nb\n"), lines(&["a", "", "b"]));
    assert_eq!(split_lines_of(""), lines(&[]));
    assert_eq!(split_lines_of("x\r"), lines(&["x\r"]));
    assert_eq!(split_lines_of("x\r\r\n"), lines(&["x\r"]));
    for s in ["a\r\nb\nc", "a\n\nb\n", "", "\n", "\r\n\r\n", "x\r", "héllo\r\nwörld\n", "a\rb"] {
        assert_eq!(split_lines_of(s), s.lines().map(String::from).collect::<Vec<_>>());
    }
}

#[test]
fn lines_survive_join_and_split() {
    let msg = lines(&["first", "", "th\u{e9}rd\r"]);
    assert_eq!(split_lines_of(&join_crlf(&msg)), msg);
    let trailing_empty = lines(&["a", ""]);
    assert_eq!(split_lines_of(&join_crlf(&trailing_empty)), lines(&["a"]));
}

#[test]
fn joined_rooms_track_membership() {
    let mut rooms = JoinedRooms::new();
    let a = RoomId::room("a");
    let b = RoomId::room("b");
    assert!(!rooms.contains(&a));
    rooms.insert(a);
    rooms.insert(a);
    assert!(rooms.contains(&a));
    assert!(!rooms.contains(&b));
    assert_eq!(rooms.room_for_topic(&a.as_str()), Some(a));
    assert_eq!(rooms.room_for_topic(&b.as_str()), None);
    assert!(rooms.remove(&a));
    assert!(!rooms.remove(&a));
    assert!(!rooms.contains(&a));
}

#[test]
fn plan_for_each_command() {
    let core = QalamCore::new("alice".to_string(), peer(1));
    assert!(matches!(core.plan_command(QalamCommand::Shutdown), CommandPlan::Stop));
    match core.plan_command(QalamCommand::JoinRoom { name: "general".to_string() }) {
        CommandPlan::Subscribe { room, topic } => {
            assert_eq!(room, RoomId::room("general"));
            assert_eq!(topic, room.as_str());
        }
        other => panic!("unexpected {:?}", other),
    }
    let room = RoomId::room("general");
    match core.plan_command(QalamCommand::LeaveRoom { room }) {
        CommandPlan::Unsubscribe { room: r, topic } => {
            assert_eq!(r, room);
            assert_eq!(topic, room.as_str());
        }
        other => panic!("unexpected {:?}", other),
    }
    match core.plan_command(QalamCommand::SendRoomMessage { room, from: peer(2), message: lines(&["hi", "yo"]) }) {
        CommandPlan::Publish { topic, data, room: r, from, message } => {
            assert_eq!(topic, room.as_str());
            assert_eq!(data, b"hi\r\nyo".to_vec());
            assert_eq!(r, room);
            assert_eq!(from.to_bytes(), peer(2).to_bytes());
            assert_eq!(message, lines(&["hi", "yo"]));
        }
        other => panic!("unexpected {:?}", other),
    }
    match core.plan_command(QalamCommand::RequestPersona { peer: peer(3) }) {
        CommandPlan::SendRequest { peer: p, request } => {
            assert_eq!(p.to_bytes(), peer(3).to_bytes());
            assert_eq!(request, QalamDirectRequest::Persona);
        }
        other => panic!("unexpected {:?}", other),
    }
}

#[test]
fn join_deliver_leave() {
    let mut core = QalamCore::new("alice".to_string(), peer(1));
    let room = RoomId::room("general");
    let topic = room.as_str();
    assert_eq!(core.deliver_gossip(&topic, b"hello".to_vec()), Ok(None));
    assert!(core.finish_join(room, false).is_none());
    assert!(!core.has_joined(&room));
    assert!(matches!(core.finish_join(room, true), Some(QalamEvent::RoomJoined { room: r }) if r == room));
    assert!(core.has_joined(&room));
    assert_eq!(
        core.deliver_gossip(&topic, b"hello\r\nworld".to_vec()),
        Ok(Some((room, lines(&["hello", "world"]))))
    );
    assert_eq!(core.deliver_gossip("room/other", b"hello".to_vec()), Ok(None));
    assert_eq!(core.deliver_gossip(&topic, vec![0xff, 0xfe]), Err(GossipError::InvalidUtf8));
    assert!(core.finish_leave(room, false).is_none());
    assert!(core.has_joined(&room));
    let left = core.finish_leave(room, true);
    assert!(matches!(left, Some((QalamEvent::RoomLeft { room: r }, true)) if r == room));
    assert_eq!(core.deliver_gossip(&topic, b"hello".to_vec()), Ok(None));
    assert!(matches!(core.finish_leave(room, true), Some((QalamEvent::RoomLeft { .. }, false))));
}

#[test]
fn published_message_is_received_as_sent() {
    let mut sender = QalamCore::new("a".to_string(), peer(1));
    let mut receiver = QalamCore::new("b".to_string(), peer(2));
    let room = RoomId::room("lobby");
    sender.finish_join(room, true);
    receiver.finish_join(room, true);
    let msg = lines(&["line one", "", "caf\u{e9}"]);
    match sender.plan_command(QalamCommand::SendRoomMessage { room, from: peer(1), message: msg.clone() }) {
        CommandPlan::Publish { topic, data, .. } => {
            assert_eq!(receiver.deliver_gossip(&topic, data), Ok(Some((room, msg))));
        }
        other => panic!("unexpected {:?}", other),
    }
}

#[test]
fn direct_requests_are_answered() {
    let me = peer(7);
    let core = QalamCore::new("carol".to_string(), me.clone());
    assert_eq!(core.local_peer_id().to_bytes(), me.to_bytes());
    assert!(matches!(core.handle_direct_request(QalamDirectRequest::Ping), QalamDirectResponse::Pong));
    match core.handle_direct_request(QalamDirectRequest::Persona) {
        QalamDirectResponse::Persona { peer, ident } => {
            assert_eq!(peer.to_bytes(), me.to_bytes());
            assert_eq!(ident, "carol");
        }
        other => panic!("unexpected {:?}", other),
    }
}

#[test]
fn direct_responses_become_events() {
    let core = QalamCore::new("carol".to_string(), peer(7));
    assert!(core.handle_direct_response(QalamDirectResponse::Pong).is_none());
    match core.handle_direct_response(QalamDirectResponse::Persona { peer: peer(8), ident: "dave".to_string() }) {
        Some(QalamEvent::PersonaReceived { peer: p, persona }) => {
            assert_eq!(p.to_bytes(), peer(8).to_bytes());
            assert_eq!(persona, "dave");
        }
        other => panic!("unexpected {:?}", other),
    }
}

#[test]
fn key_file_names() {
    let expected = format!("{}.key", hex_encode(&sha256(b"alice")));
    assert_eq!(key_file_name("alice"), expected);
    assert_ne!(key_file_name("alice"), key_file_name("bob"));
}

#[test]
fn stored_key_opens_for_its_persona_only() {
    let keypair = libp2p::identity::Keypair::generate_ed25519();
    let bytes = keypair.to_protobuf_encoding().unwrap();
    let opened = open_stored_key("alice", "alice", &bytes).unwrap();
    assert_eq!(opened.public().to_peer_id(), keypair.public().to_peer_id());
    assert!(matches!(open_stored_key("alice", "bob", &bytes), Err(KeypairError::WrongPersona)));
    assert!(matches!(open_stored_key("alice", "bob", &[1, 2, 3]), Err(KeypairError::WrongPersona)));
    match open_stored_key("alice", "alice", &[1, 2, 3]) {
        Err(KeypairError::InvalidKey(msg)) => {
            let expected = libp2p::identity::Keypair::from_protobuf_encoding(&[1, 2, 3]).unwrap_err().to_string();
            assert_eq!(msg, expected);
        }
        other => panic!("unexpected {:?}", other.map(|k| k.public())),
    }
}

#[test]
fn persona_must_match_stored_key() {
    assert_eq!(check_persona("alice", "alice"), Ok(()));
    assert_eq!(check_persona("alice", "bob"), Err(KeypairError::WrongPersona));
}
