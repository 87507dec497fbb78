use agent_orchestrator::codec::{decode_message, encode_message};
use agent_orchestrator::message::{AgentMessage, MessageKind, MsgId};
use agent_orchestrator::roles::{AgentId, AgentRole};
use agent_orchestrator::transport::{
    frame_message, parse_frame_len, socket_file_name, PeerCredentials, TransportError,
    MAX_MESSAGE_SIZE,
};

#[test]
fn oversize_declared_length_is_refused_before_allocation() {
    // 16 MiB + 1 as a big-endian prefix: 0x01_00_00_01
    let r = parse_frame_len(0x01, 0x00, 0x00, 0x01);
    assert_eq!(r, Err(TransportError::MessageTooLarge));
}

#[test]
fn max_length_is_accepted() {
    let r = parse_frame_len(0x01, 0x00, 0x00, 0x00);
    assert_eq!(r, Ok(MAX_MESSAGE_SIZE));
}

#[test]
fn frame_prefix_matches_length() {
    let payload: Vec<u8> = b"hello frame".to_vec();
    let framed = frame_message(&payload).expect("fits");
    assert_eq!(framed.len(), payload.len() + 4);
    assert_eq!(&framed[..4], &[0, 0, 0, 11]);
    assert_eq!(&framed[4..], payload.as_slice());
    let back = parse_frame_len(framed[0], framed[1], framed[2], framed[3]).expect("small");
    assert_eq!(back, payload.len());
}

#[test]
fn oversize_payload_is_refused_by_sender() {
    let payload = vec![0u8; MAX_MESSAGE_SIZE + 1];
    assert_eq!(frame_message(&payload), Err(TransportError::MessageTooLarge));
}

#[test]
fn framed_message_survives_a_byte_stream() {
    // One side frames a message; the other reads the prefix, then the
    // payload, and decodes the same structure.
    let m = AgentMessage {
        id: MsgId { hi: 5, lo: 6 },
        from: AgentId::new_singleton(AgentRole::Manager),
        to: AgentId::new_singleton(AgentRole::Architect),
        kind: MessageKind::Info,
        content: "ship it \u{1F980} carefully".to_string(),
        task_id: Some(MsgId { hi: 8, lo: 15 }),
    };
    let wire_text = encode_message(&m);
    let framed = frame_message(&wire_text.as_bytes().to_vec()).expect("fits");

    // receiving side
    let declared = parse_frame_len(framed[0], framed[1], framed[2], framed[3]).expect("cap ok");
    assert_eq!(declared, framed.len() - 4);
    let payload = &framed[4..4 + declared];
    let text = String::from_utf8(payload.to_vec()).expect("utf8");
    let back = decode_message(&text).expect("decodes");
    assert_eq!(back.id, m.id);
    assert_eq!(back.from, m.from);
    assert_eq!(back.to, m.to);
    assert_eq!(back.kind, m.kind);
    assert_eq!(back.content, m.content);
    assert_eq!(back.task_id, m.task_id);
}

#[test]
fn same_user_rule() {
    let creds = PeerCredentials { pid: 1234, uid: 1000, gid: 1000 };
    assert!(creds.is_same_user(1000));
    assert!(!creds.is_same_user(0));
}

#[test]
fn socket_file_names() {
    assert_eq!(socket_file_name(&AgentId::new_singleton(AgentRole::Manager)), "manager.sock");
    assert_eq!(socket_file_name(&AgentId::new_developer(2)), "developer-2.sock");
}
