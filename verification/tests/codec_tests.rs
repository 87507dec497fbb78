use agent_orchestrator::codec::{decode_message, encode_message};
use agent_orchestrator::message::{AgentMessage, MessageKind, MsgId};
use agent_orchestrator::roles::{AgentId, AgentRole};

fn sample_message() -> AgentMessage {
    AgentMessage {
        id: MsgId { hi: 0xa1a2a3a4b1b2c1c2, lo: 0xd1d2d3d4d5d6d7d8 },
        from: AgentId { role: AgentRole::Developer, index: 2 },
        to: AgentId { role: AgentRole::Manager, index: 0 },
        kind: MessageKind::TaskComplete,
        content: "done".to_string(),
        task_id: None,
    }
}

fn assert_same(a: &AgentMessage, b: &AgentMessage) {
    assert_eq!(a.id, b.id);
    assert_eq!(a.from, b.from);
    assert_eq!(a.to, b.to);
    assert_eq!(a.kind, b.kind);
    assert_eq!(a.content, b.content);
    assert_eq!(a.task_id, b.task_id);
}

#[test]
fn encode_exact_wire_text() {
    let m = sample_message();
    let text = encode_message(&m);
    assert_eq!(
        text,
        "{\"id\":\"a1a2a3a4-b1b2-c1c2-d1d2-d3d4d5d6d7d8\",\
         \"from\":{\"role\":\"developer\",\"index\":2},\
         \"to\":{\"role\":\"manager\",\"index\":0},\
         \"kind\":\"task_complete\",\"content\":\"done\"}"
    );
}

#[test]
fn decode_exact_wire_text() {
    let text = "{\"id\":\"a1a2a3a4-b1b2-c1c2-d1d2-d3d4d5d6d7d8\",\
                \"from\":{\"role\":\"developer\",\"index\":2},\
                \"to\":{\"role\":\"manager\",\"index\":0},\
                \"kind\":\"task_complete\",\"content\":\"done\"}";
    let m = decode_message(text).expect("canonical text decodes");
    assert_same(&m, &sample_message());
}

#[test]
fn round_trip_without_task_id() {
    let m = sample_message();
    let back = decode_message(&encode_message(&m)).expect("round trip");
    assert_same(&m, &back);
}

#[test]
fn round_trip_with_task_id() {
    let mut m = sample_message();
    m.task_id = Some(MsgId { hi: 1, lo: u64::MAX });
    let back = decode_message(&encode_message(&m)).expect("round trip");
    assert_same(&m, &back);
}

#[test]
fn round_trip_escaped_content() {
    let mut m = sample_message();
    m.content = "line1\nline2\t\"quoted\" back\\slash \u{1}\u{1f} unicode \u{e9}\u{4e16}".to_string();
    let back = decode_message(&encode_message(&m)).expect("round trip");
    assert_same(&m, &back);
}

#[test]
fn round_trip_empty_content() {
    let mut m = sample_message();
    m.content = String::new();
    let back = decode_message(&encode_message(&m)).expect("round trip");
    assert_same(&m, &back);
}

#[test]
fn round_trip_fresh_message() {
    let m = AgentMessage::new(
        AgentId::new_singleton(AgentRole::Architect),
        AgentId::new_developer(1),
        MessageKind::TaskAssignment,
        "wire the handler".to_string(),
    )
    .with_task(MsgId { hi: 7, lo: 9 });
    let back = decode_message(&encode_message(&m)).expect("round trip");
    assert_same(&m, &back);
}

#[test]
fn fresh_messages_draw_distinct_ids() {
    let a = AgentMessage::new(
        AgentId::new_singleton(AgentRole::Manager),
        AgentId::new_singleton(AgentRole::Scorer),
        MessageKind::Info,
        "x".to_string(),
    );
    let b = AgentMessage::new(
        AgentId::new_singleton(AgentRole::Manager),
        AgentId::new_singleton(AgentRole::Scorer),
        MessageKind::Info,
        "x".to_string(),
    );
    assert_ne!(a.id, b.id, "identifiers are drawn fresh per message");
}

#[test]
fn decode_rejects_garbage() {
    assert!(decode_message("").is_none());
    assert!(decode_message("{}").is_none());
    assert!(decode_message("not json at all").is_none());
    assert!(decode_message("{\"id\":\"zzz\"}").is_none());
}

#[test]
fn decode_rejects_out_of_range_index() {
    let text = "{\"id\":\"a1a2a3a4-b1b2-c1c2-d1d2-d3d4d5d6d7d8\",\
                \"from\":{\"role\":\"developer\",\"index\":256},\
                \"to\":{\"role\":\"manager\",\"index\":0},\
                \"kind\":\"task_complete\",\"content\":\"done\"}";
    assert!(decode_message(text).is_none());
}

#[test]
fn decode_rejects_trailing_bytes() {
    let text = encode_message(&sample_message());
    let mut longer = text.clone();
    longer.push(' ');
    assert!(decode_message(&longer).is_none());
    assert!(decode_message(&text[..text.len() - 1]).is_none());
}
