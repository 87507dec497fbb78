use agent_orchestrator::codec::{decode_message, encode_message};
use agent_orchestrator::message::{AgentMessage, MessageKind, MsgId};
use agent_orchestrator::roles::{AgentId, AgentRole};
use agent_orchestrator::transport::{frame_message, parse_frame_len};
use tokio::io::{AsyncReadExt, AsyncWriteExt};

#[test]
fn framed_message_round_trips_over_a_local_socket() {
    let rt = tokio::runtime::Builder::new_current_thread()
        .enable_all()
        .build()
        .expect("runtime");
    rt.block_on(async {
        let (mut a, mut b) = tokio::net::UnixStream::pair().expect("socket pair");

        let m = AgentMessage {
            id: MsgId { hi: 0x0123456789abcdef, lo: 0xfedcba9876543210 },
            from: AgentId::new_singleton(AgentRole::Scorer),
            to: AgentId::new_singleton(AgentRole::Manager),
            kind: MessageKind::Observation,
            content: "watched the last exchange\nno concerns".to_string(),
            task_id: None,
        };

        // sender side: canonical text, framed, written, flushed
        let framed = frame_message(&encode_message(&m).into_bytes()).expect("fits");
        a.write_all(&framed).await.expect("write");
        a.flush().await.expect("flush");
        drop(a);

        // receiver side: length prefix first, then exactly that many bytes
        let mut prefix = [0u8; 4];
        b.read_exact(&mut prefix).await.expect("prefix");
        let len = parse_frame_len(prefix[0], prefix[1], prefix[2], prefix[3]).expect("cap ok");
        let mut payload = vec![0u8; len];
        b.read_exact(&mut payload).await.expect("payload");
        let text = String::from_utf8(payload).expect("utf8");
        let back = decode_message(&text).expect("decodes");

        assert_eq!(back.id, m.id);
        assert_eq!(back.from, m.from);
        assert_eq!(back.to, m.to);
        assert_eq!(back.kind, m.kind);
        assert_eq!(back.content, m.content);
        assert_eq!(back.task_id, m.task_id);
    });
}
