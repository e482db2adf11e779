use simulacra::{MessageId, NodeId};

#[test]
fn node_id_conversions() {
    let id = NodeId::new(42);
    assert_eq!(id.as_u32(), 42);
    assert_eq!(id.as_usize(), 42);

    let from_u32: NodeId = 10u32.into();
    assert_eq!(from_u32.as_u32(), 10);

    let from_usize: NodeId = 20usize.into();
    assert_eq!(from_usize.as_u32(), 20);
}

#[test]
fn node_id_ordering() {
    let ids = [NodeId(3), NodeId(1), NodeId(2)];
    let mut sorted = ids;
    sorted.sort();
    assert_eq!(sorted, [NodeId(1), NodeId(2), NodeId(3)]);
}

#[test]
fn message_id_basics() {
    let id = MessageId::new(12345);
    assert_eq!(id.as_u64(), 12345);
    assert_eq!(id.to_string(), "M12345");
}

#[test]
fn identifiers_have_a_text_for_debugging() {
    assert_eq!(NodeId(7).to_debug_string(), "Node(7)");
    assert_eq!(MessageId(12_345).to_debug_string(), "Msg(12345)");
}
