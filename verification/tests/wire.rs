use frand_home::node::{Message, Node};
use frand_home::packet::{Packet, PacketError};
use frand_home::state::State;

fn leaf_pair() -> State {
    State::Fields(vec![State::I32(-5), State::U32(7)])
}

#[test]
fn state_bytes_are_leaves_little_endian() {
    assert_eq!(leaf_pair().to_bytes(), vec![251, 255, 255, 255, 7, 0, 0, 0]);
}

#[test]
fn state_bytes_read_back() {
    let template = State::Fields(vec![State::I32(0), State::U32(0)]);
    let bytes = leaf_pair().to_bytes();
    match template.decode_like(&bytes) {
        Some(State::Fields(fs)) => {
            assert!(matches!(fs[0], State::I32(-5)));
            assert!(matches!(fs[1], State::U32(7)));
        }
        _ => panic!("the bytes of a state decode against its type"),
    }
}

#[test]
fn state_bytes_of_wrong_length_are_refused() {
    let template = State::Fields(vec![State::I32(0), State::U32(0)]);
    assert!(template.decode_like(&[1, 2, 3, 4, 5, 6, 7]).is_none());
    assert!(template.decode_like(&[0; 9]).is_none());
    assert!(template.byte_width() == Some(8));
}

#[test]
fn packet_bytes_frame_key_then_data() {
    let p = Packet { key: vec![1, 258], data: vec![9, 8] };
    assert_eq!(p.to_bytes(), vec![2, 0, 0, 0, 1, 0, 0, 0, 2, 1, 0, 0, 9, 8]);
}

#[test]
fn packet_bytes_read_back() {
    let p = Packet { key: vec![0, 2, 1], data: vec![5, 6, 7, 8] };
    let back = Packet::from_bytes(&p.to_bytes()).unwrap();
    assert_eq!(back.key, p.key);
    assert_eq!(back.data, p.data);
}

#[test]
fn packet_with_empty_key_and_data() {
    let p = Packet { key: vec![], data: vec![] };
    assert_eq!(p.to_bytes(), vec![0, 0, 0, 0]);
    let back = Packet::from_bytes(&[0, 0, 0, 0]).unwrap();
    assert!(back.key.is_empty() && back.data.is_empty());
}

#[test]
fn packet_bytes_cut_short_are_truncated() {
    assert!(matches!(Packet::from_bytes(&[1, 0, 0]), Err(PacketError::Truncated)));
    assert!(matches!(Packet::from_bytes(&[2, 0, 0, 0, 1, 0, 0, 0]), Err(PacketError::Truncated)));
    assert!(matches!(Packet::from_bytes(&[255, 255, 255, 255]), Err(PacketError::Truncated)));
}

#[test]
fn packet_ids_by_depth() {
    let p = Packet { key: vec![4, 5], data: vec![] };
    assert_eq!(p.get_id(0), Some(4));
    assert_eq!(p.get_id(1), Some(5));
    assert_eq!(p.get_id(2), None);
}

fn tree() -> State {
    State::Fields(vec![
        State::Fields(vec![State::I32(1), State::I32(2)]),
        State::U32(3),
    ])
}

fn leaf_at(s: &State, path: &[u32]) -> State {
    s.get_at(path, 0).unwrap().duplicate()
}

#[test]
fn emitted_packet_sets_its_node_and_nothing_else() {
    let mut root = Node::new(vec![], None, tree());
    let p = root.emit_at(&[0, 1], &State::I32(42));
    assert_eq!(p.key, vec![0, 1]);
    assert!(root.check_packet(&p).is_ok());
    root.apply_packet(&p);
    assert!(matches!(leaf_at(root.state(), &[0, 1]), State::I32(42)));
    assert!(matches!(leaf_at(root.state(), &[0, 0]), State::I32(1)));
    assert!(matches!(leaf_at(root.state(), &[1]), State::U32(3)));
}

#[test]
fn packet_for_the_whole_node_replaces_its_state() {
    let mut root = Node::new(vec![], None, tree());
    let new = State::Fields(vec![State::Fields(vec![State::I32(7), State::I32(8)]), State::U32(9)]);
    let p = root.emit(&new);
    root.apply_packet(&p);
    assert!(matches!(leaf_at(root.state(), &[0, 0]), State::I32(7)));
    assert!(matches!(leaf_at(root.state(), &[1]), State::U32(9)));
}

#[test]
fn node_below_the_root_reads_keys_from_its_depth() {
    let mut sub = Node::new(vec![3], Some(1), State::Fields(vec![State::I32(0), State::I32(0)]));
    assert_eq!(sub.key(), &vec![3, 1]);
    let p = Packet { key: vec![3, 1, 1], data: State::I32(-1).to_bytes() };
    sub.apply_packet(&p);
    assert!(matches!(leaf_at(sub.state(), &[1]), State::I32(-1)));
}

#[test]
fn unknown_ids_and_wrong_states_are_refused() {
    let root = Node::new(vec![], None, tree());
    let far = Packet { key: vec![2], data: vec![0, 0, 0, 0] };
    assert_eq!(root.check_packet(&far), Err(PacketError::UnknownId));
    let below_leaf = Packet { key: vec![1, 0], data: vec![0, 0, 0, 0] };
    assert_eq!(root.check_packet(&below_leaf), Err(PacketError::UnknownId));
    let short = Packet { key: vec![0, 0], data: vec![0, 0] };
    assert_eq!(root.check_packet(&short), Err(PacketError::StateMismatch));
}

#[test]
fn message_names_the_path_and_state() {
    let root = Node::new(vec![], None, tree());
    let p = root.emit_at(&[0, 0], &State::I32(13));
    let m = Message::from_packet(0, &p, root.state());
    assert_eq!(m.path, vec![0, 0]);
    assert!(matches!(m.state, State::I32(13)));
}

#[test]
fn wire_round_trip_then_apply() {
    let mut root = Node::new(vec![], None, tree());
    let p = root.emit_at(&[1], &State::U32(99));
    let bytes = p.try_to_bytes().unwrap();
    let back = Packet::from_bytes(&bytes).unwrap();
    root.apply_packet(&back);
    assert!(matches!(leaf_at(root.state(), &[1]), State::U32(99)));
}

#[test]
fn each_node_below_has_its_own_key() {
    let root = frand_home::node::Node::new(vec![7], None, frand_home::app::root::Root::default_state());
    let a = root.emit_at(&[0, 1], &State::I32(1));
    let b = root.emit_at(&[1, 0], &State::I32(1));
    assert_eq!(a.key, vec![7, 0, 1]);
    assert_eq!(b.key, vec![7, 1, 0]);
    assert_ne!(a.key, b.key);
}
