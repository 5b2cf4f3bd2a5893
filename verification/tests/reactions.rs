use frand_home::app::node::root::Root as SumRoot;
use frand_home::app::root::{handle, Root as NumberRoot};
use frand_home::backend::client::Client;
use frand_home::backend::server::Server;
use frand_home::common::render::TestComponent;
use frand_home::common::simple::Simple;
use frand_home::node::{Action, Emission, Message, Node};
use frand_home::packet::Packet;
use frand_home::state::State;

fn i32_bytes(v: i32) -> Vec<u8> {
    State::I32(v).to_bytes()
}

fn packet(key: &[u32], v: i32) -> Packet {
    Packet { key: key.to_vec(), data: i32_bytes(v) }
}

fn message(key: &[u32], v: i32) -> Message {
    Message { path: key.to_vec(), state: State::I32(v) }
}

fn emitted(e: &Emission) -> (Vec<u32>, Vec<u8>, u64) {
    (e.packet.key.clone(), e.packet.data.clone(), e.delay_ms)
}

fn value_at(node: &Node, path: &[u32]) -> i32 {
    match node.state().get_at(path, 0) {
        Some(State::I32(v)) => *v,
        _ => panic!("no i32 at {:?}", path),
    }
}

fn client() -> Client {
    Client::new(Node::new(vec![], None, SumRoot::default_state()))
}

#[test]
fn new_number_of_a_sum_emits_the_sum_later() {
    let mut c = client();
    assert_eq!(c.process(&packet(&[0, 0, 0], 3)).len(), 1);
    let out = c.process(&packet(&[0, 0, 1], 4));
    assert_eq!(out.len(), 1);
    assert_eq!(emitted(&out[0]), (vec![0, 0, 2], i32_bytes(7), 200));
}

#[test]
fn first_number_alone_sums_with_zero() {
    let mut c = client();
    let out = c.process(&packet(&[1, 2, 0], 5));
    assert_eq!(out.len(), 1);
    assert_eq!(emitted(&out[0]), (vec![1, 2, 2], i32_bytes(5), 200));
}

#[test]
fn sums_of_the_first_two_feed_the_third() {
    let mut c = client();
    let out = c.process(&packet(&[0, 0, 2], 11));
    assert_eq!(out.len(), 1);
    assert_eq!(emitted(&out[0]), (vec![0, 2, 0], i32_bytes(11), 0));
    let out = c.process(&packet(&[1, 1, 2], 12));
    assert_eq!(out.len(), 1);
    assert_eq!(emitted(&out[0]), (vec![1, 2, 1], i32_bytes(12), 0));
    assert!(c.process(&packet(&[0, 2, 2], 13)).is_empty());
}

#[test]
fn sum_that_overflows_is_not_emitted() {
    let mut c = client();
    assert_eq!(c.process(&packet(&[0, 1, 0], i32::MAX)).len(), 1);
    assert!(c.process(&packet(&[0, 1, 1], 1)).is_empty());
}

#[test]
fn packet_for_a_whole_group_is_not_answered() {
    let mut c = client();
    let p = Packet { key: vec![0, 0], data: State::Fields(vec![State::I32(1), State::I32(2), State::I32(3)]).to_bytes() };
    assert!(c.process(&p).is_empty());
}

#[test]
fn server_routes_shared_to_all_and_personal_back() {
    let mut s = Server::new(());
    let r = s.process(Some(7), packet(&[0, 1, 1], 1)).unwrap();
    assert_eq!(r.0, None);
    let r = s.process(Some(7), packet(&[1, 1, 1], 1)).unwrap();
    assert_eq!(r.0, Some(7));
    let whole = Packet { key: vec![], data: SumRoot::default_state().to_bytes() };
    assert!(s.process(Some(7), whole).is_none());
}

fn emit_parts(a: &Action) -> (Vec<u32>, Vec<u8>) {
    match a {
        Action::Emit(e) => (e.packet.key.clone(), e.packet.data.clone()),
        _ => panic!("not an emission"),
    }
}

#[test]
fn shared_number_sets_the_next_one_plus_one() {
    let root = Node::new(vec![], None, NumberRoot::default_state());
    let payload = packet(&[0, 3], 10);
    let actions = handle(9, &root, &message(&[0, 3], 10), payload);
    assert_eq!(actions.len(), 2);
    assert!(matches!(&actions[0], Action::Forward(p) if p.key == vec![0, 3]));
    assert_eq!(emit_parts(&actions[1]), (vec![0, 0], i32_bytes(11)));
}

#[test]
fn personal_number_sets_its_neighbours() {
    let root = Node::new(vec![], None, NumberRoot::default_state());
    let actions = handle(9, &root, &message(&[1, 0], 5), packet(&[1, 0], 5));
    assert_eq!(actions.len(), 3);
    assert!(matches!(&actions[0], Action::SendTo(9, _)));
    assert_eq!(emit_parts(&actions[1]), (vec![1, 3], i32_bytes(4)));
    assert_eq!(emit_parts(&actions[2]), (vec![1, 1], i32_bytes(6)));
}

#[test]
fn whole_root_message_is_not_answered() {
    let root = Node::new(vec![], None, NumberRoot::default_state());
    let m = Message { path: vec![], state: NumberRoot::default_state() };
    let p = Packet { key: vec![], data: NumberRoot::default_state().to_bytes() };
    assert!(handle(1, &root, &m, p).is_empty());
}

#[test]
fn second_group_doubles_and_halves_toward_zero() {
    let c = TestComponent::new();
    let actions = c.perform(&message(&[1, 0], -3), packet(&[1, 0], -3));
    assert_eq!(actions.len(), 3);
    assert!(matches!(&actions[0], Action::Forward(_)));
    assert_eq!(emit_parts(&actions[1]), (vec![1, 1], i32_bytes(-6)));
    assert_eq!(emit_parts(&actions[2]), (vec![1, 2], i32_bytes(-1)));
    let actions = c.perform(&message(&[1, 2], 7), packet(&[1, 2], 7));
    assert_eq!(emit_parts(&actions[1]), (vec![1, 0], i32_bytes(14)));
    assert_eq!(emit_parts(&actions[2]), (vec![1, 1], i32_bytes(3)));
}

#[test]
fn first_group_counts_round_in_steps_of_three() {
    // number1 takes 1; each answer sets the next number to one more, so
    // after the i-th round the numbers are 3i + 1, 3i + 2, 3i + 3.
    let mut c = TestComponent::new();
    let mut pending = packet(&[0, 0], 1);
    for i in 0..10 {
        for _ in 0..3 {
            let m = Message::from_packet(0, &pending, c.node().state());
            let actions = c.perform(&m, pending.duplicate());
            assert!(c.update(&pending));
            pending = match &actions[1] {
                Action::Emit(e) => e.packet.duplicate(),
                _ => panic!("the first group answers with one emission"),
            };
        }
        assert_eq!(value_at(c.node(), &[0, 0]), i * 3 + 1);
        assert_eq!(value_at(c.node(), &[0, 1]), i * 3 + 2);
        assert_eq!(value_at(c.node(), &[0, 2]), i * 3 + 3);
    }
    assert_eq!(c.message_count(), 30);
}

#[test]
fn simple_tree_starts_at_zero() {
    let s = Simple::default_state();
    assert_eq!(s.to_bytes(), vec![0; 28]);
}

/// Processes a packet and, in turn, every packet its answers emit.
fn settle(c: &mut Client, first: Packet) {
    let mut queue = vec![first];
    while let Some(p) = queue.pop() {
        for e in c.process(&p) {
            queue.push(e.packet);
        }
    }
}

fn group_agrees(c: &Client, g: u32) -> bool {
    let n = |s: u32, f: u32| value_at(c.processor(), &[g, s, f]);
    n(0, 2) == n(0, 0) + n(0, 1)
        && n(1, 2) == n(1, 0) + n(1, 1)
        && n(2, 0) == n(0, 2)
        && n(2, 1) == n(1, 2)
        && n(2, 2) == n(2, 0) + n(2, 1)
}

#[test]
fn answers_leave_each_group_agreeing() {
    let mut c = client();
    settle(&mut c, packet(&[0, 0, 0], 3));
    settle(&mut c, packet(&[0, 1, 1], -8));
    settle(&mut c, packet(&[0, 0, 1], 40));
    assert!(group_agrees(&c, 0));
    assert_eq!(value_at(c.processor(), &[0, 2, 2]), 35);
    settle(&mut c, packet(&[1, 1, 0], 6));
    assert!(group_agrees(&c, 1));
    assert_eq!(value_at(c.processor(), &[1, 2, 2]), 6);
}

#[test]
fn number_written_into_the_third_sum_is_kept() {
    let mut c = client();
    settle(&mut c, packet(&[0, 2, 0], 9));
    assert_eq!(value_at(c.processor(), &[0, 2, 2]), 9);
    assert!(!group_agrees(&c, 0));
}
