use frand_home::app::app::{Message as AppMessage, YewApp as SumApp};
use frand_home::app::node::root::Root as SumRoot;
use frand_home::app::root::{handle_fits_exec, Root as NumberRoot};
use frand_home::backend::server_socket::{ServerSocket, ServerSocketConnection, ServerSocketMessage};
use frand_home::backend::simple_component::SimpleComponent;
use frand_home::common::client_socket::{ClientSocket, SocketMessage};
use frand_home::common::render::{Test, TestComponent};
use frand_home::common::node::client::Client;
use frand_home::common::simple::group_fits_exec;
use frand_home::common::yew_app::YewApp as PairApp;
use frand_home::frontend::yew_app::YewApp;
use frand_home::node::{I32Node, Node};
use frand_home::packet::Packet;
use frand_home::state::State;

fn i32_packet(key: &[u32], v: i32) -> Packet {
    Packet { key: key.to_vec(), data: State::I32(v).to_bytes() }
}

fn value_at(node: &Node, path: &[u32]) -> i32 {
    match node.state().get_at(path, 0) {
        Some(State::I32(v)) => *v,
        _ => panic!("no i32 at {:?}", path),
    }
}

#[test]
fn click_emits_one_more() {
    let e = I32Node::new(vec![0, 2], 41).emit_increment();
    assert_eq!(e.packet.key, vec![0, 2]);
    assert_eq!(e.packet.data, State::I32(42).to_bytes());
    assert_eq!(e.delay_ms, 0);
}

#[test]
fn browser_sends_its_own_and_applies_the_servers() {
    let mut app = YewApp::new(Node::new(vec![], None, NumberRoot::default_state()), ClientSocket::new(Some(())));
    let (render, bytes) = app.update(SocketMessage::Send(i32_packet(&[0, 1], 3)));
    assert!(render);
    assert_eq!(bytes.unwrap(), i32_packet(&[0, 1], 3).to_bytes());
    assert_eq!(value_at(app.root(), &[0, 1]), 0);
    let (render, bytes) = app.update(SocketMessage::Receive(i32_packet(&[1, 3], -8)));
    assert!(render && bytes.is_none());
    assert_eq!(value_at(app.root(), &[1, 3]), -8);
}

#[test]
fn browser_without_a_socket_writes_nothing() {
    let mut app: YewApp<()> = YewApp::new(Node::new(vec![], None, NumberRoot::default_state()), ClientSocket::new(None));
    let (_, bytes) = app.update(SocketMessage::Send(i32_packet(&[0, 1], 3)));
    assert!(bytes.is_none());
}

#[test]
fn sums_app_applies_both_and_sends_its_own() {
    let mut app = SumApp::new(Node::new(vec![], None, SumRoot::default_state()), ClientSocket::new(Some(())));
    let (render, bytes) = app.update(AppMessage::FromServer(i32_packet(&[0, 0, 0], 2)));
    assert!(render && bytes.is_none());
    let (render, bytes) = app.update(AppMessage::FromNode(i32_packet(&[1, 2, 1], 9)));
    assert!(!render);
    assert_eq!(bytes.unwrap(), i32_packet(&[1, 2, 1], 9).to_bytes());
    assert_eq!(value_at(app.container(), &[0, 0, 0]), 2);
    assert_eq!(value_at(app.container(), &[1, 2, 1]), 9);
}

#[test]
fn test_component_counts_what_it_applies() {
    let mut c = TestComponent::create(State::Fields(vec![
        State::Fields(vec![State::I32(1), State::I32(2), State::I32(3)]),
        State::Fields(vec![State::I32(4), State::I32(5), State::I32(6)]),
    ]));
    assert_eq!(value_at(c.node(), &[1, 2]), 6);
    assert!(c.update(&i32_packet(&[1, 2], 60)));
    assert!(c.update(&Packet { key: vec![], data: Test::default_state().to_bytes() }));
    assert_eq!(value_at(c.node(), &[1, 2]), 0);
    assert_eq!(c.message_count(), 2);
}

#[test]
fn simple_server_applies_broadcasts_and_counts_messages() {
    let mut socket: ServerSocket<u8> = ServerSocket::new();
    let conn = ServerSocketConnection::new(1u8);
    let id = conn.id();
    socket.on_new_socket(conn);
    let mut c = SimpleComponent::new(socket);
    assert_eq!(c.on_broadcast(&i32_packet(&[1, 0], 5), &|_: &u8, _: &Packet| true), (vec![id], Ok(())));
    assert_eq!(value_at(c.simple_node(), &[1, 0]), 5);
    assert_eq!(c.message_count(), 0);
    let (payload, count) = c.on_socket_message(ServerSocketMessage::Message(Some(id), i32_packet(&[0, 0], 1))).unwrap();
    assert_eq!(payload.key, vec![0, 0]);
    assert_eq!(count.packet.key, vec![2]);
    assert_eq!(count.packet.data, State::U32(1).to_bytes());
    assert!(c.on_socket_message(ServerSocketMessage::Open(id)).is_none());
}

#[test]
fn overflow_checks() {
    assert!(handle_fits_exec(&vec![0, 1], &State::I32(5)));
    assert!(!handle_fits_exec(&vec![0, 1], &State::I32(i32::MAX)));
    assert!(!handle_fits_exec(&vec![1, 1], &State::I32(i32::MIN)));
    assert!(handle_fits_exec(&vec![1], &State::I32(i32::MIN)));
    assert!(group_fits_exec(&vec![1, 0], &State::I32(1073741823)));
    assert!(!group_fits_exec(&vec![1, 0], &State::I32(1073741824)));
    assert!(group_fits_exec(&vec![1, 0], &State::I32(-1073741824)));
    assert!(!group_fits_exec(&vec![1, 0], &State::I32(-1073741825)));
    assert!(!group_fits_exec(&vec![0, 2], &State::I32(i32::MAX)));
}

#[test]
fn pair_app_sends_its_own_and_applies_the_servers() {
    let tree = State::Fields(vec![Client::default_state(), Client::default_state()]);
    let mut app = PairApp::new(Node::new(vec![], None, tree), ClientSocket::new(Some(())));
    let (render, bytes) = app.update(SocketMessage::Send(i32_packet(&[1, 0], 5)));
    assert!(render);
    assert_eq!(bytes.unwrap(), i32_packet(&[1, 0], 5).to_bytes());
    assert_eq!(value_at(app.node(), &[1, 0]), 0);
    let (render, bytes) = app.update(SocketMessage::Receive(i32_packet(&[0, 2], 7)));
    assert!(render && bytes.is_none());
    assert_eq!(value_at(app.node(), &[0, 2]), 7);
}
