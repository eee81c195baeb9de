use game_world::compute::{route_user, Route};
use game_world::network::api::MoveSlots;
use game_world::network::raft_network_impl::{members_without, Network};
use game_world::node::Node;
use game_world::slot::Slots;
use game_world::store::state_machine::Request;

#[test]
fn rpc_urls() {
    let n = Node::Compute("10.1.2.3:9000".to_string());
    let url = Network::rpc_url(&n, "raft-vote").ok().unwrap();
    assert_eq!("http://10.1.2.3:9000/raft-vote", url);
    assert!(Network::rpc_url(&Node::Unknow, "raft-vote").is_err());
}

#[test]
fn retries_drop_after_six_failures() {
    let net = Network {};
    let mut conn = net.new_client(1, &Node::User("10.0.0.1:1".to_string()));
    for _ in 0..5 {
        assert!(!conn.record_append(false));
    }
    assert!(conn.record_append(false));
    assert!(conn.record_append(false));
    assert!(!conn.record_append(true));
    assert!(!conn.record_append(false));
    assert_eq!(&Node::User("10.0.0.1:1".to_string()), conn.target());
}

#[test]
fn members_without_target() {
    assert_eq!(vec![1, 3], members_without(&vec![1, 2, 3], 2));
    assert_eq!(vec![1, 2, 3], members_without(&vec![1, 2, 3], 9));
}

#[test]
fn move_slots_request() {
    let req: Request<()> = MoveSlots { node_addr: "a:1".to_string(), slots: vec![1, 2] }.into_request();
    match req {
        Request::MoveSlots { node_addr, slots } => {
            assert_eq!("a:1", node_addr);
            assert_eq!(vec![1, 2], slots);
        }
        _ => panic!("wrong request"),
    }
}

#[test]
fn routes() {
    let mut table = Slots::default();
    table.move_to(&Node::Compute("10.0.0.5:5".to_string()), &[3]);
    assert!(matches!(route_user(&table, 3, 3), Route::Stay));
    match route_user(&table, 3, 4) {
        Route::MoveTo(addr) => assert_eq!("10.0.0.5:5", addr),
        _ => panic!("expected a move"),
    }
    assert!(matches!(route_user(&table, 400, 4), Route::Drop));
}
