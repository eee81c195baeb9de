use game_world::node::Node;
use game_world::slot::Slots;
use game_world::store::log::{opt_log_id_le_exec, LogId, RaftLog};
use game_world::store::snapshot::snapshot_id;
use game_world::store::state_machine::{
    Entry, EntryPayload, Membership, Request, StateMachine, StoredMembership,
};

fn id(term: u64, node_id: u64, index: u64) -> LogId {
    LogId { term, node_id, index }
}

fn indexes(log: &RaftLog<&'static str>) -> Vec<u64> {
    (0..log.len()).map(|p| log.entry_at(p).0.index).collect()
}

#[test]
fn log_insert_keeps_index_order() {
    let mut log: RaftLog<&'static str> = RaftLog::new();
    let state = log.get_log_state();
    assert_eq!(None, state.last_log_id);
    log.insert(id(1, 1, 3), "c");
    log.insert(id(1, 1, 1), "a");
    log.insert(id(1, 1, 2), "b");
    assert_eq!(vec![1, 2, 3], indexes(&log));
    log.insert(id(2, 1, 2), "b2");
    assert_eq!(vec![1, 2, 3], indexes(&log));
    assert_eq!(&(id(2, 1, 2), "b2"), log.entry_at(1));
    assert_eq!(Some(id(1, 1, 3)), log.get_log_state().last_log_id);
}

#[test]
fn log_range_and_deletes() {
    let mut log: RaftLog<&'static str> = RaftLog::new();
    for i in 1..=6u64 {
        log.insert(id(1, 1, i), "x");
    }
    assert_eq!((1, 4), log.range(2, Some(5)));
    assert_eq!((3, 6), log.range(4, None));
    assert_eq!((0, 0), log.range(0, Some(1)));
    assert_eq!((4, 4), log.range(5, Some(3)));
    log.delete_conflict_logs_since(5);
    assert_eq!(vec![1, 2, 3, 4], indexes(&log));
    log.purge_logs_upto(id(1, 1, 2));
    assert_eq!(vec![3, 4], indexes(&log));
    let state = log.get_log_state();
    assert_eq!(Some(id(1, 1, 2)), state.last_purged_log_id);
    assert_eq!(Some(id(1, 1, 4)), state.last_log_id);
    log.purge_logs_upto(id(1, 1, 4));
    assert_eq!(0, log.len());
    let state = log.get_log_state();
    assert_eq!(Some(id(1, 1, 4)), state.last_log_id);
}

#[test]
fn snapshot_ids() {
    assert_eq!("3-7-120-5", snapshot_id(Some(id(3, 7, 120)), 5));
    assert_eq!("--1", snapshot_id(None, 1));
    assert_eq!("0-0-0-18446744073709551615", snapshot_id(Some(id(0, 0, 0)), u64::MAX));
}

fn machine(members: Vec<(u64, Node)>) -> StateMachine<(), ()> {
    StateMachine {
        last_applied_log: None,
        last_membership: StoredMembership {
            log_id: None,
            membership: Membership { config: (), nodes: members },
        },
        slots: Slots::default(),
        world_state_snapshot: (),
    }
}

#[test]
fn apply_entries() {
    let c = Node::Compute("10.0.0.9:80".to_string());
    let mut sm = machine(vec![(1, Node::User("10.0.0.1:80".to_string())), (2, c.clone())]);
    let entries = vec![
        Entry { log_id: id(1, 1, 1), payload: EntryPayload::Blank },
        Entry {
            log_id: id(1, 1, 2),
            payload: EntryPayload::Normal(Request::MoveSlots {
                node_addr: "10.0.0.9:80".to_string(),
                slots: vec![4, 8],
            }),
        },
        Entry {
            log_id: id(1, 1, 3),
            payload: EntryPayload::Normal(Request::MoveSlots {
                node_addr: "10.0.0.1:80".to_string(),
                slots: vec![5],
            }),
        },
        Entry {
            log_id: id(1, 1, 4),
            payload: EntryPayload::Membership(Membership { config: (), nodes: vec![] }),
        },
    ];
    let res = sm.apply_to_state_machine(entries);
    let values: Vec<Option<String>> = res.into_iter().map(|r| r.value).collect();
    assert_eq!(
        vec![
            None,
            Some("ok".to_string()),
            Some("no such compute node: \"10.0.0.1:80\"".to_string()),
            None
        ],
        values
    );
    assert_eq!(Some(&c), sm.slots.get_node(4));
    assert_eq!(Some(&c), sm.slots.get_node(8));
    assert_eq!(Some(&Node::Unknow), sm.slots.get_node(5));
    assert_eq!(Some(id(1, 1, 4)), sm.last_applied_log);
    assert_eq!(Some(id(1, 1, 4)), sm.last_membership.log_id);
    assert!(sm.last_membership.membership.nodes.is_empty());
}

#[test]
fn log_id_order() {
    assert!(opt_log_id_le_exec(&None, &None));
    assert!(opt_log_id_le_exec(&None, &Some(id(0, 0, 0))));
    assert!(!opt_log_id_le_exec(&Some(id(0, 0, 0)), &None));
    assert!(opt_log_id_le_exec(&Some(id(1, 9, 9)), &Some(id(2, 0, 0))));
    assert!(opt_log_id_le_exec(&Some(id(2, 1, 9)), &Some(id(2, 2, 0))));
    assert!(opt_log_id_le_exec(&Some(id(2, 2, 3)), &Some(id(2, 2, 3))));
    assert!(!opt_log_id_le_exec(&Some(id(2, 2, 4)), &Some(id(2, 2, 3))));
    assert!(!opt_log_id_le_exec(&Some(id(3, 0, 0)), &Some(id(2, 9, 9))));
}
