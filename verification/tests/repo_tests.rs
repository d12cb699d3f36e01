use dataflow_node::{DataRecord, DataState, Direction, Graph, MemRepo, MongoConfig, Node, RepoError};

fn rec(node: &str, id: &str, direction: Direction, state: DataState) -> DataRecord {
    DataRecord {
        id: id.to_string(),
        node_name: node.to_string(),
        direction,
        state,
        sent: Vec::new(),
    }
}

fn node(name: &str) -> Node {
    Node {
        node_name: name.to_string(),
        node_type: 1,
        upstreams: vec!["up".to_string()],
        script: "run".to_string(),
    }
}

#[test]
fn claim_input_no_duplicates_no_omissions() {
    // Two eligible records; repeated claims return each exactly once,
    // then "none available".
    let mut repo = MemRepo::new();
    repo.insert_new_path(&rec("n", "r1", Direction::In, DataState::Received)).unwrap();
    repo.insert_new_path(&rec("n", "r2", Direction::In, DataState::Received)).unwrap();
    repo.insert_new_path(&rec("n", "r3", Direction::Out, DataState::Received)).unwrap();
    repo.insert_new_path(&rec("other", "r1", Direction::In, DataState::Received)).unwrap();

    let a = repo.find_and_assign_input_data("n").expect("first claim");
    let b = repo.find_and_assign_input_data("n").expect("second claim");
    assert_eq!(a.state, DataState::Assigned);
    assert_eq!(b.state, DataState::Assigned);
    assert_ne!(a.id, b.id);
    let mut ids = vec![a.id.clone(), b.id.clone()];
    ids.sort();
    assert_eq!(ids, vec!["r1".to_string(), "r2".to_string()]);
    assert!(repo.find_and_assign_input_data("n").is_none());
}

#[test]
fn claim_input_none_when_nothing_eligible() {
    let mut repo = MemRepo::new();
    repo.insert_new_path(&rec("n", "r1", Direction::Out, DataState::Received)).unwrap();
    repo.insert_new_path(&rec("n", "r2", Direction::In, DataState::Assigned)).unwrap();
    assert!(repo.find_and_assign_input_data("n").is_none());
}

#[test]
fn assigned_record_never_regresses() {
    // Once Assigned, later claims never observe the record as Received.
    let mut repo = MemRepo::new();
    repo.insert_new_path(&rec("n", "r1", Direction::In, DataState::Received)).unwrap();
    let a = repo.find_and_assign_input_data("n").unwrap();
    assert_eq!(a.id, "r1");
    assert_eq!(a.state, DataState::Assigned);
    assert!(repo.find_and_assign_input_data("n").is_none());
    assert!(repo.find_and_sent_output_data("n").is_none());
    let seen = repo.find_by_node_id("n", "r1").unwrap();
    assert_eq!(seen.state, DataState::Assigned);
}

#[test]
fn sent_record_never_regresses() {
    let mut repo = MemRepo::new();
    repo.insert_new_path(&rec("n", "r1", Direction::Out, DataState::Received)).unwrap();
    let a = repo.find_and_sent_output_data("n").unwrap();
    assert_eq!(a.state, DataState::PartialSent);
    repo.update_state("n", "r1", DataState::Sent);
    assert!(repo.find_and_sent_output_data("n").is_none());
    assert_eq!(repo.find_by_node_id("n", "r1").unwrap().state, DataState::Sent);
}

#[test]
fn insert_node_duplicate_fails_with_uniqueness_violation() {
    let mut repo = MemRepo::new();
    repo.insert_node(node("n0")).unwrap();
    let err = repo.insert_node(node("n0")).unwrap_err();
    assert_eq!(err, RepoError::UniquenessViolation);
    assert_eq!(err.describe(), "uniqueness violation");
    // The repository still holds exactly one node with that name: the
    // lookup finds it, and a fresh name still inserts cleanly.
    let found = repo.get_node_by_name("n0").expect("node still there");
    assert_eq!(found.node_name, "n0");
    repo.insert_node(node("n1")).unwrap();
}

#[test]
fn output_claim_and_finalize_end_to_end() {
    // Node n0 owns one Out-direction record r1 in Received; node n1 is its
    // downstream peer. The claim returns r1 as PartialSent; after the
    // delivered set covers n1 and the record is finalized, it reads as
    // Sent and no further output claim succeeds.
    let mut repo = MemRepo::new();
    repo.insert_node(node("n0")).unwrap();
    repo.insert_new_path(&rec("n0", "r1", Direction::Out, DataState::Received)).unwrap();

    let claimed = repo.find_and_sent_output_data("n0").expect("r1 claimable");
    assert_eq!(claimed.id, "r1");
    assert_eq!(claimed.state, DataState::PartialSent);
    assert_eq!(repo.find_by_node_id("n0", "r1").unwrap().state, DataState::PartialSent);

    repo.mark_partial_sent("n0", "r1", vec!["n1".to_string()]);
    repo.update_state("n0", "r1", DataState::Sent);

    let after = repo.find_by_node_id("n0", "r1").unwrap();
    assert_eq!(after.state, DataState::Sent);
    assert_eq!(after.sent, vec!["n1".to_string()]);
    assert!(repo.find_and_sent_output_data("n0").is_none());
}

#[test]
fn partial_sent_record_stays_claimable() {
    // An output record that was claimed but not finalized may be claimed
    // again for a later delivery attempt.
    let mut repo = MemRepo::new();
    repo.insert_new_path(&rec("n", "r1", Direction::Out, DataState::Received)).unwrap();
    let first = repo.find_and_sent_output_data("n").unwrap();
    assert_eq!(first.state, DataState::PartialSent);
    let second = repo.find_and_sent_output_data("n").unwrap();
    assert_eq!(second.id, "r1");
    assert_eq!(second.state, DataState::PartialSent);
}

#[test]
fn insert_record_duplicate_key_fails() {
    let mut repo = MemRepo::new();
    repo.insert_new_path(&rec("n", "r1", Direction::In, DataState::Received)).unwrap();
    let err = repo
        .insert_new_path(&rec("n", "r1", Direction::Out, DataState::Received))
        .unwrap_err();
    assert_eq!(err, RepoError::UniquenessViolation);
    // Same id under another node is a different key.
    repo.insert_new_path(&rec("m", "r1", Direction::In, DataState::Received)).unwrap();
}

#[test]
fn global_state_is_created_once() {
    let mut repo = MemRepo::new();
    assert!(repo.get_global_state().is_none());
    let g = Graph { graph_name: "g".to_string(), nodes: vec![node("n0")] };
    repo.insert_global_state(g).unwrap();
    assert_eq!(repo.get_global_state().unwrap().graph_name, "g");
    let g2 = Graph { graph_name: "h".to_string(), nodes: Vec::new() };
    let err = repo.insert_global_state(g2).unwrap_err();
    assert_eq!(err, RepoError::AlreadyInitialized);
    assert_eq!(err.describe(), "already initialized");
    assert_eq!(repo.get_global_state().unwrap().graph_name, "g");
}

#[test]
fn get_node_by_name_absent_is_none() {
    let repo = MemRepo::new();
    assert!(repo.get_node_by_name("nope").is_none());
}

#[test]
fn update_state_on_missing_key_changes_nothing() {
    let mut repo = MemRepo::new();
    repo.insert_new_path(&rec("n", "r1", Direction::In, DataState::Received)).unwrap();
    repo.update_state("n", "zzz", DataState::Sent);
    assert_eq!(repo.find_by_node_id("n", "r1").unwrap().state, DataState::Received);
    assert!(repo.find_by_node_id("n", "zzz").is_none());
}

#[test]
fn mongo_config_holds_connection_string() {
    let cfg = MongoConfig::new("mongodb://localhost:27017".to_string());
    assert_eq!(cfg.connection_string(), "mongodb://localhost:27017");
    assert_eq!(cfg.mongo_url, "mongodb://localhost:27017");
}
