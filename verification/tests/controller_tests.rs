use dataflow_node::{
    Controller, DataRecord, DataState, Direction, FanOut, MemRepo, ProgramState, RecvOutcome,
    StartRequest, WorkItem, node_type_from_code, ControlError, NodeType,
};

fn out_record(node: &str, id: &str) -> DataRecord {
    DataRecord {
        id: id.to_string(),
        node_name: node.to_string(),
        direction: Direction::Out,
        state: DataState::Received,
        sent: Vec::new(),
    }
}

fn request() -> StartRequest {
    StartRequest {
        node_type: 1,
        upstreams: vec!["n_up".to_string()],
        script: "transform.sh".to_string(),
    }
}

#[test]
fn stop_yields_stopped_from_any_state() {
    for initial in [ProgramState::Pending, ProgramState::Ready, ProgramState::Stopped] {
        let mut c = Controller::new("n".to_string());
        c.state = initial;
        c.stop();
        assert_eq!(c.state, ProgramState::Stopped);
    }
}

#[test]
fn restart_from_stopped_yields_ready() {
    let mut c = Controller::new("n".to_string());
    c.stop();
    assert_eq!(c.state, ProgramState::Stopped);
    c.restart();
    assert_eq!(c.state, ProgramState::Ready);
}

#[test]
fn pause_twice_from_ready_yields_pending_both_times() {
    let mut c = Controller::new("n".to_string());
    c.restart();
    assert_eq!(c.state, ProgramState::Ready);
    c.pause();
    assert_eq!(c.state, ProgramState::Pending);
    c.pause();
    assert_eq!(c.state, ProgramState::Pending);
}

#[test]
fn node_type_codes_decode() {
    assert_eq!(node_type_from_code(0), Some(NodeType::Source));
    assert_eq!(node_type_from_code(1), Some(NodeType::Transform));
    assert_eq!(node_type_from_code(2), Some(NodeType::Sink));
    assert_eq!(node_type_from_code(3), None);
    assert_eq!(node_type_from_code(-1), None);
}

#[test]
fn start_with_invalid_role_is_a_config_error() {
    let mut c = Controller::new("n".to_string());
    let mut repo = MemRepo::new();
    let mut fanout = FanOut::new();
    let mut req = request();
    req.node_type = 99;
    let err = c.start(req, &mut repo, &mut fanout).unwrap_err();
    assert_eq!(err, ControlError::InvalidNodeType);
    // The request was rejected before anything was applied: no caller can
    // observe a partially-applied transition.
    assert_eq!(c.state, ProgramState::Pending);
    assert!(c.node_type.is_none());
    assert!(c.upstreams.is_none());
    assert!(c.script.is_none());
}

#[test]
fn start_installs_config_and_routes_output() {
    let mut c = Controller::new("n0".to_string());
    let mut repo = MemRepo::new();
    let mut fanout = FanOut::new();
    fanout.subscribe("n1".to_string(), 4);
    repo.insert_new_path(&out_record("n0", "r1")).unwrap();

    let drained = c.start(request(), &mut repo, &mut fanout).unwrap();
    assert!(drained);
    assert_eq!(c.state, ProgramState::Ready);
    assert_eq!(c.node_type, Some(NodeType::Transform));
    assert_eq!(c.upstreams.as_deref(), Some(&["n_up".to_string()][..]));
    assert_eq!(c.script.as_deref(), Some("transform.sh"));

    // The synchronous first pass claimed r1, delivered its batch to the
    // one subscriber, and finalized it as Sent.
    let routed = repo.find_by_node_id("n0", "r1").unwrap();
    assert_eq!(routed.state, DataState::Sent);
    assert_eq!(routed.sent, vec!["n1".to_string()]);
    match fanout.recv(0) {
        RecvOutcome::Batch(b) => assert_eq!(b.record_id, "r1"),
        other => panic!("expected the routed batch, got {:?}", other),
    }
}

#[test]
fn data_pass_does_nothing_unless_ready() {
    let c = Controller::new("n0".to_string());
    let mut repo = MemRepo::new();
    let mut fanout = FanOut::new();
    fanout.subscribe("n1".to_string(), 4);
    repo.insert_new_path(&out_record("n0", "r1")).unwrap();

    assert!(c.process_data_cmd(&mut repo, &mut fanout));
    assert_eq!(repo.find_by_node_id("n0", "r1").unwrap().state, DataState::Received);
    assert!(matches!(fanout.recv(0), RecvOutcome::Empty));
}

#[test]
fn data_pass_leaves_record_partial_when_a_subscriber_lags() {
    let mut c = Controller::new("n0".to_string());
    let mut repo = MemRepo::new();
    let mut fanout = FanOut::new();
    // A subscriber with no room at all: every delivery attempt lags.
    fanout.subscribe("n1".to_string(), 0);
    repo.insert_new_path(&out_record("n0", "r1")).unwrap();

    let drained = c.start(request(), &mut repo, &mut fanout).unwrap();
    // The stuck record is still claimable, so the pass reports it.
    assert!(!drained);
    let stuck = repo.find_by_node_id("n0", "r1").unwrap();
    assert_eq!(stuck.state, DataState::PartialSent);
    assert!(stuck.sent.is_empty());
    assert!(matches!(fanout.recv(0), RecvOutcome::Lagged));
}

#[test]
fn data_pass_skips_peers_already_delivered() {
    let mut c = Controller::new("n0".to_string());
    let mut repo = MemRepo::new();
    let mut fanout = FanOut::new();
    fanout.subscribe("n1".to_string(), 4);
    let mut r = out_record("n0", "r1");
    r.sent = vec!["n1".to_string()];
    repo.insert_new_path(&r).unwrap();

    c.start(request(), &mut repo, &mut fanout).unwrap();
    // n1 already had the record: nothing is re-sent, and the delivered
    // set already covers every subscriber, so the record is finalized.
    assert!(matches!(fanout.recv(0), RecvOutcome::Empty));
    assert_eq!(repo.find_by_node_id("n0", "r1").unwrap().state, DataState::Sent);
}

#[test]
fn next_work_claims_input_when_available() {
    let mut c = Controller::new("n0".to_string());
    let mut repo = MemRepo::new();
    let mut fanout = FanOut::new();
    repo.insert_new_path(&DataRecord {
        id: "r1".to_string(),
        node_name: "n0".to_string(),
        direction: Direction::In,
        state: DataState::Received,
        sent: Vec::new(),
    })
    .unwrap();
    c.start(request(), &mut repo, &mut fanout).unwrap();
    match c.next_work(&mut repo) {
        WorkItem::Input(rec) => {
            assert_eq!(rec.id, "r1");
            assert_eq!(rec.state, DataState::Assigned);
        }
        other => panic!("expected an input record, got {:?}", other),
    }
    // The claim was exclusive: nothing is left, and this node is no
    // source, so there is nothing to do.
    assert!(matches!(c.next_work(&mut repo), WorkItem::Idle));
}

#[test]
fn next_work_ingests_only_for_sources() {
    let mut c = Controller::new("n0".to_string());
    let mut repo = MemRepo::new();
    let mut fanout = FanOut::new();
    let mut req = request();
    req.node_type = 0;
    c.start(req, &mut repo, &mut fanout).unwrap();
    assert!(matches!(c.next_work(&mut repo), WorkItem::Ingest));
    c.pause();
    assert!(matches!(c.next_work(&mut repo), WorkItem::Idle));
}
