use dataflow_node::{
    Controller, FanOut, MemRepo, Node, NodeType, ProgramState, SyncError, needs_reapply,
    sync_once, ControlError,
};

fn declared(name: &str) -> Node {
    Node {
        node_name: name.to_string(),
        node_type: 2,
        upstreams: vec!["n0".to_string()],
        script: "sink.sh".to_string(),
    }
}

#[test]
fn sync_applies_declared_config() {
    let mut repo = MemRepo::new();
    repo.insert_node(declared("n1")).unwrap();
    let mut ctrl = Controller::new("n1".to_string());
    let mut fanout = FanOut::new();

    let reapplied = sync_once(&mut repo, &mut ctrl, &mut fanout).unwrap();
    assert!(reapplied);
    assert_eq!(ctrl.state, ProgramState::Ready);
    assert_eq!(ctrl.node_type, Some(NodeType::Sink));
    assert_eq!(ctrl.upstreams.as_deref(), Some(&["n0".to_string()][..]));
    assert_eq!(ctrl.script.as_deref(), Some("sink.sh"));
}

#[test]
fn sync_is_a_noop_when_config_matches() {
    let mut repo = MemRepo::new();
    repo.insert_node(declared("n1")).unwrap();
    let mut ctrl = Controller::new("n1".to_string());
    let mut fanout = FanOut::new();
    sync_once(&mut repo, &mut ctrl, &mut fanout).unwrap();
    ctrl.pause();

    let reapplied = sync_once(&mut repo, &mut ctrl, &mut fanout).unwrap();
    assert!(!reapplied);
    // A matching configuration is not re-applied, so the paused state is
    // kept: reconciliation does not re-activate a matching node.
    assert_eq!(ctrl.state, ProgramState::Pending);
}

#[test]
fn sync_without_declared_node_is_fatal() {
    let mut repo = MemRepo::new();
    let mut ctrl = Controller::new("ghost".to_string());
    let mut fanout = FanOut::new();
    let err = sync_once(&mut repo, &mut ctrl, &mut fanout).unwrap_err();
    assert_eq!(err, SyncError::NodeNotDeclared);
}

#[test]
fn sync_with_invalid_declared_role_is_a_config_error() {
    let mut repo = MemRepo::new();
    let mut bad = declared("n1");
    bad.node_type = 42;
    repo.insert_node(bad).unwrap();
    let mut ctrl = Controller::new("n1".to_string());
    let mut fanout = FanOut::new();
    let err = sync_once(&mut repo, &mut ctrl, &mut fanout).unwrap_err();
    assert_eq!(err, SyncError::Config(ControlError::InvalidNodeType));
}

#[test]
fn needs_reapply_detects_each_difference() {
    let nd = declared("n1");
    let mut ctrl = Controller::new("n1".to_string());
    assert!(needs_reapply(&ctrl, &nd));

    ctrl.node_type = Some(NodeType::Sink);
    ctrl.upstreams = Some(vec!["n0".to_string()]);
    ctrl.script = Some("sink.sh".to_string());
    assert!(!needs_reapply(&ctrl, &nd));

    ctrl.script = Some("other.sh".to_string());
    assert!(needs_reapply(&ctrl, &nd));
    ctrl.script = Some("sink.sh".to_string());
    ctrl.upstreams = Some(vec!["n0".to_string(), "nx".to_string()]);
    assert!(needs_reapply(&ctrl, &nd));
    ctrl.upstreams = Some(vec!["n0".to_string()]);
    ctrl.node_type = Some(NodeType::Source);
    assert!(needs_reapply(&ctrl, &nd));
}
