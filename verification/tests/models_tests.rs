use dataflow_node::{
    ChangePair, DataState, MergeRequestFullState, MergeRequestList, Pagination, UpdateWip,
    UserRegisterInfo,
};
use uuid::Uuid;

#[test]
fn user_register_info_new_keeps_fields() {
    let u = UserRegisterInfo::new(
        "alice".to_string(),
        "pw".to_string(),
        "alice@example.com".to_string(),
    );
    assert_eq!(u.name, "alice");
    assert_eq!(u.password, "pw");
    assert_eq!(u.email, "alice@example.com");
}

#[test]
fn update_wip_new_starts_unset() {
    let w = UpdateWip::new();
    assert!(w.base_commit.is_none());
    assert!(w.current_tree.is_none());
}

#[test]
fn merge_request_list_new_boxes_pagination() {
    let p = Pagination {
        has_more: true,
        max_per_page: 50,
        next_offset: "abc".to_string(),
        results: 1,
    };
    let l = MergeRequestList::new(p, Vec::new());
    assert!(l.pagination.has_more);
    assert_eq!(l.pagination.max_per_page, 50);
    assert_eq!(l.pagination.next_offset, "abc");
    assert!(l.results.is_empty());
}

#[test]
fn merge_request_full_state_new_keeps_fields() {
    let id = Uuid::nil();
    let changes = vec![ChangePair { path: "a.txt".to_string(), is_conflict: false }];
    let m = MergeRequestFullState::new(
        id,
        7,
        id,
        id,
        id,
        id,
        "title".to_string(),
        1,
        id,
        changes,
        100,
        200,
    );
    assert_eq!(m.sequence, 7);
    assert_eq!(m.title, "title");
    assert_eq!(m.merge_status, 1);
    assert!(m.description.is_none());
    assert_eq!(m.changes.len(), 1);
    assert_eq!(m.changes[0].path, "a.txt");
    assert_eq!(m.created_at, 100);
    assert_eq!(m.updated_at, 200);
}

#[test]
fn state_names_match_the_stored_forms() {
    assert_eq!(DataState::Received.name(), "Received");
    assert_eq!(DataState::Assigned.name(), "Assigned");
    assert_eq!(DataState::PartialSent.name(), "PartialSent");
    assert_eq!(DataState::Sent.name(), "Sent");
}
