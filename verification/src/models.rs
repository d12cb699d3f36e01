//! Data-transfer models of the object-store and merge-request API that
//! the runtime's clients exchange with their remote peers.

use vstd::prelude::*;

verus! {

/// Relies on uuid::Uuid as an opaque identifier; the library stores and
/// compares it but never looks inside.
#[verifier::external_type_specification]
#[verifier::external_body]
pub struct ExUuid(uuid::Uuid);

/// Relies on uuid::Uuid being Copy: its clone is the value itself.
pub assume_specification[ <uuid::Uuid as Clone>::clone ](u: &uuid::Uuid) -> (r: uuid::Uuid)
    ensures
        r == *u,
;

/// Credentials of a user registration.
#[derive(Clone, Debug)]
pub struct UserRegisterInfo {
    pub name: String,
    pub password: String,
    pub email: String,
}

impl UserRegisterInfo {
    pub fn new(name: String, password: String, email: String) -> (r: UserRegisterInfo)
        ensures
            r.name == name,
            r.password == password,
            r.email == email,
    {
        UserRegisterInfo { name, password, email }
    }
}

/// A partial update of a work-in-progress: both fields start unset and
/// are filled in by the caller as needed.
#[derive(Clone, Debug)]
pub struct UpdateWip {
    pub base_commit: Option<String>,
    pub current_tree: Option<String>,
}

impl UpdateWip {
    pub fn new() -> (r: UpdateWip)
        ensures
            r.base_commit is None,
            r.current_tree is None,
    {
        UpdateWip { base_commit: None, current_tree: None }
    }
}

/// Cursor state of a paged listing.
#[derive(Clone, Debug)]
pub struct Pagination {
    pub has_more: bool,
    pub max_per_page: i32,
    pub next_offset: String,
    pub results: i32,
}

/// One merge request, as listings return it.
#[derive(Clone, Debug)]
pub struct MergeRequest {
    pub id: uuid::Uuid,
    pub sequence: i32,
    pub title: String,
    pub merge_status: i32,
    pub author_id: uuid::Uuid,
    pub created_at: i64,
    pub updated_at: i64,
}

/// One page of merge requests.
#[derive(Clone, Debug)]
pub struct MergeRequestList {
    pub pagination: Box<Pagination>,
    pub results: Vec<MergeRequest>,
}

impl MergeRequestList {
    pub fn new(pagination: Pagination, results: Vec<MergeRequest>) -> (r: MergeRequestList)
        ensures
            *r.pagination == pagination,
            r.results == results,
    {
        MergeRequestList { pagination: Box::new(pagination), results }
    }
}

/// One changed path of a merge request.
#[derive(Clone, Debug)]
pub struct ChangePair {
    pub path: String,
    pub is_conflict: bool,
}

/// The full state of a merge request, changes included.
#[derive(Clone, Debug)]
pub struct MergeRequestFullState {
    pub id: uuid::Uuid,
    pub sequence: i32,
    pub target_branch: uuid::Uuid,
    pub source_branch: uuid::Uuid,
    pub source_repo_id: uuid::Uuid,
    pub target_repo_id: uuid::Uuid,
    pub title: String,
    pub merge_status: i32,
    pub description: Option<String>,
    pub author_id: uuid::Uuid,
    pub changes: Vec<ChangePair>,
    pub created_at: i64,
    pub updated_at: i64,
}

impl MergeRequestFullState {
    pub fn new(
        id: uuid::Uuid,
        sequence: i32,
        target_branch: uuid::Uuid,
        source_branch: uuid::Uuid,
        source_repo_id: uuid::Uuid,
        target_repo_id: uuid::Uuid,
        title: String,
        merge_status: i32,
        author_id: uuid::Uuid,
        changes: Vec<ChangePair>,
        created_at: i64,
        updated_at: i64,
    ) -> (r: MergeRequestFullState)
        ensures
            r.id == id,
            r.sequence == sequence,
            r.target_branch == target_branch,
            r.source_branch == source_branch,
            r.source_repo_id == source_repo_id,
            r.target_repo_id == target_repo_id,
            r.title == title,
            r.merge_status == merge_status,
            r.description is None,
            r.author_id == author_id,
            r.changes == changes,
            r.created_at == created_at,
            r.updated_at == updated_at,
    {
        MergeRequestFullState {
            id,
            sequence,
            target_branch,
            source_branch,
            source_repo_id,
            target_repo_id,
            title,
            merge_status,
            description: None,
            author_id,
            changes,
            created_at,
            updated_at,
        }
    }
}

} // verus!
