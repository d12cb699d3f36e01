//! The shared repository: pipeline definition, node definitions and data
//! records, with atomic conditional updates.
//!
//! `MemRepo` implements the repository operation contract over in-process
//! state. Every operation is total and serializes through one exclusive
//! borrow, so each call is one atomic step; the claim operations transition
//! exactly one eligible record and hand it to exactly one caller.

use vstd::prelude::*;

use crate::record::DataState;
use crate::record::Direction;
use crate::errors::RepoError;
use crate::strutil::str_eq;

verus! {

/// One unit of in-flight data, tracked by state in the repository.
/// `(node_name, id)` is the unique key. `sent` lists the downstream peers
/// that have already received the record, for partial multicast tracking.
#[derive(Clone, Debug)]
pub struct DataRecord {
    pub id: String,
    pub node_name: String,
    pub direction: Direction,
    pub state: DataState,
    pub sent: Vec<String>,
}

/// The mathematical value of a [`DataRecord`].
#[verifier::ext_equal]
pub struct RecordModel {
    pub id: Seq<char>,
    pub node_name: Seq<char>,
    pub direction: Direction,
    pub state: DataState,
    pub sent: Seq<Seq<char>>,
}

impl View for DataRecord {
    type V = RecordModel;

    open spec fn view(&self) -> RecordModel {
        RecordModel {
            id: self.id@,
            node_name: self.node_name@,
            direction: self.direction,
            state: self.state,
            sent: self.sent.deep_view(),
        }
    }
}

impl DeepView for DataRecord {
    type V = RecordModel;

    open spec fn deep_view(&self) -> RecordModel {
        self.view()
    }
}

/// A named participant of the pipeline: its role/type code, the upstream
/// peers it consumes from, and the execution script it runs.
#[derive(Clone, Debug)]
pub struct Node {
    pub node_name: String,
    pub node_type: i32,
    pub upstreams: Vec<String>,
    pub script: String,
}

/// The mathematical value of a [`Node`].
#[verifier::ext_equal]
pub struct NodeModel {
    pub node_name: Seq<char>,
    pub node_type: int,
    pub upstreams: Seq<Seq<char>>,
    pub script: Seq<char>,
}

impl View for Node {
    type V = NodeModel;

    open spec fn view(&self) -> NodeModel {
        NodeModel {
            node_name: self.node_name@,
            node_type: self.node_type as int,
            upstreams: self.upstreams.deep_view(),
            script: self.script@,
        }
    }
}

impl DeepView for Node {
    type V = NodeModel;

    open spec fn deep_view(&self) -> NodeModel {
        self.view()
    }
}

/// The singleton pipeline definition: the declared DAG.
#[derive(Clone, Debug)]
pub struct Graph {
    pub graph_name: String,
    pub nodes: Vec<Node>,
}

/// The mathematical value of a [`Graph`].
#[verifier::ext_equal]
pub struct GraphModel {
    pub graph_name: Seq<char>,
    pub nodes: Seq<NodeModel>,
}

impl View for Graph {
    type V = GraphModel;

    open spec fn view(&self) -> GraphModel {
        GraphModel { graph_name: self.graph_name@, nodes: self.nodes.deep_view() }
    }
}

impl DeepView for Graph {
    type V = GraphModel;

    open spec fn deep_view(&self) -> GraphModel {
        self.view()
    }
}

/// Connection settings for a backing store, consumed by the process
/// supervisor at startup.
#[derive(Clone, Debug)]
pub struct MongoConfig {
    pub mongo_url: String,
}

impl MongoConfig {
    pub fn new(mongo_url: String) -> (r: MongoConfig)
        ensures
            r.mongo_url == mongo_url,
    {
        MongoConfig { mongo_url }
    }

    pub fn connection_string(&self) -> (r: &str)
        ensures
            r@ == self.mongo_url@,
    {
        self.mongo_url.as_str()
    }
}

/// No two node definitions share a name.
pub open spec fn node_names_unique(nodes: Seq<NodeModel>) -> bool {
    forall|i: int, j: int|
        0 <= i < j < nodes.len() ==> nodes[i].node_name != nodes[j].node_name
}

/// Two records collide when they agree on the `(node_name, id)` key.
pub open spec fn same_key(a: RecordModel, b: RecordModel) -> bool {
    a.node_name == b.node_name && a.id == b.id
}

/// No two records share the `(node_name, id)` key.
pub open spec fn record_keys_unique(records: Seq<RecordModel>) -> bool {
    forall|i: int, j: int|
        0 <= i < j < records.len() ==> !same_key(records[i], records[j])
}

/// An In-direction record of `node` that a claimant may take.
pub open spec fn in_claimable(r: RecordModel, node: Seq<char>) -> bool {
    r.node_name == node && r.direction is In && r.state is Received
}

/// An Out-direction record of `node` that a sender may take.
pub open spec fn out_claimable(r: RecordModel, node: Seq<char>) -> bool {
    r.node_name == node && r.direction is Out && (r.state is Received
        || r.state is PartialSent)
}

/// The record as it stands after an input claim.
pub open spec fn assigned(r: RecordModel) -> RecordModel {
    RecordModel { state: DataState::Assigned, ..r }
}

/// The record as it stands after an output claim.
pub open spec fn partial_sent(r: RecordModel) -> RecordModel {
    RecordModel { state: DataState::PartialSent, ..r }
}

/// The record with its state overwritten.
pub open spec fn with_state(r: RecordModel, s: DataState) -> RecordModel {
    RecordModel { state: s, ..r }
}

/// The record with its delivered set overwritten.
pub open spec fn with_sent(r: RecordModel, sent: Seq<Seq<char>>) -> RecordModel {
    RecordModel { sent: sent, ..r }
}

/// One atomic input claim took the eligible record at position `i`.
pub open spec fn claim_input_at(
    pre: Seq<RecordModel>,
    post: Seq<RecordModel>,
    i: int,
    node: Seq<char>,
) -> bool {
    &&& 0 <= i < pre.len()
    &&& in_claimable(pre[i], node)
    &&& post == pre.update(i, assigned(pre[i]))
}

/// One atomic input claim for `node` turned `pre` into `post` and handed
/// out `rec`: some eligible record moved `Received -> Assigned`, every
/// other record is untouched, and `rec` is the transitioned record.
pub open spec fn claim_input_step(
    pre: Seq<RecordModel>,
    post: Seq<RecordModel>,
    node: Seq<char>,
    rec: RecordModel,
) -> bool {
    exists|i: int| #[trigger] claim_input_at(pre, post, i, node) && rec == assigned(pre[i])
}

/// One atomic output claim took the eligible record at position `i`.
pub open spec fn claim_output_at(
    pre: Seq<RecordModel>,
    post: Seq<RecordModel>,
    i: int,
    node: Seq<char>,
) -> bool {
    &&& 0 <= i < pre.len()
    &&& out_claimable(pre[i], node)
    &&& post == pre.update(i, partial_sent(pre[i]))
}

/// One atomic output claim for `node` turned `pre` into `post` and handed
/// out `rec`.
pub open spec fn claim_output_step(
    pre: Seq<RecordModel>,
    post: Seq<RecordModel>,
    node: Seq<char>,
    rec: RecordModel,
) -> bool {
    exists|i: int| #[trigger] claim_output_at(pre, post, i, node) && rec == partial_sent(pre[i])
}

/// The repository over in-process state: the singleton pipeline
/// definition, the node definitions, and the data records.
pub struct MemRepo {
    graph: Option<Graph>,
    nodes: Vec<Node>,
    records: Vec<DataRecord>,
}

impl MemRepo {
    /// The stored pipeline definition, as a mathematical value.
    pub closed spec fn graph_view(&self) -> Option<GraphModel> {
        match self.graph {
            Some(g) => Some(g.deep_view()),
            None => None,
        }
    }

    /// The stored node definitions, as mathematical values.
    pub closed spec fn nodes_view(&self) -> Seq<NodeModel> {
        self.nodes.deep_view()
    }

    /// The stored data records, as mathematical values.
    pub closed spec fn records_view(&self) -> Seq<RecordModel> {
        self.records.deep_view()
    }

    /// The repository's invariant: node names are unique, and so are
    /// `(node_name, id)` record keys.
    pub open spec fn wf(&self) -> bool {
        node_names_unique(self.nodes_view()) && record_keys_unique(self.records_view())
    }

    /// An empty repository.
    pub fn new() -> (r: MemRepo)
        ensures
            r.wf(),
            r.graph_view() is None,
            r.nodes_view() == Seq::<NodeModel>::empty(),
            r.records_view() == Seq::<RecordModel>::empty(),
    {
        let r = MemRepo { graph: None, nodes: Vec::new(), records: Vec::new() };
        assert(r.nodes_view() =~= Seq::<NodeModel>::empty());
        assert(r.records_view() =~= Seq::<RecordModel>::empty());
        r
    }

    /// Create the singleton pipeline definition. Fails if it already
    /// exists: the definition is created once and immutable afterwards.
    pub fn insert_global_state(&mut self, state: Graph) -> (r: Result<(), RepoError>)
        requires
            old(self).wf(),
        ensures
            final(self).wf(),
            final(self).nodes_view() == old(self).nodes_view(),
            final(self).records_view() == old(self).records_view(),
            match r {
                Ok(()) => old(self).graph_view() is None && final(self).graph_view() == Some(
                    state.deep_view(),
                ),
                Err(e) => e == RepoError::AlreadyInitialized && old(self).graph_view() is Some
                    && final(self).graph_view() == old(self).graph_view(),
            },
    {
        if self.graph.is_some() {
            return Err(RepoError::AlreadyInitialized);
        }
        self.graph = Some(state);
        Ok(())
    }

    /// Read the singleton pipeline definition; absent is an expected
    /// outcome, not an error.
    pub fn get_global_state(&self) -> (r: Option<&Graph>)
        ensures
            match r {
                Some(g) => self.graph_view() == Some(g.deep_view()),
                None => self.graph_view() is None,
            },
    {
        self.graph.as_ref()
    }

    /// Create one node definition. Fails with a uniqueness violation when a
    /// node of that name already exists, leaving the repository unchanged.
    pub fn insert_node(&mut self, state: Node) -> (r: Result<(), RepoError>)
        requires
            old(self).wf(),
        ensures
            final(self).wf(),
            final(self).graph_view() == old(self).graph_view(),
            final(self).records_view() == old(self).records_view(),
            match r {
                Ok(()) => {
                    &&& forall|i: int|
                        0 <= i < old(self).nodes_view().len() ==> old(self).nodes_view()[i].node_name
                            != state@.node_name
                    &&& final(self).nodes_view() == old(self).nodes_view().push(state@)
                },
                Err(e) => {
                    &&& e == RepoError::UniquenessViolation
                    &&& exists|i: int|
                        0 <= i < old(self).nodes_view().len() && old(
                            self,
                        ).nodes_view()[i].node_name == state@.node_name
                    &&& final(self).nodes_view() == old(self).nodes_view()
                },
            },
    {
        let n = self.nodes.len();
        let mut k: usize = 0;
        while k < n
            invariant
                *self == *old(self),
                self.wf(),
                n == self.nodes.len(),
                0 <= k <= n,
                forall|i: int| 0 <= i < k ==> self.nodes_view()[i].node_name != state@.node_name,
            decreases n - k,
        {
            if str_eq(self.nodes[k].node_name.as_str(), state.node_name.as_str()) {
                assert(self.nodes_view()[k as int].node_name == state@.node_name);
                return Err(RepoError::UniquenessViolation);
            }
            k += 1;
        }
        self.nodes.push(state);
        assert(self.nodes_view() =~= old(self).nodes_view().push(state@));
        Ok(())
    }

    /// Atomically claim one In-direction record of `node_name` in state
    /// `Received`, transitioning it to `Assigned` and returning it as
    /// transitioned. Exactly one caller can obtain any given record: the
    /// transition makes it ineligible for every later claim. `None` is the
    /// distinguished "no eligible record" outcome, not an error.
    pub fn find_and_assign_input_data(&mut self, node_name: &str) -> (r: Option<DataRecord>)
        requires
            old(self).wf(),
        ensures
            final(self).wf(),
            final(self).graph_view() == old(self).graph_view(),
            final(self).nodes_view() == old(self).nodes_view(),
            match r {
                Some(rec) => claim_input_step(
                    old(self).records_view(),
                    final(self).records_view(),
                    node_name@,
                    rec@,
                ),
                None => {
                    &&& final(self).records_view() == old(self).records_view()
                    &&& forall|i: int|
                        0 <= i < old(self).records_view().len() ==> !in_claimable(
                            old(self).records_view()[i],
                            node_name@,
                        )
                },
            },
    {
        let n = self.records.len();
        let mut k: usize = 0;
        while k < n
            invariant
                *self == *old(self),
                self.wf(),
                n == self.records.len(),
                0 <= k <= n,
                forall|i: int|
                    0 <= i < k ==> !in_claimable(self.records_view()[i], node_name@),
            decreases n - k,
        {
            let eligible = str_eq(self.records[k].node_name.as_str(), node_name)
                && self.records[k].direction == Direction::In && self.records[k].state
                == DataState::Received;
            if eligible {
                let ghost pre = self.records_view();
                let updated = DataRecord {
                    id: self.records[k].id.clone(),
                    node_name: self.records[k].node_name.clone(),
                    direction: Direction::In,
                    state: DataState::Assigned,
                    sent: self.records[k].sent.clone(),
                };
                let handed = DataRecord {
                    id: self.records[k].id.clone(),
                    node_name: self.records[k].node_name.clone(),
                    direction: Direction::In,
                    state: DataState::Assigned,
                    sent: self.records[k].sent.clone(),
                };
                proof {
                    assert(updated.sent.deep_view() =~= self.records[k as int].sent.deep_view());
                    assert(handed.sent.deep_view() =~= self.records[k as int].sent.deep_view());
                    assert(updated@ =~= assigned(pre[k as int]));
                    assert(handed@ =~= assigned(pre[k as int]));
                }
                self.records.set(k, updated);
                proof {
                    assert(self.records_view() =~= pre.update(k as int, assigned(pre[k as int])));
                    assert(claim_input_at(pre, self.records_view(), k as int, node_name@));
                    assert(claim_input_step(pre, self.records_view(), node_name@, handed@));
                    assert forall|i: int, j: int|
                        0 <= i < j < self.records_view().len() implies !same_key(
                        self.records_view()[i],
                        self.records_view()[j],
                    ) by {
                        assert(!same_key(pre[i], pre[j]));
                    }
                }
                return Some(handed);
            }
            k += 1;
        }
        None
    }

    /// Atomically claim one Out-direction record of `node_name` in state
    /// `Received` or `PartialSent`, transitioning it to `PartialSent` and
    /// returning it as transitioned, with the same atomic hand-off as the
    /// input claim: each call takes exactly one eligible record. A record
    /// left `PartialSent` stays eligible for later delivery attempts until
    /// it is finalized as `Sent`.
    pub fn find_and_sent_output_data(&mut self, node_name: &str) -> (r: Option<DataRecord>)
        requires
            old(self).wf(),
        ensures
            final(self).wf(),
            final(self).graph_view() == old(self).graph_view(),
            final(self).nodes_view() == old(self).nodes_view(),
            match r {
                Some(rec) => claim_output_step(
                    old(self).records_view(),
                    final(self).records_view(),
                    node_name@,
                    rec@,
                ),
                None => {
                    &&& final(self).records_view() == old(self).records_view()
                    &&& forall|i: int|
                        0 <= i < old(self).records_view().len() ==> !out_claimable(
                            old(self).records_view()[i],
                            node_name@,
                        )
                },
            },
    {
        let n = self.records.len();
        let mut k: usize = 0;
        while k < n
            invariant
                *self == *old(self),
                self.wf(),
                n == self.records.len(),
                0 <= k <= n,
                forall|i: int|
                    0 <= i < k ==> !out_claimable(self.records_view()[i], node_name@),
            decreases n - k,
        {
            let eligible = str_eq(self.records[k].node_name.as_str(), node_name)
                && self.records[k].direction == Direction::Out && (self.records[k].state
                == DataState::Received || self.records[k].state == DataState::PartialSent);
            if eligible {
                let ghost pre = self.records_view();
                let updated = DataRecord {
                    id: self.records[k].id.clone(),
                    node_name: self.records[k].node_name.clone(),
                    direction: Direction::Out,
                    state: DataState::PartialSent,
                    sent: self.records[k].sent.clone(),
                };
                let handed = DataRecord {
                    id: self.records[k].id.clone(),
                    node_name: self.records[k].node_name.clone(),
                    direction: Direction::Out,
                    state: DataState::PartialSent,
                    sent: self.records[k].sent.clone(),
                };
                proof {
                    assert(updated.sent.deep_view() =~= self.records[k as int].sent.deep_view());
                    assert(handed.sent.deep_view() =~= self.records[k as int].sent.deep_view());
                    assert(updated@ =~= partial_sent(pre[k as int]));
                    assert(handed@ =~= partial_sent(pre[k as int]));
                }
                self.records.set(k, updated);
                proof {
                    assert(self.records_view() =~= pre.update(
                        k as int,
                        partial_sent(pre[k as int]),
                    ));
                    assert(claim_output_at(pre, self.records_view(), k as int, node_name@));
                    assert(claim_output_step(pre, self.records_view(), node_name@, handed@));
                    assert forall|i: int, j: int|
                        0 <= i < j < self.records_view().len() implies !same_key(
                        self.records_view()[i],
                        self.records_view()[j],
                    ) by {
                        assert(!same_key(pre[i], pre[j]));
                    }
                }
                return Some(handed);
            }
            k += 1;
        }
        None
    }

    /// Insert a new data record. Fails with a uniqueness violation when a
    /// record with the same `(node_name, id)` key already exists, leaving
    /// the repository unchanged.
    pub fn insert_new_path(&mut self, record: &DataRecord) -> (r: Result<(), RepoError>)
        requires
            old(self).wf(),
        ensures
            final(self).wf(),
            final(self).graph_view() == old(self).graph_view(),
            final(self).nodes_view() == old(self).nodes_view(),
            match r {
                Ok(()) => {
                    &&& forall|i: int|
                        0 <= i < old(self).records_view().len() ==> !same_key(
                            old(self).records_view()[i],
                            record@,
                        )
                    &&& final(self).records_view() == old(self).records_view().push(record@)
                },
                Err(e) => {
                    &&& e == RepoError::UniquenessViolation
                    &&& exists|i: int|
                        0 <= i < old(self).records_view().len() && same_key(
                            old(self).records_view()[i],
                            record@,
                        )
                    &&& final(self).records_view() == old(self).records_view()
                },
            },
    {
        let n = self.records.len();
        let mut k: usize = 0;
        while k < n
            invariant
                *self == *old(self),
                self.wf(),
                n == self.records.len(),
                0 <= k <= n,
                forall|i: int| 0 <= i < k ==> !same_key(self.records_view()[i], record@),
            decreases n - k,
        {
            if str_eq(self.records[k].node_name.as_str(), record.node_name.as_str()) && str_eq(
                self.records[k].id.as_str(),
                record.id.as_str(),
            ) {
                assert(same_key(self.records_view()[k as int], record@));
                return Err(RepoError::UniquenessViolation);
            }
            k += 1;
        }
        let stored = DataRecord {
            id: record.id.clone(),
            node_name: record.node_name.clone(),
            direction: record.direction,
            state: record.state,
            sent: record.sent.clone(),
        };
        proof {
            assert(stored.sent.deep_view() =~= record.sent.deep_view());
            assert(stored@ =~= record@);
        }
        self.records.push(stored);
        assert(self.records_view() =~= old(self).records_view().push(record@));
        Ok(())
    }

    /// Overwrite the state of the record with key `(node_name, id)`; used
    /// to finalize a record. A missing key leaves the repository unchanged:
    /// the overwrite is unconditional, not keyed to a prior state.
    pub fn update_state(&mut self, node_name: &str, id: &str, state: DataState)
        requires
            old(self).wf(),
        ensures
            final(self).wf(),
            final(self).graph_view() == old(self).graph_view(),
            final(self).nodes_view() == old(self).nodes_view(),
            forall|i: int|
                0 <= i < old(self).records_view().len() && old(self).records_view()[i].node_name
                    == node_name@ && old(self).records_view()[i].id == id@ ==> final(self).records_view() == old(self).records_view().update(
                    i,
                    with_state(old(self).records_view()[i], state),
                ),
            (forall|i: int|
                0 <= i < old(self).records_view().len() ==> !(old(
                    self,
                ).records_view()[i].node_name == node_name@ && old(self).records_view()[i].id
                    == id@)) ==> final(self).records_view() == old(self).records_view(),
    {
        let n = self.records.len();
        let mut k: usize = 0;
        while k < n
            invariant
                *self == *old(self),
                self.wf(),
                n == self.records.len(),
                0 <= k <= n,
                forall|i: int|
                    0 <= i < k ==> !(self.records_view()[i].node_name == node_name@
                        && self.records_view()[i].id == id@),
            decreases n - k,
        {
            if str_eq(self.records[k].node_name.as_str(), node_name) && str_eq(
                self.records[k].id.as_str(),
                id,
            ) {
                let ghost pre = self.records_view();
                let updated = DataRecord {
                    id: self.records[k].id.clone(),
                    node_name: self.records[k].node_name.clone(),
                    direction: self.records[k].direction,
                    state: state,
                    sent: self.records[k].sent.clone(),
                };
                proof {
                    assert(updated.sent.deep_view() =~= self.records[k as int].sent.deep_view());
                    assert(updated@ =~= with_state(pre[k as int], state));
                }
                self.records.set(k, updated);
                proof {
                    assert(self.records_view() =~= pre.update(
                        k as int,
                        with_state(pre[k as int], state),
                    ));
                    assert forall|i: int|
                        0 <= i < pre.len() && pre[i].node_name == node_name@ && pre[i].id == id@
                        implies self.records_view() == pre.update(
                        i,
                        with_state(pre[i], state),
                    ) by {
                        if i == k as int {
                            assert(self.records_view() =~= pre.update(
                                i,
                                with_state(pre[i], state),
                            ));
                        } else {
                            assert(same_key(pre[i], pre[k as int]));
                            assert(same_key(pre[k as int], pre[i]));
                        }
                    }
                    assert forall|i: int, j: int|
                        0 <= i < j < self.records_view().len() implies !same_key(
                        self.records_view()[i],
                        self.records_view()[j],
                    ) by {
                        assert(!same_key(pre[i], pre[j]));
                    }
                }
                return ;
            }
            k += 1;
        }
    }

    /// Overwrite the delivered set of the record with key `(node_name,
    /// id)`, recording which downstream peers have received it. A missing
    /// key leaves the repository unchanged.
    pub fn mark_partial_sent(&mut self, node_name: &str, id: &str, sent: Vec<String>)
        requires
            old(self).wf(),
        ensures
            final(self).wf(),
            final(self).graph_view() == old(self).graph_view(),
            final(self).nodes_view() == old(self).nodes_view(),
            forall|i: int|
                0 <= i < old(self).records_view().len() && old(self).records_view()[i].node_name
                    == node_name@ && old(self).records_view()[i].id == id@ ==> final(self).records_view() == old(self).records_view().update(
                    i,
                    with_sent(old(self).records_view()[i], sent.deep_view()),
                ),
            (forall|i: int|
                0 <= i < old(self).records_view().len() ==> !(old(
                    self,
                ).records_view()[i].node_name == node_name@ && old(self).records_view()[i].id
                    == id@)) ==> final(self).records_view() == old(self).records_view(),
    {
        let n = self.records.len();
        let mut k: usize = 0;
        while k < n
            invariant
                *self == *old(self),
                self.wf(),
                n == self.records.len(),
                0 <= k <= n,
                forall|i: int|
                    0 <= i < k ==> !(self.records_view()[i].node_name == node_name@
                        && self.records_view()[i].id == id@),
            decreases n - k,
        {
            if str_eq(self.records[k].node_name.as_str(), node_name) && str_eq(
                self.records[k].id.as_str(),
                id,
            ) {
                let ghost pre = self.records_view();
                let updated = DataRecord {
                    id: self.records[k].id.clone(),
                    node_name: self.records[k].node_name.clone(),
                    direction: self.records[k].direction,
                    state: self.records[k].state,
                    sent: sent,
                };
                proof {
                    assert(updated@ =~= with_sent(pre[k as int], updated.sent.deep_view()));
                }
                self.records.set(k, updated);
                proof {
                    assert(self.records_view() =~= pre.update(
                        k as int,
                        with_sent(pre[k as int], updated.sent.deep_view()),
                    ));
                    assert forall|i: int|
                        0 <= i < pre.len() && pre[i].node_name == node_name@ && pre[i].id == id@
                        implies self.records_view() == pre.update(
                        i,
                        with_sent(pre[i], updated.sent.deep_view()),
                    ) by {
                        if i == k as int {
                            assert(self.records_view() =~= pre.update(
                                i,
                                with_sent(pre[i], updated.sent.deep_view()),
                            ));
                        } else {
                            assert(same_key(pre[i], pre[k as int]));
                            assert(same_key(pre[k as int], pre[i]));
                        }
                    }
                    assert forall|i: int, j: int|
                        0 <= i < j < self.records_view().len() implies !same_key(
                        self.records_view()[i],
                        self.records_view()[j],
                    ) by {
                        assert(!same_key(pre[i], pre[j]));
                    }
                }
                return ;
            }
            k += 1;
        }
    }

    /// Whether any Out-direction record of `node_name` is still claimable.
    pub fn has_claimable_output(&self, node_name: &str) -> (r: bool)
        ensures
            r == exists|i: int|
                0 <= i < self.records_view().len() && #[trigger] out_claimable(
                    self.records_view()[i],
                    node_name@,
                ),
    {
        let n = self.records.len();
        let mut k: usize = 0;
        while k < n
            invariant
                n == self.records.len(),
                0 <= k <= n,
                forall|i: int|
                    0 <= i < k ==> !out_claimable(#[trigger] self.records_view()[i], node_name@),
            decreases n - k,
        {
            if str_eq(self.records[k].node_name.as_str(), node_name) && self.records[k].direction
                == Direction::Out && (self.records[k].state == DataState::Received
                || self.records[k].state == DataState::PartialSent) {
                assert(out_claimable(self.records_view()[k as int], node_name@));
                return true;
            }
            k += 1;
        }
        false
    }

    /// How many data records the repository holds.
    pub fn record_count(&self) -> (r: usize)
        ensures
            r == self.records_view().len(),
    {
        self.records.len()
    }

    /// Read the record with key `(node_name, id)`; absent is an expected
    /// outcome.
    pub fn find_by_node_id(&self, node_name: &str, id: &str) -> (r: Option<&DataRecord>)
        ensures
            match r {
                Some(rec) => rec@.node_name == node_name@ && rec@.id == id@
                    && self.records_view().contains(rec@),
                None => forall|i: int|
                    0 <= i < self.records_view().len() ==> !(self.records_view()[i].node_name
                        == node_name@ && self.records_view()[i].id == id@),
            },
    {
        let n = self.records.len();
        let mut k: usize = 0;
        while k < n
            invariant
                n == self.records.len(),
                0 <= k <= n,
                forall|i: int|
                    0 <= i < k ==> !(self.records_view()[i].node_name == node_name@
                        && self.records_view()[i].id == id@),
            decreases n - k,
        {
            if str_eq(self.records[k].node_name.as_str(), node_name) && str_eq(
                self.records[k].id.as_str(),
                id,
            ) {
                assert(self.records_view()[k as int] == self.records[k as int]@);
                return Some(&self.records[k]);
            }
            k += 1;
        }
        None
    }

    /// Read one node definition by name; absent is an expected outcome.
    pub fn get_node_by_name(&self, name: &str) -> (r: Option<&Node>)
        ensures
            match r {
                Some(nd) => nd@.node_name == name@ && self.nodes_view().contains(nd@),
                None => forall|i: int|
                    0 <= i < self.nodes_view().len() ==> self.nodes_view()[i].node_name != name@,
            },
    {
        let n = self.nodes.len();
        let mut k: usize = 0;
        while k < n
            invariant
                n == self.nodes.len(),
                0 <= k <= n,
                forall|i: int| 0 <= i < k ==> self.nodes_view()[i].node_name != name@,
            decreases n - k,
        {
            if str_eq(self.nodes[k].node_name.as_str(), name) {
                assert(self.nodes_view()[k as int] == self.nodes[k as int]@);
                return Some(&self.nodes[k]);
            }
            k += 1;
        }
        None
    }
}


/// The ids of the records of `node` that an input claim could take.
pub open spec fn claimable_in_ids(rs: Seq<RecordModel>, node: Seq<char>) -> Set<Seq<char>> {
    Set::new(
        |id: Seq<char>|
            exists|i: int|
                0 <= i < rs.len() && #[trigger] in_claimable(rs[i], node) && rs[i].id == id,
    )
}

/// The ids of a sequence of handed-out records.
pub open spec fn ids_of(recs: Seq<RecordModel>) -> Set<Seq<char>> {
    Set::new(|id: Seq<char>| exists|a: int| 0 <= a < recs.len() && #[trigger] recs[a].id == id)
}

/// A run of `recs.len()` successive atomic input claims for `node` turned
/// `pre` into `post`, handing out `recs` in order.
pub open spec fn claim_input_run(
    pre: Seq<RecordModel>,
    post: Seq<RecordModel>,
    node: Seq<char>,
    recs: Seq<RecordModel>,
) -> bool
    decreases recs.len(),
{
    if recs.len() == 0 {
        post == pre
    } else {
        exists|mid: Seq<RecordModel>|
            #[trigger] claim_input_step(pre, mid, node, recs[0]) && claim_input_run(
                mid,
                post,
                node,
                recs.skip(1),
            )
    }
}

/// One input claim hands out a record that was eligible before the claim,
/// and afterwards exactly that record has left the eligible set; nothing
/// else changes eligibility, and key uniqueness is preserved.
pub proof fn lemma_claim_input_partitions(
    pre: Seq<RecordModel>,
    post: Seq<RecordModel>,
    node: Seq<char>,
    rec: RecordModel,
)
    requires
        record_keys_unique(pre),
        claim_input_step(pre, post, node, rec),
    ensures
        claimable_in_ids(pre, node).contains(rec.id),
        claimable_in_ids(post, node) == claimable_in_ids(pre, node).remove(rec.id),
        record_keys_unique(post),
        post.len() == pre.len(),
{
    let i = choose|i: int| claim_input_at(pre, post, i, node) && rec == assigned(pre[i]);
    assert(in_claimable(pre[i], node));
    assert(claimable_in_ids(pre, node).contains(rec.id));
    assert forall|a: int, b: int| 0 <= a < b < post.len() implies !same_key(post[a], post[b]) by {
        assert(!same_key(pre[a], pre[b]));
    }
    assert forall|id: Seq<char>|
        claimable_in_ids(post, node).contains(id) implies claimable_in_ids(pre, node).remove(
        rec.id,
    ).contains(id) by {
        let j = choose|j: int|
            0 <= j < post.len() && #[trigger] in_claimable(post[j], node) && post[j].id == id;
        assert(post[i].state is Assigned);
        assert(j != i);
        assert(post[j] == pre[j]);
        assert(in_claimable(pre[j], node));
        if id == rec.id {
            assert(same_key(pre[j], pre[i]));
            assert(same_key(pre[i], pre[j]));
            assert(false);
        }
    }
    assert forall|id: Seq<char>|
        claimable_in_ids(pre, node).remove(rec.id).contains(id) implies claimable_in_ids(
        post,
        node,
    ).contains(id) by {
        let j = choose|j: int|
            0 <= j < pre.len() && #[trigger] in_claimable(pre[j], node) && pre[j].id == id;
        assert(j != i);
        assert(post[j] == pre[j]);
        assert(in_claimable(post[j], node));
    }
    assert(claimable_in_ids(post, node) =~= claimable_in_ids(pre, node).remove(rec.id));
}

/// Two successive input claims for the same node never hand out the same
/// record: every record reaches exactly one claimant.
pub proof fn lemma_claim_input_exclusive(
    pre: Seq<RecordModel>,
    mid: Seq<RecordModel>,
    post: Seq<RecordModel>,
    node: Seq<char>,
    a: RecordModel,
    b: RecordModel,
)
    requires
        record_keys_unique(pre),
        claim_input_step(pre, mid, node, a),
        claim_input_step(mid, post, node, b),
    ensures
        a.id != b.id,
{
    lemma_claim_input_partitions(pre, mid, node, a);
    lemma_claim_input_partitions(mid, post, node, b);
    assert(claimable_in_ids(mid, node).contains(b.id));
    assert(!claimable_in_ids(mid, node).contains(a.id));
}

/// Over any run of input claims against the same node, the handed-out
/// records are pairwise distinct, all initially eligible, and afterwards
/// the eligible set has lost exactly their ids: no duplicates, and no
/// omissions beyond what is still eligible. Concurrent callers serialize
/// into such a run, each claim being one atomic step.
pub proof fn lemma_claim_input_run_partitions(
    pre: Seq<RecordModel>,
    post: Seq<RecordModel>,
    node: Seq<char>,
    recs: Seq<RecordModel>,
)
    requires
        record_keys_unique(pre),
        claim_input_run(pre, post, node, recs),
    ensures
        record_keys_unique(post),
        forall|a: int, b: int| 0 <= a < b < recs.len() ==> recs[a].id != recs[b].id,
        forall|a: int|
            0 <= a < recs.len() ==> claimable_in_ids(pre, node).contains(#[trigger] recs[a].id),
        claimable_in_ids(post, node) == claimable_in_ids(pre, node).difference(ids_of(recs)),
    decreases recs.len(),
{
    if recs.len() == 0 {
        assert(ids_of(recs) =~= Set::<Seq<char>>::empty());
        assert(claimable_in_ids(post, node) =~= claimable_in_ids(pre, node).difference(
            ids_of(recs),
        ));
    } else {
        let mid = choose|mid: Seq<RecordModel>|
            #[trigger] claim_input_step(pre, mid, node, recs[0]) && claim_input_run(
                mid,
                post,
                node,
                recs.skip(1),
            );
        lemma_claim_input_partitions(pre, mid, node, recs[0]);
        lemma_claim_input_run_partitions(mid, post, node, recs.skip(1));
        let rest = recs.skip(1);
        assert forall|a: int, b: int| 0 <= a < b < recs.len() implies recs[a].id != recs[b].id by {
            if a == 0 {
                assert(rest[b - 1] == recs[b]);
                assert(claimable_in_ids(mid, node).contains(rest[b - 1].id));
                assert(!claimable_in_ids(mid, node).contains(recs[0].id));
            } else {
                assert(rest[a - 1] == recs[a]);
                assert(rest[b - 1] == recs[b]);
            }
        }
        assert forall|a: int|
            0 <= a < recs.len() implies claimable_in_ids(pre, node).contains(
            #[trigger] recs[a].id,
        ) by {
            if a > 0 {
                assert(rest[a - 1] == recs[a]);
                assert(claimable_in_ids(mid, node).contains(recs[a].id));
                assert(claimable_in_ids(mid, node) == claimable_in_ids(pre, node).remove(
                    recs[0].id,
                ));
            }
        }
        assert forall|id: Seq<char>| #![auto]
            ids_of(recs).contains(id) <==> (id == recs[0].id || ids_of(rest).contains(id)) by {
            if ids_of(recs).contains(id) {
                let a = choose|a: int| 0 <= a < recs.len() && #[trigger] recs[a].id == id;
                if a > 0 {
                    assert(rest[a - 1] == recs[a]);
                    assert(rest[a - 1].id == id);
                }
            }
            if ids_of(rest).contains(id) {
                let a = choose|a: int| 0 <= a < rest.len() && #[trigger] rest[a].id == id;
                assert(recs[a + 1] == rest[a]);
                assert(recs[a + 1].id == id);
            }
            if id == recs[0].id {
                assert(recs[0].id == id);
            }
        }
        assert(claimable_in_ids(post, node) =~= claimable_in_ids(pre, node).difference(
            ids_of(recs),
        ));
    }
}

/// When a run of input claims ends with no eligible record left, the run
/// has returned exactly the initially eligible records: their ids are the
/// initial eligible set, each handed out once.
pub proof fn lemma_claim_input_run_complete(
    pre: Seq<RecordModel>,
    post: Seq<RecordModel>,
    node: Seq<char>,
    recs: Seq<RecordModel>,
)
    requires
        record_keys_unique(pre),
        claim_input_run(pre, post, node, recs),
        forall|i: int| 0 <= i < post.len() ==> !in_claimable(#[trigger] post[i], node),
    ensures
        ids_of(recs) == claimable_in_ids(pre, node),
        forall|a: int, b: int| 0 <= a < b < recs.len() ==> recs[a].id != recs[b].id,
{
    lemma_claim_input_run_partitions(pre, post, node, recs);
    assert(claimable_in_ids(post, node) =~= Set::<Seq<char>>::empty());
    assert forall|id: Seq<char>|
        claimable_in_ids(pre, node).contains(id) implies ids_of(recs).contains(id) by {
        if !ids_of(recs).contains(id) {
            assert(claimable_in_ids(pre, node).difference(ids_of(recs)).contains(id));
            assert(claimable_in_ids(post, node).contains(id));
        }
    }
    assert forall|id: Seq<char>|
        ids_of(recs).contains(id) implies claimable_in_ids(pre, node).contains(id) by {
        let a = choose|a: int| 0 <= a < recs.len() && #[trigger] recs[a].id == id;
    }
    assert(ids_of(recs) =~= claimable_in_ids(pre, node));
}

/// One atomic repository step of the data record protocol: an input claim,
/// an output claim, a delivery-set overwrite, a finalize to `Sent`, the
/// insertion of a fresh record, or a pure read.
pub open spec fn protocol_step(pre: Seq<RecordModel>, post: Seq<RecordModel>) -> bool {
    ||| post == pre
    ||| (exists|node: Seq<char>, rec: RecordModel| #[trigger] claim_input_step(pre, post, node, rec))
    ||| (exists|node: Seq<char>, rec: RecordModel|
        #[trigger] claim_output_step(pre, post, node, rec))
    ||| (exists|i: int, sent: Seq<Seq<char>>|
        0 <= i < pre.len() && post == pre.update(i, #[trigger] with_sent(pre[i], sent)))
    ||| (exists|i: int|
        0 <= i < pre.len() && post == pre.update(i, with_state(#[trigger] pre[i], DataState::Sent)))
    ||| (exists|rec: RecordModel| rec.state is Received && post == pre.push(rec))
}

/// A record's state never regresses: once a record is `Assigned` or
/// `Sent`, no protocol step moves it back to `Received` or `PartialSent`,
/// and its key is untouched.
pub proof fn lemma_settled_never_regresses(pre: Seq<RecordModel>, post: Seq<RecordModel>, k: int)
    requires
        protocol_step(pre, post),
        0 <= k < pre.len(),
        pre[k].state.is_settled(),
    ensures
        post.len() >= pre.len(),
        post[k].id == pre[k].id,
        post[k].node_name == pre[k].node_name,
        post[k].state.is_settled(),
{
    if exists|node: Seq<char>, rec: RecordModel| #[trigger] claim_input_step(pre, post, node, rec) {
        let (node, rec) = choose|node: Seq<char>, rec: RecordModel|
            #[trigger] claim_input_step(pre, post, node, rec);
        let i = choose|i: int| claim_input_at(pre, post, i, node) && rec == assigned(pre[i]);
        assert(i != k);
    } else if exists|node: Seq<char>, rec: RecordModel|
        #[trigger] claim_output_step(pre, post, node, rec) {
        let (node, rec) = choose|node: Seq<char>, rec: RecordModel|
            #[trigger] claim_output_step(pre, post, node, rec);
        let i = choose|i: int| claim_output_at(pre, post, i, node) && rec == partial_sent(pre[i]);
        assert(i != k);
    }
}

/// A whole history of protocol steps, as a sequence of record stores.
pub open spec fn protocol_run(states: Seq<Seq<RecordModel>>) -> bool {
    forall|t: int| 0 <= t < states.len() - 1 ==> protocol_step(#[trigger] states[t], states[t + 1])
}

/// Over any history of protocol steps, a record observed as `Assigned` or
/// `Sent` at one point is never observed as `Received` or `PartialSent`
/// at any later point, and its key never changes.
pub proof fn lemma_settled_stays_settled(
    states: Seq<Seq<RecordModel>>,
    t1: int,
    t2: int,
    k: int,
)
    requires
        protocol_run(states),
        0 <= t1 <= t2 < states.len(),
        0 <= k < states[t1].len(),
        states[t1][k].state.is_settled(),
    ensures
        k < states[t2].len(),
        states[t2][k].id == states[t1][k].id,
        states[t2][k].node_name == states[t1][k].node_name,
        states[t2][k].state.is_settled(),
    decreases t2 - t1,
{
    if t1 < t2 {
        lemma_settled_never_regresses(states[t1], states[t1 + 1], k);
        lemma_settled_stays_settled(states, t1 + 1, t2, k);
    }
}

/// At most one node definition carries any given name: uniqueness of the
/// primary key, as the repository invariant guarantees it.
pub proof fn lemma_node_name_at_most_one(
    nodes: Seq<NodeModel>,
    name: Seq<char>,
    i: int,
    j: int,
)
    requires
        node_names_unique(nodes),
        0 <= i < nodes.len(),
        0 <= j < nodes.len(),
        nodes[i].node_name == name,
        nodes[j].node_name == name,
    ensures
        i == j,
{
}


} // verus!
