//! The node state controller: owns the node's runtime configuration and
//! lifecycle state, and runs the per-record data command loop.
//!
//! All external access serializes through one exclusive borrow of the
//! controller, so no caller observes a partially-applied transition.

use vstd::prelude::*;

use crate::errors::ControlError;
use crate::fanout::DataBatch;
use crate::fanout::FanOut;
use crate::fanout::SubscriberModel;
use crate::fanout::offered;
use crate::fanout::subscriber_names;
use crate::record::DataState;
use crate::repo::DataRecord;
use crate::repo::MemRepo;
use crate::repo::RecordModel;
use crate::repo::in_claimable;
use crate::repo::out_claimable;
use crate::strutil::str_vec_contains;

verus! {

/// Lifecycle state of the node's program. `Pending` is the initial state;
/// `Stopped` is terminal from the controller's own view: only external
/// supervision restarts a stopped process.
#[derive(Clone, Copy, Debug, PartialEq, Eq, Structural)]
pub enum ProgramState {
    Pending,
    Ready,
    Stopped,
}

/// The declared role of a node in the pipeline.
#[derive(Clone, Copy, Debug, PartialEq, Eq, Structural)]
pub enum NodeType {
    Source,
    Transform,
    Sink,
}

/// A control-plane command.
#[derive(Clone, Copy, Debug, PartialEq, Eq, Structural)]
pub enum ControlCommand {
    Start,
    Pause,
    Restart,
    Stop,
}

/// The controller's transition table. `start` and `restart` activate,
/// `pause` suspends, `stop` terminates — each from any state.
pub open spec fn transition(s: ProgramState, c: ControlCommand) -> ProgramState {
    match c {
        ControlCommand::Start => ProgramState::Ready,
        ControlCommand::Pause => ProgramState::Pending,
        ControlCommand::Restart => ProgramState::Ready,
        ControlCommand::Stop => ProgramState::Stopped,
    }
}

/// The node type named by a wire-format role code, if any.
pub open spec fn node_type_of_code(code: int) -> Option<NodeType> {
    if code == 0 {
        Some(NodeType::Source)
    } else if code == 1 {
        Some(NodeType::Transform)
    } else if code == 2 {
        Some(NodeType::Sink)
    } else {
        None
    }
}

/// Decode a wire-format role code.
pub fn node_type_from_code(code: i32) -> (r: Option<NodeType>)
    ensures
        r == node_type_of_code(code as int),
{
    if code == 0 {
        Some(NodeType::Source)
    } else if code == 1 {
        Some(NodeType::Transform)
    } else if code == 2 {
        Some(NodeType::Sink)
    } else {
        None
    }
}

/// A `start` call's payload: the configuration to install.
#[derive(Clone, Debug)]
pub struct StartRequest {
    pub node_type: i32,
    pub upstreams: Vec<String>,
    pub script: String,
}

/// The input side of one data command iteration: a claimed input record
/// to transform, the node's own ingestion, or nothing to do.
#[derive(Debug)]
pub enum WorkItem {
    Input(DataRecord),
    Ingest,
    Idle,
}

/// The node state controller.
pub struct Controller {
    pub node_name: String,
    pub state: ProgramState,
    pub node_type: Option<NodeType>,
    pub upstreams: Option<Vec<String>>,
    pub script: Option<String>,
}

impl Controller {
    /// A fresh controller for the named node: `Pending`, unconfigured.
    pub fn new(node_name: String) -> (r: Controller)
        ensures
            r.node_name == node_name,
            r.state is Pending,
            r.node_type is None,
            r.upstreams is None,
            r.script is None,
    {
        Controller { node_name, state: ProgramState::Pending, node_type: None, upstreams: None, script: None }
    }

    /// Suspend: a pure transition to `Pending`, from any state; the
    /// installed configuration is untouched.
    pub fn pause(&mut self)
        ensures
            final(self).state == transition(old(self).state, ControlCommand::Pause),
            final(self).node_name == old(self).node_name,
            final(self).node_type == old(self).node_type,
            final(self).upstreams == old(self).upstreams,
            final(self).script == old(self).script,
    {
        self.state = ProgramState::Pending;
    }

    /// Reactivate: a pure transition to `Ready`, from any state.
    pub fn restart(&mut self)
        ensures
            final(self).state == transition(old(self).state, ControlCommand::Restart),
            final(self).node_name == old(self).node_name,
            final(self).node_type == old(self).node_type,
            final(self).upstreams == old(self).upstreams,
            final(self).script == old(self).script,
    {
        self.state = ProgramState::Ready;
    }

    /// Terminate: a pure transition to `Stopped`, from any state.
    pub fn stop(&mut self)
        ensures
            final(self).state == transition(old(self).state, ControlCommand::Stop),
            final(self).node_name == old(self).node_name,
            final(self).node_type == old(self).node_type,
            final(self).upstreams == old(self).upstreams,
            final(self).script == old(self).script,
    {
        self.state = ProgramState::Stopped;
    }

    /// Install configuration and activate, then run one pass of the data
    /// command loop synchronously, returning whether the pass drained
    /// every eligible output record. The request is validated first: on an
    /// invalid role code nothing is applied, so no caller ever observes a
    /// partially-applied transition.
    pub fn start(&mut self, req: StartRequest, repo: &mut MemRepo, fanout: &mut FanOut) -> (r:
        Result<bool, ControlError>)
        requires
            old(repo).wf(),
        ensures
            final(repo).wf(),
            final(self).node_name == old(self).node_name,
            final(repo).graph_view() == old(repo).graph_view(),
            final(repo).nodes_view() == old(repo).nodes_view(),
            match r {
                Ok(drained) => {
                    &&& node_type_of_code(req.node_type as int) is Some
                    &&& final(self).state is Ready
                    &&& final(self).node_type == node_type_of_code(req.node_type as int)
                    &&& final(self).upstreams.deep_view() == Some(req.upstreams.deep_view())
                    &&& final(self).script.deep_view() == Some(req.script@)
                    &&& data_pass_effect(
                        old(repo).records_view(),
                        final(repo).records_view(),
                        old(self).node_name@,
                        subscriber_names(old(fanout).subs_view()),
                    )
                    &&& exists|n: nat|
                        #[trigger] route_run(
                            old(repo).records_view(),
                            final(repo).records_view(),
                            old(fanout).subs_view(),
                            final(fanout).subs_view(),
                            old(self).node_name@,
                            n,
                        ) && (!drained ==> n >= old(repo).records_view().len())
                    &&& (drained <==> (forall|k: int|
                        0 <= k < final(repo).records_view().len() ==> !out_claimable(
                            #[trigger] final(repo).records_view()[k],
                            old(self).node_name@,
                        )))
                },
                Err(e) => {
                    &&& e == ControlError::InvalidNodeType
                    &&& node_type_of_code(req.node_type as int) is None
                    &&& *final(self) == *old(self)
                    &&& final(repo).records_view() == old(repo).records_view()
                    &&& final(fanout).subs_view() == old(fanout).subs_view()
                },
            },
    {
        let parsed = node_type_from_code(req.node_type);
        match parsed {
            None => Err(ControlError::InvalidNodeType),
            Some(t) => {
                self.state = ProgramState::Ready;
                self.node_type = Some(t);
                self.upstreams = Some(req.upstreams);
                self.script = Some(req.script);
                let drained = self.process_data_cmd(repo, fanout);
                Ok(drained)
            },
        }
    }

    /// What the data command loop should do next on its input side: work a
    /// claimed input record, run the node's own ingestion when it is a
    /// source with nothing to claim, or stay idle.
    pub fn next_work(&self, repo: &mut MemRepo) -> (r: WorkItem)
        requires
            old(repo).wf(),
        ensures
            final(repo).wf(),
            final(repo).graph_view() == old(repo).graph_view(),
            final(repo).nodes_view() == old(repo).nodes_view(),
            match r {
                WorkItem::Input(rec) => self.state is Ready && crate::repo::claim_input_step(
                    old(repo).records_view(),
                    final(repo).records_view(),
                    self.node_name@,
                    rec@,
                ),
                WorkItem::Ingest => {
                    &&& self.state is Ready
                    &&& self.node_type == Some(NodeType::Source)
                    &&& final(repo).records_view() == old(repo).records_view()
                    &&& forall|i: int|
                        0 <= i < old(repo).records_view().len() ==> !in_claimable(
                            #[trigger] old(repo).records_view()[i],
                            self.node_name@,
                        )
                },
                WorkItem::Idle => {
                    &&& final(repo).records_view() == old(repo).records_view()
                    &&& (self.state is Ready ==> self.node_type != Some(NodeType::Source)
                        && forall|i: int|
                        0 <= i < old(repo).records_view().len() ==> !in_claimable(
                            #[trigger] old(repo).records_view()[i],
                            self.node_name@,
                        ))
                },
            },
    {
        if !matches!(self.state, ProgramState::Ready) {
            return WorkItem::Idle;
        }
        match repo.find_and_assign_input_data(self.node_name.as_str()) {
            Some(rec) => WorkItem::Input(rec),
            None => {
                if matches!(self.node_type, Some(NodeType::Source)) {
                    WorkItem::Ingest
                } else {
                    WorkItem::Idle
                }
            },
        }
    }

    /// One pass of the data command loop, entered on `start` and whenever
    /// the state is `Ready`: repeatedly claim an Out-direction record of
    /// this node, offer its batch to every subscriber not yet in its
    /// delivered set, record the extended set, and finalize the record as
    /// `Sent` exactly when that set covers every subscriber. Returns
    /// whether every eligible record was drained; a record whose
    /// subscribers lag stays `PartialSent` for a later pass, and the pass
    /// gives up after as many claims as there are records rather than spin
    /// on one stuck record. Outside `Ready` the pass does nothing.
    pub fn process_data_cmd(&self, repo: &mut MemRepo, fanout: &mut FanOut) -> (r: bool)
        requires
            old(repo).wf(),
        ensures
            final(repo).wf(),
            final(repo).graph_view() == old(repo).graph_view(),
            final(repo).nodes_view() == old(repo).nodes_view(),
            data_pass_effect(
                old(repo).records_view(),
                final(repo).records_view(),
                self.node_name@,
                subscriber_names(old(fanout).subs_view()),
            ),
            self.state is Ready ==> exists|n: nat|
                #[trigger] route_run(
                    old(repo).records_view(),
                    final(repo).records_view(),
                    old(fanout).subs_view(),
                    final(fanout).subs_view(),
                    self.node_name@,
                    n,
                ) && (!r ==> n >= old(repo).records_view().len()),
            self.state is Ready ==> (r <==> (forall|k: int|
                0 <= k < final(repo).records_view().len() ==> !out_claimable(
                    #[trigger] final(repo).records_view()[k],
                    self.node_name@,
                ))),
            !(self.state is Ready) ==> final(repo).records_view() == old(repo).records_view()
                && final(fanout).subs_view() == old(fanout).subs_view() && r,
    {
        if !matches!(self.state, ProgramState::Ready) {
            return true;
        }
        let mut budget = repo.record_count();
        let ghost mut steps: nat = 0;
        loop
            invariant
                self.state is Ready,
                repo.wf(),
                repo.graph_view() == old(repo).graph_view(),
                repo.nodes_view() == old(repo).nodes_view(),
                data_pass_effect(
                    old(repo).records_view(),
                    repo.records_view(),
                    self.node_name@,
                    subscriber_names(old(fanout).subs_view()),
                ),
                subscriber_names(fanout.subs_view()) == subscriber_names(
                    old(fanout).subs_view(),
                ),
                route_run(
                    old(repo).records_view(),
                    repo.records_view(),
                    old(fanout).subs_view(),
                    fanout.subs_view(),
                    self.node_name@,
                    steps,
                ),
                steps + budget == old(repo).records_view().len(),
            decreases budget,
        {
            let ghost before = repo.records_view();
            let ghost fpre = fanout.subs_view();
            let claimed = repo.find_and_sent_output_data(self.node_name.as_str());
            match claimed {
                None => {
                    return true;
                },
                Some(rec) => {
                    proof {
                        lemma_data_pass_effect_claim(
                            old(repo).records_view(),
                            before,
                            repo.records_view(),
                            self.node_name@,
                            subscriber_names(old(fanout).subs_view()),
                        );
                    }
                    let ghost after_claim = repo.records_view();
                    let ghost ci = choose|i: int|
                        crate::repo::claim_output_at(before, after_claim, i, self.node_name@)
                            && rec@ == crate::repo::partial_sent(before[i]);
                    let batch = DataBatch { record_id: rec.id.clone() };
                    // Offer the batch to every subscriber not already in
                    // the record's delivered set; those that accept extend
                    // it, anyone lagging keeps the record short of full
                    // coverage.
                    let mut delivered: Vec<String> = rec.sent.clone();
                    let subs = fanout.subscriber_count();
                    let mut idx: usize = 0;
                    proof {
                        assert(delivered.deep_view() =~~= rec.sent.deep_view());
                        assert(fpre.take(0) =~= Seq::<SubscriberModel>::empty());
                        assert(accepting_names(Seq::<SubscriberModel>::empty(), rec.sent.deep_view())
                            =~= Seq::<Seq<char>>::empty());
                        assert(delivered.deep_view() =~= rec.sent.deep_view() + accepting_names(
                            fpre.take(0),
                            rec.sent.deep_view(),
                        ));
                    }
                    while idx < subs
                        invariant
                            subs == fpre.len(),
                            fanout.subs_view().len() == subs,
                            0 <= idx <= subs,
                            forall|j: int| idx <= j < subs ==> fanout.subs_view()[j] == fpre[j],
                            forall|j: int|
                                0 <= j < idx ==> fanout.subs_view()[j] == (
                                if rec.sent.deep_view().contains(fpre[j].name) {
                                    fpre[j]
                                } else {
                                    offered(fpre[j], batch@)
                                }),
                            delivered.deep_view() == rec.sent.deep_view() + accepting_names(
                                fpre.take(idx as int),
                                rec.sent.deep_view(),
                            ),
                        decreases subs - idx,
                    {
                        let name = fanout.subscriber_name(idx).clone();
                        let ghost dpre = delivered.deep_view();
                        let ghost already = rec.sent.deep_view();
                        let ghost x = fpre[idx as int];
                        let ghost head: Seq<Seq<char>> = if !already.contains(x.name)
                            && x.queue.len() < x.capacity {
                            seq![x.name]
                        } else {
                            Seq::<Seq<char>>::empty()
                        };
                        let contained = str_vec_contains(&rec.sent, name.as_str());
                        if !contained {
                            let ok = fanout.push_to(idx, &batch);
                            if ok {
                                delivered.push(name);
                                proof {
                                    assert(head =~= seq![x.name]);
                                    assert(delivered.deep_view() =~= dpre + head);
                                }
                            } else {
                                proof {
                                    assert(head =~= Seq::<Seq<char>>::empty());
                                    assert(delivered.deep_view() =~= dpre + head);
                                }
                            }
                        } else {
                            proof {
                                assert(head =~= Seq::<Seq<char>>::empty());
                                assert(delivered.deep_view() =~= dpre + head);
                            }
                        }
                        proof {
                            assert(seq![x].skip(1) =~= Seq::<SubscriberModel>::empty());
                            assert(accepting_names(Seq::<SubscriberModel>::empty(), already)
                                =~= Seq::<Seq<char>>::empty());
                            assert(seq![x][0] == x);
                            assert(accepting_names(seq![x], already) =~= head + accepting_names(
                                Seq::<SubscriberModel>::empty(),
                                already,
                            ));
                            assert(accepting_names(seq![x], already) =~= head);
                            lemma_accepting_names_concat(fpre.take(idx as int), seq![x], already);
                            assert(fpre.take(idx as int) + seq![x] =~= fpre.take(idx as int + 1));
                            assert(dpre + head =~= already + (accepting_names(
                                fpre.take(idx as int),
                                already,
                            ) + head));
                            assert(delivered.deep_view() =~= already + accepting_names(
                                fpre.take(idx as int + 1),
                                already,
                            ));
                        }
                        idx += 1;
                    }
                    let ghost fpost = fanout.subs_view();
                    proof {
                        assert(fpost =~~= offer_round(fpre, batch@, rec.sent.deep_view()));
                        assert forall|jj: int| 0 <= jj < subs implies #[trigger] fpost[jj].name
                            == fpre[jj].name by {}
                        assert(subscriber_names(fpost) =~= subscriber_names(
                            old(fanout).subs_view(),
                        ));
                    }
                    let mut fully = true;
                    let subs2 = fanout.subscriber_count();
                    let mut j: usize = 0;
                    while j < subs2
                        invariant
                            fanout.subs_view() == fpost,
                            subs2 == fpost.len(),
                            0 <= j <= subs2,
                            fully == (forall|i: int|
                                0 <= i < j ==> delivered.deep_view().contains(
                                    #[trigger] fpost[i].name,
                                )),
                        decreases subs2 - j,
                    {
                        if !str_vec_contains(&delivered, fanout.subscriber_name(j).as_str()) {
                            fully = false;
                        }
                        j += 1;
                    }
                    let ghost deliv = delivered.deep_view();
                    proof {
                        assert(fpre.take(subs as int) =~= fpre);
                        assert(rec@.sent == before[ci].sent);
                        assert(deliv =~= before[ci].sent + accepting_names(fpre, before[ci].sent));
                        if fully {
                            assert forall|jj: int| 0 <= jj < fpre.len() implies deliv.contains(
                                #[trigger] fpre[jj].name,
                            ) by {
                                assert(deliv.contains(fpost[jj].name));
                            }
                            assert(covers(deliv, fpre));
                        } else {
                            assert(!(forall|i: int|
                                0 <= i < subs2 ==> deliv.contains(#[trigger] fpost[i].name)));
                            let jj = choose|i: int|
                                0 <= i < subs2 && !deliv.contains(#[trigger] fpost[i].name);
                            assert(!deliv.contains(fpre[jj].name));
                            assert(!covers(deliv, fpre));
                        }
                        assert(fully == covers(deliv, fpre));
                    }
                    repo.mark_partial_sent(self.node_name.as_str(), rec.id.as_str(), delivered);
                    proof {
                        assert(after_claim[ci] == crate::repo::partial_sent(before[ci]));
                        assert(after_claim[ci].node_name == self.node_name@);
                        assert(after_claim[ci].id == rec@.id);
                        assert(repo.records_view() == after_claim.update(
                            ci,
                            crate::repo::with_sent(after_claim[ci], deliv),
                        ));
                        assert(pass_overwrite_step(
                            after_claim,
                            repo.records_view(),
                            self.node_name@,
                            subscriber_names(old(fanout).subs_view()),
                        ));
                        lemma_data_pass_effect_overwrite(
                            old(repo).records_view(),
                            after_claim,
                            repo.records_view(),
                            self.node_name@,
                            subscriber_names(old(fanout).subs_view()),
                        );
                    }
                    if fully {
                        let ghost before_fin = repo.records_view();
                        repo.update_state(
                            self.node_name.as_str(),
                            rec.id.as_str(),
                            DataState::Sent,
                        );
                        proof {
                            assert(before_fin[ci] == crate::repo::with_sent(after_claim[ci], deliv));
                            assert(before_fin[ci].node_name == self.node_name@);
                            assert(before_fin[ci].id == rec@.id);
                            assert(repo.records_view() == before_fin.update(
                                ci,
                                crate::repo::with_state(before_fin[ci], DataState::Sent),
                            ));
                            let names = subscriber_names(old(fanout).subs_view());
                            assert forall|sn: Seq<char>|
                                #[trigger] names.contains(sn) implies before_fin[ci].sent.contains(
                                sn,
                            ) by {
                                let i = choose|i: int| 0 <= i < names.len() && names[i] == sn;
                                assert(deliv.contains(fpre[i].name));
                            }
                            assert(pass_overwrite_step(
                                before_fin,
                                repo.records_view(),
                                self.node_name@,
                                names,
                            ));
                            lemma_data_pass_effect_overwrite(
                                old(repo).records_view(),
                                before_fin,
                                repo.records_view(),
                                self.node_name@,
                                names,
                            );
                        }
                    }
                    proof {
                        assert(repo.records_view() =~~= before.update(
                            ci,
                            routed(before[ci], fpre),
                        ));
                        assert(route_output_step(
                            before,
                            repo.records_view(),
                            fpre,
                            fanout.subs_view(),
                            self.node_name@,
                        ));
                        lemma_route_run_extend(
                            old(repo).records_view(),
                            before,
                            repo.records_view(),
                            old(fanout).subs_view(),
                            fpre,
                            fanout.subs_view(),
                            self.node_name@,
                            steps,
                        );
                        steps = steps + 1;
                    }
                    if budget == 0 {
                        return !repo.has_claimable_output(self.node_name.as_str());
                    }
                    budget = budget - 1;
                },
            }
        }
    }
}

/// What one pass of the data command loop may do to the record store:
/// every record keeps its key and direction; records of other nodes and
/// In-direction records are untouched; an `Assigned` record is untouched;
/// a `Sent` record stays `Sent`. Only this node's Out-direction records
/// move, and only forwards; and a record reaches `Sent` only once its
/// delivered set covers every subscriber.
pub open spec fn data_pass_effect(
    pre: Seq<crate::repo::RecordModel>,
    post: Seq<crate::repo::RecordModel>,
    node: Seq<char>,
    subnames: Seq<Seq<char>>,
) -> bool {
    &&& post.len() == pre.len()
    &&& forall|k: int|
        0 <= k < pre.len() ==> {
            &&& (#[trigger] post[k]).id == pre[k].id
            &&& post[k].node_name == pre[k].node_name
            &&& post[k].direction == pre[k].direction
            &&& (pre[k].node_name != node ==> post[k] == pre[k])
            &&& (pre[k].direction is In ==> post[k] == pre[k])
            &&& (pre[k].state is Assigned ==> post[k] == pre[k])
            &&& (pre[k].state is Sent ==> post[k].state is Sent)
            &&& (pre[k].state.is_settled() ==> post[k].state.is_settled())
            &&& (!(pre[k].state is Sent) && post[k].state is Sent ==> forall|s: Seq<char>|
                #[trigger] subnames.contains(s) ==> post[k].sent.contains(s))
        }
}

/// `data_pass_effect` absorbs an output claim step.
proof fn lemma_data_pass_effect_claim(
    base: Seq<crate::repo::RecordModel>,
    pre: Seq<crate::repo::RecordModel>,
    post: Seq<crate::repo::RecordModel>,
    node: Seq<char>,
    subnames: Seq<Seq<char>>,
)
    requires
        data_pass_effect(base, pre, node, subnames),
        exists|rec: crate::repo::RecordModel|
            #[trigger] crate::repo::claim_output_step(pre, post, node, rec),
    ensures
        data_pass_effect(base, post, node, subnames),
{
    let rec = choose|rec: crate::repo::RecordModel|
        #[trigger] crate::repo::claim_output_step(pre, post, node, rec);
    let i = choose|i: int|
        crate::repo::claim_output_at(pre, post, i, node) && rec == crate::repo::partial_sent(
            pre[i],
        );
    assert forall|k: int| 0 <= k < base.len() implies {
        &&& (#[trigger] post[k]).id == base[k].id
        &&& post[k].node_name == base[k].node_name
        &&& post[k].direction == base[k].direction
        &&& (base[k].node_name != node ==> post[k] == base[k])
        &&& (base[k].direction is In ==> post[k] == base[k])
        &&& (base[k].state is Assigned ==> post[k] == base[k])
        &&& (base[k].state is Sent ==> post[k].state is Sent)
        &&& (base[k].state.is_settled() ==> post[k].state.is_settled())
        &&& (!(base[k].state is Sent) && post[k].state is Sent ==> forall|s: Seq<char>|
            #[trigger] subnames.contains(s) ==> post[k].sent.contains(s))
    } by {
        if k != i {
            assert(post[k] == pre[k]);
        } else {
            assert(post[k].state is PartialSent);
        }
    }
}

/// A delivered-set overwrite of one of this node's Out-direction,
/// non-settled records, a finalize of one whose delivered set covers
/// every subscriber — or no change at all.
pub open spec fn pass_overwrite_step(
    pre: Seq<crate::repo::RecordModel>,
    post: Seq<crate::repo::RecordModel>,
    node: Seq<char>,
    subnames: Seq<Seq<char>>,
) -> bool {
    ||| post == pre
    ||| exists|i: int, sent: Seq<Seq<char>>|
        {
            &&& 0 <= i < pre.len()
            &&& pre[i].node_name == node
            &&& pre[i].direction is Out
            &&& !pre[i].state.is_settled()
            &&& post == pre.update(i, #[trigger] crate::repo::with_sent(pre[i], sent))
        }
    ||| exists|i: int|
        {
            &&& 0 <= i < pre.len()
            &&& pre[i].node_name == node
            &&& pre[i].direction is Out
            &&& !pre[i].state.is_settled()
            &&& post == pre.update(
                i,
                #[trigger] crate::repo::with_state(pre[i], DataState::Sent),
            )
            &&& forall|s: Seq<char>| #[trigger] subnames.contains(s) ==> pre[i].sent.contains(s)
        }
}

/// `data_pass_effect` absorbs a [`pass_overwrite_step`].
proof fn lemma_data_pass_effect_overwrite(
    base: Seq<crate::repo::RecordModel>,
    pre: Seq<crate::repo::RecordModel>,
    post: Seq<crate::repo::RecordModel>,
    node: Seq<char>,
    subnames: Seq<Seq<char>>,
)
    requires
        data_pass_effect(base, pre, node, subnames),
        pass_overwrite_step(pre, post, node, subnames),
    ensures
        data_pass_effect(base, post, node, subnames),
{
    if post != pre {
        let touched: int;
        if exists|i: int, sent: Seq<Seq<char>>|
            {
                &&& 0 <= i < pre.len()
                &&& pre[i].node_name == node
                &&& pre[i].direction is Out
                &&& !pre[i].state.is_settled()
                &&& post == pre.update(i, #[trigger] crate::repo::with_sent(pre[i], sent))
            } {
            let (i, sent) = choose|i: int, sent: Seq<Seq<char>>|
                {
                    &&& 0 <= i < pre.len()
                    &&& pre[i].node_name == node
                    &&& pre[i].direction is Out
                    &&& !pre[i].state.is_settled()
                    &&& post == pre.update(i, #[trigger] crate::repo::with_sent(pre[i], sent))
                };
            touched = i;
        } else {
            let i = choose|i: int|
                {
                    &&& 0 <= i < pre.len()
                    &&& pre[i].node_name == node
                    &&& pre[i].direction is Out
                    &&& !pre[i].state.is_settled()
                    &&& post == pre.update(
                        i,
                        #[trigger] crate::repo::with_state(pre[i], DataState::Sent),
                    )
                    &&& forall|s: Seq<char>|
                        #[trigger] subnames.contains(s) ==> pre[i].sent.contains(s)
                };
            touched = i;
        }
        assert forall|k: int| 0 <= k < base.len() implies {
            &&& (#[trigger] post[k]).id == base[k].id
            &&& post[k].node_name == base[k].node_name
            &&& post[k].direction == base[k].direction
            &&& (base[k].node_name != node ==> post[k] == base[k])
            &&& (base[k].direction is In ==> post[k] == base[k])
            &&& (base[k].state is Assigned ==> post[k] == base[k])
            &&& (base[k].state is Sent ==> post[k].state is Sent)
            &&& (base[k].state.is_settled() ==> post[k].state.is_settled())
            &&& (!(base[k].state is Sent) && post[k].state is Sent ==> forall|s: Seq<char>|
                #[trigger] subnames.contains(s) ==> post[k].sent.contains(s))
        } by {
            if k != touched {
                assert(post[k] == pre[k]);
            }
        }
    }
}

/// `data_pass_effect` holds reflexively: a pass that found nothing to do
/// changed nothing.
pub proof fn lemma_data_pass_effect_refl(
    recs: Seq<RecordModel>,
    node: Seq<char>,
    subnames: Seq<Seq<char>>,
)
    ensures
        data_pass_effect(recs, recs, node, subnames),
{
}

/// The downstream peers that accept a batch in one delivery round: the
/// subscribers not already in the record's delivered set whose queues
/// have room, in subscription order.
pub open spec fn accepting_names(
    subs: Seq<SubscriberModel>,
    already: Seq<Seq<char>>,
) -> Seq<Seq<char>>
    decreases subs.len(),
{
    if subs.len() == 0 {
        Seq::empty()
    } else {
        let head: Seq<Seq<char>> = if !already.contains(subs[0].name) && subs[0].queue.len()
            < subs[0].capacity {
            seq![subs[0].name]
        } else {
            Seq::empty()
        };
        head + accepting_names(subs.skip(1), already)
    }
}

/// The accepting peers of a concatenation are those of the parts, in
/// order.
pub proof fn lemma_accepting_names_concat(
    a: Seq<SubscriberModel>,
    b: Seq<SubscriberModel>,
    already: Seq<Seq<char>>,
)
    ensures
        accepting_names(a + b, already) == accepting_names(a, already) + accepting_names(
            b,
            already,
        ),
    decreases a.len(),
{
    if a.len() == 0 {
        assert(a + b =~= b);
        assert(accepting_names(a, already) + accepting_names(b, already) =~= accepting_names(
            b,
            already,
        ));
    } else {
        assert((a + b).len() > 0);
        assert((a + b)[0] == a[0]);
        assert((a + b).skip(1) =~= a.skip(1) + b);
        lemma_accepting_names_concat(a.skip(1), b, already);
        let head: Seq<Seq<char>> = if !already.contains(a[0].name) && a[0].queue.len()
            < a[0].capacity {
            seq![a[0].name]
        } else {
            Seq::empty()
        };
        assert(head + (accepting_names(a.skip(1), already) + accepting_names(b, already)) =~= (
        head + accepting_names(a.skip(1), already)) + accepting_names(b, already));
    }
}

/// One delivery round of a batch: every subscriber not already in the
/// record's delivered set is offered it — a queue with room takes a copy,
/// a full one raises its lag signal — and the others are untouched.
pub open spec fn offer_round(
    subs: Seq<SubscriberModel>,
    id: Seq<char>,
    already: Seq<Seq<char>>,
) -> Seq<SubscriberModel> {
    Seq::new(
        subs.len(),
        |j: int|
            if already.contains(subs[j].name) {
                subs[j]
            } else {
                offered(subs[j], id)
            },
    )
}

/// The delivered set covers every subscriber.
pub open spec fn covers(sent: Seq<Seq<char>>, subs: Seq<SubscriberModel>) -> bool {
    forall|j: int| 0 <= j < subs.len() ==> sent.contains(#[trigger] subs[j].name)
}

/// What routing one claimed record does to it, given the subscribers at
/// the time of the round: its delivered set grows by exactly the
/// accepting peers, and it is finalized `Sent` exactly when the grown set
/// covers every subscriber; otherwise it stays `PartialSent`.
pub open spec fn routed(rec: RecordModel, subs: Seq<SubscriberModel>) -> RecordModel {
    let grown = rec.sent + accepting_names(subs, rec.sent);
    RecordModel {
        state: if covers(grown, subs) {
            DataState::Sent
        } else {
            DataState::PartialSent
        },
        sent: grown,
        ..rec
    }
}

/// One iteration of the data command loop: some claimable Out-direction
/// record of `node` is routed — its batch offered to every subscriber not
/// yet in its delivered set — and the two stores change in no other way.
pub open spec fn route_output_step(
    rpre: Seq<RecordModel>,
    rpost: Seq<RecordModel>,
    fpre: Seq<SubscriberModel>,
    fpost: Seq<SubscriberModel>,
    node: Seq<char>,
) -> bool {
    exists|i: int|
        {
            &&& 0 <= i < rpre.len()
            &&& #[trigger] out_claimable(rpre[i], node)
            &&& fpost == offer_round(fpre, rpre[i].id, rpre[i].sent)
            &&& rpost == rpre.update(i, routed(rpre[i], fpre))
        }
}

/// `n` route steps in sequence.
pub open spec fn route_run(
    rpre: Seq<RecordModel>,
    rpost: Seq<RecordModel>,
    fpre: Seq<SubscriberModel>,
    fpost: Seq<SubscriberModel>,
    node: Seq<char>,
    n: nat,
) -> bool
    decreases n,
{
    if n == 0 {
        rpost == rpre && fpost == fpre
    } else {
        exists|rmid: Seq<RecordModel>, fmid: Seq<SubscriberModel>|
            #[trigger] route_output_step(rpre, rmid, fpre, fmid, node) && route_run(
                rmid,
                rpost,
                fmid,
                fpost,
                node,
                (n - 1) as nat,
            )
    }
}

/// A run of route steps extends by one step at its end.
pub proof fn lemma_route_run_extend(
    r0: Seq<RecordModel>,
    r1: Seq<RecordModel>,
    r2: Seq<RecordModel>,
    f0: Seq<SubscriberModel>,
    f1: Seq<SubscriberModel>,
    f2: Seq<SubscriberModel>,
    node: Seq<char>,
    n: nat,
)
    requires
        route_run(r0, r1, f0, f1, node, n),
        route_output_step(r1, r2, f1, f2, node),
    ensures
        route_run(r0, r2, f0, f2, node, n + 1),
    decreases n,
{
    if n == 0 {
        assert(route_run(r2, r2, f2, f2, node, 0));
    } else {
        let (rmid, fmid) = choose|rmid: Seq<RecordModel>, fmid: Seq<SubscriberModel>|
            #[trigger] route_output_step(r0, rmid, f0, fmid, node) && route_run(
                rmid,
                r1,
                fmid,
                f1,
                node,
                (n - 1) as nat,
            );
        lemma_route_run_extend(rmid, r1, r2, fmid, f1, f2, node, (n - 1) as nat);
    }
}

/// The control transition table, as the testable law states it: from any
/// state `stop` yields `Stopped`; from `Stopped`, `restart` yields
/// `Ready`; `pause` from `Ready` yields `Pending`, and applying it again
/// yields `Pending` again.
pub proof fn lemma_control_transition_table(s: ProgramState)
    ensures
        transition(s, ControlCommand::Stop) is Stopped,
        transition(ProgramState::Stopped, ControlCommand::Restart) is Ready,
        transition(ProgramState::Ready, ControlCommand::Pause) is Pending,
        transition(
            transition(ProgramState::Ready, ControlCommand::Pause),
            ControlCommand::Pause,
        ) is Pending,
{
}

} // verus!
