//! The state sync engine: reconciles the controller's configuration
//! against the externally declared desired state in the repository,
//! re-applying it through the same controller API that `start` uses. A
//! node that cannot observe the declared desired state must not continue
//! serving stale configuration, so a missing declaration is fatal.

use vstd::prelude::*;

use crate::controller::Controller;
use crate::controller::data_pass_effect;
use crate::controller::lemma_data_pass_effect_refl;
use crate::controller::NodeType;
use crate::controller::StartRequest;
use crate::controller::node_type_of_code;
use crate::controller::node_type_from_code;
use crate::errors::SyncError;
use crate::fanout::FanOut;
use crate::fanout::subscriber_names;
use crate::repo::MemRepo;
use crate::repo::NodeModel;
use crate::strutil::str_eq;
use crate::strutil::str_vecs_eq;

verus! {

/// The controller holds exactly the configuration that the node
/// definition declares.
pub open spec fn config_matches(ctrl: Controller, node: NodeModel) -> bool {
    &&& ctrl.node_type == node_type_of_code(node.node_type)
    &&& ctrl.node_type is Some
    &&& ctrl.upstreams.deep_view() == Some(node.upstreams)
    &&& ctrl.script.deep_view() == Some(node.script)
}

/// Whether the declared configuration differs from what the controller
/// currently holds, so that the sync engine must re-apply it.
pub fn needs_reapply(ctrl: &Controller, node: &crate::repo::Node) -> (r: bool)
    ensures
        r == !config_matches(*ctrl, node@),
{
    let decoded: Option<NodeType> = node_type_from_code(node.node_type);
    let tmatch = match (ctrl.node_type, decoded) {
        (Some(a), Some(b)) => a == b,
        _ => false,
    };
    let umatch = match &ctrl.upstreams {
        Some(u) => str_vecs_eq(u, &node.upstreams),
        None => false,
    };
    let smatch = match &ctrl.script {
        Some(sc) => str_eq(sc.as_str(), node.script.as_str()),
        None => false,
    };
    !(tmatch && umatch && smatch)
}

/// One reconciliation pass: read this node's declared definition and, if
/// it differs from what the controller holds, re-apply it through the
/// controller's own `start` path. Returns whether anything was re-applied.
/// A missing node definition is fatal to the sync engine; an invalid
/// declared role code surfaces as a configuration error.
pub fn sync_once(repo: &mut MemRepo, ctrl: &mut Controller, fanout: &mut FanOut) -> (r: Result<
    bool,
    SyncError,
>)
    requires
        old(repo).wf(),
    ensures
        final(repo).wf(),
        final(repo).graph_view() == old(repo).graph_view(),
        final(repo).nodes_view() == old(repo).nodes_view(),
        final(ctrl).node_name == old(ctrl).node_name,
        match r {
            Ok(reapplied) => {
                &&& exists|i: int|
                    0 <= i < final(repo).nodes_view().len() && (#[trigger] final(repo).nodes_view()[i]).node_name == old(ctrl).node_name@ && config_matches(
                        *final(ctrl),
                        final(repo).nodes_view()[i],
                    )
                &&& data_pass_effect(
                    old(repo).records_view(),
                    final(repo).records_view(),
                    old(ctrl).node_name@,
                    subscriber_names(old(fanout).subs_view()),
                )
                &&& (!reapplied ==> *final(ctrl) == *old(ctrl) && final(repo).records_view()
                    == old(repo).records_view() && final(fanout).subs_view() == old(fanout).subs_view())
                &&& (reapplied ==> final(ctrl).state is Ready)
            },
            Err(SyncError::NodeNotDeclared) => {
                &&& forall|i: int|
                    0 <= i < final(repo).nodes_view().len() ==> (#[trigger] final(repo).nodes_view()[i]).node_name != old(ctrl).node_name@
                &&& *final(ctrl) == *old(ctrl)
                &&& final(repo).records_view() == old(repo).records_view()
                &&& final(fanout).subs_view() == old(fanout).subs_view()
            },
            Err(SyncError::Config(_)) => {
                &&& exists|i: int|
                    0 <= i < final(repo).nodes_view().len() && (#[trigger] final(repo).nodes_view()[i]).node_name == old(ctrl).node_name@
                        && node_type_of_code(final(repo).nodes_view()[i].node_type) is None
                &&& *final(ctrl) == *old(ctrl)
                &&& final(repo).records_view() == old(repo).records_view()
                &&& final(fanout).subs_view() == old(fanout).subs_view()
            },
        },
{
    let found = repo.get_node_by_name(ctrl.node_name.as_str());
    match found {
        None => {
            Err(SyncError::NodeNotDeclared)
        },
        Some(node) => {
            let ghost nodem = node@;
            proof {
                let i = choose|i: int|
                    0 <= i < repo.nodes_view().len() && repo.nodes_view()[i] == nodem;
                assert((#[trigger] repo.nodes_view()[i]).node_name == ctrl.node_name@);
            }
            if !needs_reapply(ctrl, node) {
                proof {
                    lemma_data_pass_effect_refl(
                        repo.records_view(),
                        ctrl.node_name@,
                        subscriber_names(fanout.subs_view()),
                    );
                }
                return Ok(false);
            }
            let req = StartRequest {
                node_type: node.node_type,
                upstreams: node.upstreams.clone(),
                script: node.script.clone(),
            };
            proof {
                assert(req.upstreams.deep_view() =~~= nodem.upstreams);
            }
            match ctrl.start(req, repo, fanout) {
                Ok(_) => {
                    proof {
                        let i = choose|i: int|
                            0 <= i < repo.nodes_view().len() && repo.nodes_view()[i] == nodem;
                        assert((#[trigger] repo.nodes_view()[i]).node_name == ctrl.node_name@);
                        assert(config_matches(*ctrl, repo.nodes_view()[i]));
                    }
                    Ok(true)
                },
                Err(e) => {
                    proof {
                        let i = choose|i: int|
                            0 <= i < repo.nodes_view().len() && repo.nodes_view()[i] == nodem;
                        assert((#[trigger] repo.nodes_view()[i]).node_name == ctrl.node_name@);
                    }
                    Err(SyncError::Config(e))
                },
            }
        },
    }
}

} // verus!
