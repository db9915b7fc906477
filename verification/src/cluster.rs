//! The supervising context that owns several node lifecycles in one
//! process: it ticks them, carries their messages, and collects the
//! responses they complete. Node lifecycles are scoped to this
//! context, so a group of nodes can be driven and observed in
//! isolation.
//!
//! Quit semantics: a node that has stopped is never ticked forward
//! and never processes a message again. `tick_all` and `deliver_all`
//! guarantee that a stopped node's state stays exactly as it was, and
//! that a fully stopped cluster sends nothing and completes nothing
//! further.

use vstd::prelude::*;

use crate::message::RaftMessage;
use crate::node::{LocalRequestMsg, RaftNode, ServerRequestMsg};
use crate::response_message::{LocalResponseMsg, ResponseMessage, ServerResponseMsg};
use crate::state_machine::AbstractStateMachine;

verus! {

/// No node of `s` is still running.
pub open spec fn all_stopped<FSM: AbstractStateMachine>(s: Seq<RaftNode<FSM>>) -> bool {
    forall|i: int| 0 <= i < s.len() ==> !((#[trigger] s[i]).lifecycle is Running)
}

/// Some node of `s` carries `id` and is still running.
pub open spec fn spec_running<FSM: AbstractStateMachine>(s: Seq<RaftNode<FSM>>, id: u64) -> bool {
    exists|i: int| 0 <= i < s.len() && (#[trigger] s[i]).id() == id && s[i].lifecycle is Running
}

/// One driving pass preserves every node's identity, and leaves every
/// already-stopped node exactly as it was.
pub open spec fn quiet_preserved<FSM: AbstractStateMachine>(
    pre: Seq<RaftNode<FSM>>,
    post: Seq<RaftNode<FSM>>,
) -> bool {
    &&& post.len() == pre.len()
    &&& forall|i: int|
        0 <= i < pre.len() ==> (#[trigger] post[i]).config.raft_config
            == pre[i].config.raft_config
    &&& forall|i: int|
        0 <= i < pre.len() && !((#[trigger] pre[i]).lifecycle is Running)
            ==> RaftNode::same_state(&post[i], &pre[i])
}

/// The context object owning a set of nodes and their mailboxes.
pub struct Cluster<FSM: AbstractStateMachine> {
    pub nodes: Vec<RaftNode<FSM>>,
    pub inflight: Vec<RaftMessage>,
    pub completions: Vec<ResponseMessage<FSM>>,
}

impl<FSM: AbstractStateMachine> Cluster<FSM> {
    pub open spec fn wf(&self) -> bool {
        forall|i: int| 0 <= i < self.nodes@.len() ==> (#[trigger] self.nodes@[i]).wf()
    }

    pub fn new() -> (r: Cluster<FSM>)
        ensures
            r.wf(),
            r.nodes@.len() == 0,
            r.inflight@.len() == 0,
            r.completions@.len() == 0,
    {
        Cluster { nodes: Vec::new(), inflight: Vec::new(), completions: Vec::new() }
    }

    pub fn add_node(&mut self, node: RaftNode<FSM>)
        requires
            old(self).wf(),
            node.wf(),
        ensures
            final(self).wf(),
            final(self).nodes@ == old(self).nodes@.push(node),
            final(self).inflight@ == old(self).inflight@,
            final(self).completions@ == old(self).completions@,
    {
        self.nodes.push(node);
        proof {
            assert(forall|i: int|
                0 <= i < self.nodes@.len() - 1 ==> self.nodes@[i] == old(self).nodes@[i]);
        }
    }

    pub fn node_count(&self) -> (r: usize)
        ensures
            r == self.nodes@.len(),
    {
        self.nodes.len()
    }

    /// Whether the registry still reports the node `id` as running.
    pub fn is_running(&self, id: u64) -> (r: bool)
        ensures
            r == spec_running(self.nodes@, id),
    {
        let mut i: usize = 0;
        while i < self.nodes.len()
            invariant
                0 <= i <= self.nodes@.len(),
                forall|j: int|
                    0 <= j < i ==> !((#[trigger] self.nodes@[j]).id() == id
                        && self.nodes@[j].lifecycle is Running),
            decreases self.nodes.len() - i,
        {
            if self.nodes[i].get_id() == id && self.nodes[i].is_running() {
                return true;
            }
            i += 1;
        }
        false
    }

    /// Issues `quit` to the node `id`: afterwards the registry no
    /// longer reports it as running.
    pub fn quit_node(&mut self, id: u64)
        requires
            old(self).wf(),
        ensures
            final(self).wf(),
            !spec_running(final(self).nodes@, id),
            final(self).nodes@.len() == old(self).nodes@.len(),
            forall|i: int|
                0 <= i < old(self).nodes@.len() && (#[trigger] old(self).nodes@[i]).id() != id
                    ==> final(self).nodes@[i] == old(self).nodes@[i],
            forall|i: int|
                0 <= i < old(self).nodes@.len() && (#[trigger] old(self).nodes@[i]).id() == id
                    ==> final(self).nodes@[i].lifecycle is Stopped && final(self).nodes@[i].storage@ == old(self).nodes@[i].storage@ && final(self).nodes@[i].peers@ == old(self).nodes@[i].peers@ && final(self).nodes@[i].fsm.state() == old(self).nodes@[i].fsm.state(),
            final(self).inflight@ == old(self).inflight@,
            final(self).completions@ == old(self).completions@,
    {
        let n = self.nodes.len();
        let mut done: Vec<RaftNode<FSM>> = Vec::new();
        let mut k: usize = 0;
        while k < n
            invariant
                old(self).wf(),
                n == old(self).nodes@.len(),
                self.nodes@ == old(self).nodes@.skip(k as int),
                self.inflight@ == old(self).inflight@,
                self.completions@ == old(self).completions@,
                0 <= k <= n,
                done@.len() == k,
                forall|j: int|
                    0 <= j < k ==> (#[trigger] done@[j]).wf() && !(done@[j].id() == id
                        && done@[j].lifecycle is Running),
                forall|j: int|
                    0 <= j < k && (#[trigger] old(self).nodes@[j]).id() != id ==> done@[j] == old(self).nodes@[j],
                forall|j: int|
                    0 <= j < k && (#[trigger] old(self).nodes@[j]).id() == id ==> done@[j].lifecycle is Stopped
                        && done@[j].storage@ == old(self).nodes@[j].storage@ && done@[j].peers@
                        == old(self).nodes@[j].peers@ && done@[j].fsm.state() == old(self).nodes@[j].fsm.state(),
            decreases n - k,
        {
            let mut node = self.nodes.remove(0);
            proof {
                assert(node == old(self).nodes@[k as int]);
                assert(old(self).nodes@[k as int].wf());
                assert(self.nodes@ =~= old(self).nodes@.skip(k + 1));
            }
            if node.get_id() == id {
                node.quit();
            }
            done.push(node);
            k += 1;
        }
        self.nodes = done;
        proof {
            assert(!spec_running(self.nodes@, id)) by {
                if spec_running(self.nodes@, id) {
                    let w = choose|w: int|
                        0 <= w < self.nodes@.len() && self.nodes@[w].id() == id
                            && self.nodes@[w].lifecycle is Running;
                    assert(!(self.nodes@[w].id() == id && self.nodes@[w].lifecycle is Running));
                }
            }
        }
    }

    /// Ticks every node once and queues whatever they send. A stopped
    /// node is left exactly as it is; a fully stopped cluster sends
    /// nothing.
    pub fn tick_all(&mut self)
        requires
            old(self).wf(),
        ensures
            final(self).wf(),
            quiet_preserved(old(self).nodes@, final(self).nodes@),
            final(self).completions@ == old(self).completions@,
            all_stopped(old(self).nodes@) ==> final(self).inflight@ == old(self).inflight@,
            forall|i: int|
                0 <= i < old(self).nodes@.len() && (#[trigger] old(self).nodes@[i]).lifecycle is Running ==> ({
                    let pre = old(self).nodes@[i];
                    let post = final(self).nodes@[i];
                    &&& post.lifecycle == pre.lifecycle
                    &&& post.storage@.entries == pre.storage@.entries
                    &&& post.commit() == pre.commit()
                    &&& post.applied == pre.applied
                    &&& post.peers@ == pre.peers@
                    &&& post.fsm.state() == pre.fsm.state()
                    &&& post.term() >= pre.term()
                    &&& (pre.role is Leader ==> post.role is Leader && post.term() == pre.term())
                    &&& (!(pre.role is Leader) && pre.election_elapsed < u64::MAX
                        && pre.election_elapsed + 1 < crate::node::spec_election_timeout(
                        pre.config.raft_config,
                    ) ==> post.election_elapsed == pre.election_elapsed + 1 && post.role
                        == pre.role && post.term() == pre.term())
                    &&& (!(pre.role is Leader) && pre.election_elapsed < u64::MAX
                        && pre.election_elapsed + 1 >= crate::node::spec_election_timeout(
                        pre.config.raft_config,
                    ) && pre.term() < u64::MAX ==> post.term() == pre.term() + 1)
                }),
    {
        let n = self.nodes.len();
        let mut done: Vec<RaftNode<FSM>> = Vec::new();
        let mut k: usize = 0;
        while k < n
            invariant
                old(self).wf(),
                n == old(self).nodes@.len(),
                self.nodes@ == old(self).nodes@.skip(k as int),
                self.completions@ == old(self).completions@,
                0 <= k <= n,
                done@.len() == k,
                forall|j: int|
                    0 <= j < k ==> (#[trigger] done@[j]).wf() && done@[j].config.raft_config
                        == old(self).nodes@[j].config.raft_config,
                forall|j: int|
                    0 <= j < k && !((#[trigger] old(self).nodes@[j]).lifecycle is Running)
                        ==> RaftNode::same_state(&done@[j], &old(self).nodes@[j]),
                forall|j: int|
                    0 <= j < k && (#[trigger] old(self).nodes@[j]).lifecycle is Running ==> ({
                        let pre = old(self).nodes@[j];
                        let post = done@[j];
                        &&& post.lifecycle == pre.lifecycle
                        &&& post.storage@.entries == pre.storage@.entries
                        &&& post.commit() == pre.commit()
                        &&& post.applied == pre.applied
                        &&& post.peers@ == pre.peers@
                        &&& post.fsm.state() == pre.fsm.state()
                        &&& post.term() >= pre.term()
                        &&& (pre.role is Leader ==> post.role is Leader && post.term()
                            == pre.term())
                        &&& (!(pre.role is Leader) && pre.election_elapsed < u64::MAX
                            && pre.election_elapsed + 1 < crate::node::spec_election_timeout(
                            pre.config.raft_config,
                        ) ==> post.election_elapsed == pre.election_elapsed + 1 && post.role
                            == pre.role && post.term() == pre.term())
                        &&& (!(pre.role is Leader) && pre.election_elapsed < u64::MAX
                            && pre.election_elapsed + 1 >= crate::node::spec_election_timeout(
                            pre.config.raft_config,
                        ) && pre.term() < u64::MAX ==> post.term() == pre.term() + 1)
                    }),
                all_stopped(old(self).nodes@) ==> self.inflight@ == old(self).inflight@,
            decreases n - k,
        {
            let mut node = self.nodes.remove(0);
            proof {
                assert(node == old(self).nodes@[k as int]);
                assert(old(self).nodes@[k as int].wf());
                assert(self.nodes@ =~= old(self).nodes@.skip(k + 1));
            }
            let ghost pre_inflight = self.inflight@;
            let out = node.tick();
            let mut msgs = out.msgs;
            self.inflight.append(&mut msgs);
            proof {
                if all_stopped(old(self).nodes@) {
                    assert(!(old(self).nodes@[k as int].lifecycle is Running));
                    assert(self.inflight@ =~= pre_inflight);
                }
            }
            done.push(node);
            k += 1;
        }
        self.nodes = done;
    }

    /// Delivers every queued message to its addressee and queues
    /// whatever the steps send in turn. A stopped node processes
    /// nothing; a fully stopped cluster ends with an empty queue and
    /// no new completions.
    pub fn deliver_all(&mut self)
        requires
            old(self).wf(),
        ensures
            final(self).wf(),
            quiet_preserved(old(self).nodes@, final(self).nodes@),
            all_stopped(old(self).nodes@) ==> final(self).inflight@.len() == 0 && final(self).completions@ == old(self).completions@,
    {
        let n_msgs = self.inflight.len();
        let mut k: usize = 0;
        while k < n_msgs
            invariant
                old(self).wf(),
                0 <= k <= n_msgs,
                self.nodes@.len() == old(self).nodes@.len(),
                forall|i: int| 0 <= i < self.nodes@.len() ==> (#[trigger] self.nodes@[i]).wf(),
                forall|i: int|
                    0 <= i < self.nodes@.len() ==> (#[trigger] self.nodes@[i]).config.raft_config
                        == old(self).nodes@[i].config.raft_config,
                forall|i: int|
                    0 <= i < self.nodes@.len() && !((#[trigger] old(self).nodes@[i]).lifecycle is Running) ==> RaftNode::same_state(
                        &self.nodes@[i],
                        &old(self).nodes@[i],
                    ),
                self.inflight@.len() >= n_msgs - k,
                all_stopped(old(self).nodes@) ==> self.inflight@.len() == n_msgs - k
                    && self.completions@ == old(self).completions@,
            decreases n_msgs - k,
        {
            let msg = self.inflight.remove(0);
            self.deliver_one(msg);
            k += 1;
        }
    }

    /// Routes one message to the node it addresses and steps it.
    fn deliver_one(&mut self, msg: RaftMessage)
        requires
            forall|i: int| 0 <= i < old(self).nodes@.len() ==> (#[trigger] old(self).nodes@[i]).wf(),
        ensures
            final(self).nodes@.len() == old(self).nodes@.len(),
            final(self).inflight@.len() >= old(self).inflight@.len(),
            forall|i: int|
                0 <= i < old(self).nodes@.len() && (#[trigger] old(self).nodes@[i]).id()
                    != msg@.to ==> final(self).nodes@[i] == old(self).nodes@[i],
            forall|i: int|
                0 <= i < old(self).nodes@.len() && (#[trigger] old(self).nodes@[i]).id()
                    == msg@.to && (forall|j: int|
                    0 <= j < i ==> (#[trigger] old(self).nodes@[j]).id() != msg@.to) && old(self).nodes@[i].lifecycle is Running ==> final(self).nodes@[i].term() >= msg@.term
                    && final(self).nodes@[i].commit() >= old(self).nodes@[i].commit(),
            forall|i: int| 0 <= i < final(self).nodes@.len() ==> (#[trigger] final(self).nodes@[i]).wf(),
            forall|i: int|
                0 <= i < final(self).nodes@.len() ==> (#[trigger] final(self).nodes@[i]).config.raft_config == old(self).nodes@[i].config.raft_config,
            forall|i: int|
                0 <= i < final(self).nodes@.len() && !((#[trigger] old(self).nodes@[i]).lifecycle is Running) ==> RaftNode::same_state(
                    &final(self).nodes@[i],
                    &old(self).nodes@[i],
                ),
            all_stopped(old(self).nodes@) ==> final(self).inflight@ == old(self).inflight@ && final(self).completions@ == old(self).completions@,
    {
        let mut j: usize = 0;
        let n = self.nodes.len();
        while j < n
            invariant
                self == old(self),
                n == self.nodes@.len(),
                0 <= j <= n,
                forall|i: int| 0 <= i < old(self).nodes@.len() ==> (#[trigger] old(self).nodes@[i]).wf(),
                forall|i: int|
                    0 <= i < j ==> (#[trigger] old(self).nodes@[i]).id() != msg@.to,
            decreases n - j,
        {
            if self.nodes[j].get_id() == msg.to {
                let ghost pre = self.nodes@;
                let mut node = self.nodes.remove(j);
                proof {
                    assert(node == pre[j as int]);
                    assert(pre[j as int].wf());
                }
                let out = node.step(msg);
                let mut msgs = out.msgs;
                let mut comps = out.completions;
                let ghost pre_inflight = self.inflight@;
                let ghost pre_completions = self.completions@;
                self.inflight.append(&mut msgs);
                self.completions.append(&mut comps);
                self.nodes.insert(j, node);
                proof {
                    assert(forall|i: int|
                        0 <= i < self.nodes@.len() ==> self.nodes@[i] == (if i == j {
                            node
                        } else {
                            pre[i]
                        }));
                    if all_stopped(old(self).nodes@) {
                        assert(!(pre[j as int].lifecycle is Running));
                        assert(self.inflight@ =~= pre_inflight);
                        assert(self.completions@ =~= pre_completions);
                    }
                }
                return ;
            }
            j += 1;
        }
    }

    /// Hands one in-process request to the node `id`: the first node
    /// carrying that id answers it; every other node is untouched.
    pub fn send_local(&mut self, id: u64, req: LocalRequestMsg) -> (r: Option<
        LocalResponseMsg<FSM>,
    >)
        requires
            old(self).wf(),
        ensures
            final(self).wf(),
            final(self).nodes@.len() == old(self).nodes@.len(),
            forall|i: int|
                0 <= i < old(self).nodes@.len() && (#[trigger] old(self).nodes@[i]).id() != id
                    ==> final(self).nodes@[i] == old(self).nodes@[i],
            forall|i: int|
                0 <= i < old(self).nodes@.len() && (#[trigger] old(self).nodes@[i]).id() == id
                    && (forall|j: int|
                    0 <= j < i ==> (#[trigger] old(self).nodes@[j]).id() != id) ==> ({
                    let pre = old(self).nodes@[i];
                    &&& (req is IsLeader ==> r == Some(
                        LocalResponseMsg::<FSM>::IsLeader { is_leader: pre.role is Leader },
                    ))
                    &&& (req is GetId ==> r == Some(LocalResponseMsg::<FSM>::GetId { id: pre.id() }))
                    &&& (req is GetLeaderId ==> r == Some(
                        LocalResponseMsg::<FSM>::GetLeaderId { leader_id: pre.leader_id },
                    ))
                    &&& (req is GetClusterSize ==> r == Some(
                        LocalResponseMsg::<FSM>::GetClusterSize {
                            size: pre.peers@.len() as usize,
                        },
                    ))
                    &&& (req is Quit ==> final(self).nodes@[i].lifecycle is Stopped && r == Some(
                        LocalResponseMsg::<FSM>::Quit {  },
                    ))
                }),
            (forall|i: int|
                0 <= i < old(self).nodes@.len() ==> (#[trigger] old(self).nodes@[i]).id() != id)
                ==> r is None && final(self).nodes@ == old(self).nodes@,
    {
        let mut j: usize = 0;
        let n = self.nodes.len();
        while j < n
            invariant
                self == old(self),
                self.wf(),
                n == self.nodes@.len(),
                0 <= j <= n,
                forall|i: int| 0 <= i < j ==> (#[trigger] old(self).nodes@[i]).id() != id,
            decreases n - j,
        {
            if self.nodes[j].get_id() == id {
                let ghost pre = self.nodes@;
                let mut node = self.nodes.remove(j);
                proof {
                    assert(node == pre[j as int]);
                    assert(pre[j as int].wf());
                }
                let (resp, out) = node.handle_local(req);
                proof {
                    assert(node.wf());
                }
                let mut msgs = out.msgs;
                let mut comps = out.completions;
                self.inflight.append(&mut msgs);
                self.completions.append(&mut comps);
                self.nodes.insert(j, node);
                proof {
                    assert(forall|i: int|
                        0 <= i < self.nodes@.len() ==> self.nodes@[i] == (if i == j {
                            node
                        } else {
                            pre[i]
                        }));
                }
                return resp;
            }
            j += 1;
        }
        None
    }

    /// Hands one network-originated request to the node `id`: the
    /// first node carrying that id answers it; every other node is
    /// untouched.
    pub fn send_server(&mut self, id: u64, req: ServerRequestMsg) -> (r: Option<ServerResponseMsg>)
        requires
            old(self).wf(),
        ensures
            final(self).wf(),
            final(self).nodes@.len() == old(self).nodes@.len(),
            forall|i: int|
                0 <= i < old(self).nodes@.len() && (#[trigger] old(self).nodes@[i]).id() != id
                    ==> final(self).nodes@[i] == old(self).nodes@[i],
            forall|i: int|
                0 <= i < old(self).nodes@.len() && (#[trigger] old(self).nodes@[i]).id() == id
                    && (forall|j: int|
                    0 <= j < i ==> (#[trigger] old(self).nodes@[j]).id() != id) ==> ({
                    let pre = old(self).nodes@[i];
                    &&& (req is MemberBootstrapReady ==> r == Some(
                        ServerResponseMsg::MemberBootstrapReady {
                            result: crate::response_message::ResponseResult::Success,
                        },
                    ))
                    &&& (req is ClusterBootstrapReady ==> r == Some(
                        ServerResponseMsg::ClusterBootstrapReady {
                            result: crate::response_message::ResponseResult::Success,
                        },
                    ))
                    &&& (req is RaftMessage ==> r == Some(
                        ServerResponseMsg::RaftMessage {
                            result: crate::response_message::ResponseResult::Success,
                        },
                    ))
                    &&& (!(pre.lifecycle is Running) && req is Propose ==> r == Some(
                        ServerResponseMsg::Propose {
                            result: crate::response_message::ResponseResult::Error(
                                crate::error::Error::NodeStopped,
                            ),
                        },
                    ))
                }),
            (forall|i: int|
                0 <= i < old(self).nodes@.len() ==> (#[trigger] old(self).nodes@[i]).id() != id)
                ==> r is None && final(self).nodes@ == old(self).nodes@,
    {
        let mut j: usize = 0;
        let n = self.nodes.len();
        while j < n
            invariant
                self == old(self),
                self.wf(),
                n == self.nodes@.len(),
                0 <= j <= n,
                forall|i: int| 0 <= i < j ==> (#[trigger] old(self).nodes@[i]).id() != id,
            decreases n - j,
        {
            if self.nodes[j].get_id() == id {
                let ghost pre = self.nodes@;
                let mut node = self.nodes.remove(j);
                proof {
                    assert(node == pre[j as int]);
                    assert(pre[j as int].wf());
                }
                let (resp, out) = node.handle_server(req);
                let mut msgs = out.msgs;
                let mut comps = out.completions;
                self.inflight.append(&mut msgs);
                self.completions.append(&mut comps);
                self.nodes.insert(j, node);
                proof {
                    assert(forall|i: int|
                        0 <= i < self.nodes@.len() ==> self.nodes@[i] == (if i == j {
                            node
                        } else {
                            pre[i]
                        }));
                }
                return resp;
            }
            j += 1;
        }
        None
    }

    /// Drains the responses completed so far, in completion order.
    pub fn take_completions(&mut self) -> (r: Vec<ResponseMessage<FSM>>)
        requires
            old(self).wf(),
        ensures
            final(self).wf(),
            final(self).completions@.len() == 0,
            r@ == old(self).completions@,
            final(self).nodes@ == old(self).nodes@,
            final(self).inflight@ == old(self).inflight@,
    {
        let mut r: Vec<ResponseMessage<FSM>> = Vec::new();
        while self.completions.len() > 0
            invariant
                old(self).wf(),
                self.nodes@ == old(self).nodes@,
                self.inflight@ == old(self).inflight@,
                r@ + self.completions@ == old(self).completions@,
            decreases self.completions.len(),
        {
            let c = self.completions.remove(0);
            r.push(c);
            proof {
                assert(r@ + self.completions@ =~= old(self).completions@);
            }
        }
        proof {
            assert(r@ =~= old(self).completions@);
        }
        r
    }
}

} // verus!
