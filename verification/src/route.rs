//! The iterative predecessor search.
//!
//! Mapping a key to its owning node may take several network hops, and
//! the library performs no I/O: the search is a state machine. The
//! caller starts it, performs each query it asks for (send a
//! `GetSuccessor` or `GetNearestPrecedingNodeToKey` request, parse the
//! reply), and hands the outcome back; the machine decides the next
//! query, the answer, or failure. The number of hops is bounded by the
//! ring exponent `m`.

use vstd::prelude::*;

use crate::errors::DhtError;
use crate::finger::{Endpoint, FingerTable};
use crate::ring::{arc_contains, arc_contains_exec};

verus! {

/// What the caller must do next.
pub enum RouteAction {
    /// Send `GetSuccessor` to this node and hand back the reply.
    AskSuccessor(Endpoint),
    /// Send `GetNearestPrecedingNodeToKey` for the search's key to
    /// this node and hand back the reply.
    AskNearestPreceding(Endpoint),
    /// The search is over: this node is the key's predecessor.
    FoundPredecessor(Endpoint),
    /// The search is over without an answer.
    Failed(DhtError),
}

/// What a query came back with.
pub enum RouteEvent {
    /// The peer answered with success and named a node.
    NodeReply(u32, Endpoint),
    /// The peer answered with a failure status, an unusable reply, or
    /// not at all.
    QueryFailed,
}

/// Where the search stands.
pub enum SearchPhase {
    /// Awaiting the successor of the nearest preceding finger.
    CheckFinger { finger_position: u32, finger_addr: Endpoint },
    /// Awaiting the nearest preceding node known to the current hop.
    AwaitNearest { hops_left: u32 },
    /// Awaiting the successor of the candidate the last hop named.
    CheckCandidate { candidate_position: u32, candidate_addr: Endpoint, hops_left: u32 },
    /// The search has ended.
    Complete,
}

/// An in-progress predecessor search.
pub struct PredecessorSearch {
    pub key_position: u32,
    pub phase: SearchPhase,
}

/// The key's predecessor has been found once the key lies on the arc
/// from the candidate to the candidate's successor, inclusive only of
/// the successor's end.
pub open spec fn predecessor_found(
    candidate_position: u32,
    successor_position: u32,
    key_position: u32,
) -> bool {
    arc_contains(candidate_position, successor_position, key_position, false, true)
}

impl FingerTable {
    /// Starts a predecessor search for `key`. When the key already
    /// belongs to this node's own successor the search ends at once;
    /// otherwise the nearest preceding finger is the first candidate
    /// and the caller must fetch its successor.
    pub fn begin_find_predecessor(&self, key: &Vec<u8>) -> (r: (PredecessorSearch, RouteAction))
        requires
            self.wf(),
            self.spec_m() >= 2,
        ensures
            r.0.key_position == self.spec_key_position(key@),
            ({
                let kp = self.spec_key_position(key@);
                if predecessor_found(
                    self.spec_self_position(),
                    self.spec_node_positions()[1],
                    kp,
                ) {
                    &&& r.0.phase is Complete
                    &&& r.1 matches RouteAction::FoundPredecessor(a) && a@
                        == self.spec_node_addrs()[0]
                } else if (exists|j: int|
                    0 <= j < self.spec_m() && self.finger_precedes_key(j, kp)) {
                    &&& r.0.phase matches SearchPhase::CheckFinger {
                        finger_position,
                        finger_addr,
                    } && exists|i: int|
                        {
                            &&& 0 <= i < self.spec_m()
                            &&& #[trigger] self.finger_precedes_key(i, kp)
                            &&& finger_position == self.spec_node_positions()[i]
                            &&& finger_addr@ == self.spec_node_addrs()[i]
                            &&& (r.1 matches RouteAction::AskSuccessor(a) && a@
                                == self.spec_node_addrs()[i])
                        }
                } else {
                    &&& r.0.phase is Complete
                    &&& r.1 matches RouteAction::Failed(e) && e == DhtError::NotFound
                }
            }),
    {
        let key_position = self.calculate_key_position(key);
        let self_position = self.get_position_of_this_node();
        let successor_position = self.get_successor_position_of_this_node();

        if arc_contains_exec(self_position, successor_position, key_position, false, true) {
            let addr = self.get_addr_of_this_node();
            return (
                PredecessorSearch { key_position, phase: SearchPhase::Complete },
                RouteAction::FoundPredecessor(addr),
            );
        }

        match self.find_nearest_preceding_finger_by_position(key_position) {
            Ok(i) => {
                let finger_position = self.get_node_position(i);
                let finger_addr = self.get_node_address(i);
                let action = RouteAction::AskSuccessor(self.get_node_address(i));
                (
                    PredecessorSearch {
                        key_position,
                        phase: SearchPhase::CheckFinger { finger_position, finger_addr },
                    },
                    action,
                )
            },
            Err(e) => {
                (
                    PredecessorSearch { key_position, phase: SearchPhase::Complete },
                    RouteAction::Failed(e),
                )
            },
        }
    }

    /// The highest finger lying strictly between this node and an
    /// already-computed key position.
    pub fn find_nearest_preceding_finger_by_position(&self, key_position: u32) -> (r: Result<
        usize,
        DhtError,
    >)
        requires
            self.wf(),
        ensures
            match r {
                Ok(i) => {
                    &&& i < self.spec_m()
                    &&& self.finger_precedes_key(i as int, key_position)
                    &&& forall|j: int|
                        i < j < self.spec_m() ==> !self.finger_precedes_key(j, key_position)
                },
                Err(e) => {
                    &&& e == DhtError::NotFound
                    &&& forall|j: int|
                        0 <= j < self.spec_m() ==> !self.finger_precedes_key(j, key_position)
                },
            },
    {
        let node_position: u32 = self.get_position_of_this_node();
        let mut i: usize = self.get_finger_table_size();
        while i > 0
            invariant
                self.wf(),
                i <= self.spec_m(),
                node_position == self.spec_self_position(),
                forall|j: int|
                    i <= j < self.spec_m() ==> !self.finger_precedes_key(j, key_position),
            decreases i,
        {
            i = i - 1;
            let finger_node_position: u32 = self.get_node_position(i);
            if arc_contains_exec(node_position, key_position, finger_node_position, false, false) {
                return Ok(i);
            }
        }
        Err(DhtError::NotFound)
    }
}

impl PredecessorSearch {
    /// Advances the search with the outcome of the query the last
    /// action asked for. Each failed query ends the search the way the
    /// failed stage does; each answered one either finds the
    /// predecessor, moves to the next hop, or gives up once the hop
    /// budget of `m` is spent.
    pub fn on_event(&mut self, table: &FingerTable, event: RouteEvent) -> (action: RouteAction)
        requires
            table.wf(),
            !(old(self).phase is Complete),
        ensures
            final(self).key_position == old(self).key_position,
            ({
                let kp = old(self).key_position;
                match old(self).phase {
                    SearchPhase::CheckFinger { finger_position, finger_addr } => {
                        match event {
                            RouteEvent::NodeReply(successor_position, _) => {
                                if predecessor_found(finger_position, successor_position, kp) {
                                    &&& final(self).phase is Complete
                                    &&& action matches RouteAction::FoundPredecessor(a) && a@
                                        == finger_addr@
                                } else {
                                    &&& final(self).phase matches SearchPhase::AwaitNearest {
                                        hops_left,
                                    } && hops_left == table.spec_m()
                                    &&& action matches RouteAction::AskNearestPreceding(a) && a@
                                        == finger_addr@
                                }
                            },
                            RouteEvent::QueryFailed => {
                                &&& final(self).phase is Complete
                                &&& action matches RouteAction::Failed(e) && e
                                    == DhtError::BadPeerReply
                            },
                        }
                    },
                    SearchPhase::AwaitNearest { hops_left } => {
                        match event {
                            RouteEvent::NodeReply(candidate_position, candidate_addr) => {
                                &&& final(self).phase
                                    matches SearchPhase::CheckCandidate {
                                    candidate_position: cp,
                                    candidate_addr: ca,
                                    hops_left: h,
                                } && cp == candidate_position && ca@ == candidate_addr@ && h
                                    == hops_left
                                &&& action matches RouteAction::AskSuccessor(a) && a@
                                    == candidate_addr@
                            },
                            RouteEvent::QueryFailed => {
                                &&& final(self).phase is Complete
                                &&& action matches RouteAction::Failed(e) && e
                                    == DhtError::NotFound
                            },
                        }
                    },
                    SearchPhase::CheckCandidate {
                        candidate_position,
                        candidate_addr,
                        hops_left,
                    } => {
                        match event {
                            RouteEvent::NodeReply(successor_position, _) => {
                                if predecessor_found(
                                    candidate_position,
                                    successor_position,
                                    kp,
                                ) {
                                    &&& final(self).phase is Complete
                                    &&& action matches RouteAction::FoundPredecessor(a) && a@
                                        == candidate_addr@
                                } else if hops_left > 1 {
                                    &&& final(self).phase matches SearchPhase::AwaitNearest {
                                        hops_left: h,
                                    } && h == hops_left - 1
                                    &&& action matches RouteAction::AskNearestPreceding(a) && a@
                                        == candidate_addr@
                                } else {
                                    &&& final(self).phase is Complete
                                    &&& action matches RouteAction::Failed(e) && e
                                        == DhtError::NotFound
                                }
                            },
                            RouteEvent::QueryFailed => {
                                &&& final(self).phase is Complete
                                &&& action matches RouteAction::Failed(e) && e
                                    == DhtError::NotFound
                            },
                        }
                    },
                    SearchPhase::Complete => false,
                }
            }),
    {
        let kp = self.key_position;
        let mut phase = SearchPhase::Complete;
        core::mem::swap(&mut phase, &mut self.phase);
        match phase {
            SearchPhase::CheckFinger { finger_position, finger_addr } => {
                match event {
                    RouteEvent::NodeReply(successor_position, _) => {
                        if arc_contains_exec(finger_position, successor_position, kp, false, true) {
                            self.phase = SearchPhase::Complete;
                            RouteAction::FoundPredecessor(finger_addr)
                        } else {
                            let hops = table.get_finger_table_size() as u32;
                            self.phase = SearchPhase::AwaitNearest { hops_left: hops };
                            RouteAction::AskNearestPreceding(finger_addr)
                        }
                    },
                    RouteEvent::QueryFailed => {
                        self.phase = SearchPhase::Complete;
                        RouteAction::Failed(DhtError::BadPeerReply)
                    },
                }
            },
            SearchPhase::AwaitNearest { hops_left } => {
                match event {
                    RouteEvent::NodeReply(candidate_position, candidate_addr) => {
                        let ask = candidate_addr.duplicate();
                        self.phase = SearchPhase::CheckCandidate {
                            candidate_position,
                            candidate_addr,
                            hops_left,
                        };
                        RouteAction::AskSuccessor(ask)
                    },
                    RouteEvent::QueryFailed => {
                        self.phase = SearchPhase::Complete;
                        RouteAction::Failed(DhtError::NotFound)
                    },
                }
            },
            SearchPhase::CheckCandidate { candidate_position, candidate_addr, hops_left } => {
                match event {
                    RouteEvent::NodeReply(successor_position, _) => {
                        if arc_contains_exec(
                            candidate_position,
                            successor_position,
                            kp,
                            false,
                            true,
                        ) {
                            self.phase = SearchPhase::Complete;
                            RouteAction::FoundPredecessor(candidate_addr)
                        } else if hops_left > 1 {
                            let ask = candidate_addr.duplicate();
                            self.phase = SearchPhase::AwaitNearest { hops_left: hops_left - 1 };
                            RouteAction::AskNearestPreceding(ask)
                        } else {
                            self.phase = SearchPhase::Complete;
                            RouteAction::Failed(DhtError::NotFound)
                        }
                    },
                    RouteEvent::QueryFailed => {
                        self.phase = SearchPhase::Complete;
                        RouteAction::Failed(DhtError::NotFound)
                    },
                }
            },
            SearchPhase::Complete => RouteAction::Failed(DhtError::NotFound),
        }
    }
}

/// Where the successor of a node is learned from.
pub enum SuccessorQuery {
    /// The target is this node itself: its successor is finger 1.
    Local(u32, Endpoint),
    /// The target is another node: send it `GetSuccessor`.
    AskRemote,
    /// The target is this node itself, but a lone finger table has no
    /// successor entry.
    NoEntry,
}

impl FingerTable {
    /// Decides whether a successor query for `target` can be answered
    /// from this table or must go over the wire.
    pub fn classify_successor_query(&self, target: &Endpoint) -> (r: SuccessorQuery)
        requires
            self.wf(),
        ensures
            if target@ == self.spec_node_addrs()[0] {
                if self.spec_m() >= 2 {
                    r matches SuccessorQuery::Local(p, a) && p == self.spec_node_positions()[1]
                        && a@ == self.spec_node_addrs()[1]
                } else {
                    r is NoEntry
                }
            } else {
                r is AskRemote
            },
    {
        let self_addr = self.get_addr_of_this_node();
        if target.same_as(&self_addr) {
            if self.get_finger_table_size() >= 2 {
                SuccessorQuery::Local(
                    self.get_successor_position_of_this_node(),
                    self.get_successor_addr_of_this_node(),
                )
            } else {
                SuccessorQuery::NoEntry
            }
        } else {
            SuccessorQuery::AskRemote
        }
    }
}

} // verus!
