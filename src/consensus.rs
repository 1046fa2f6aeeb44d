//! Replicated-log consensus engine (a Raft-family protocol).
//!
//! One `ConsensusEngine` is the whole state of one node: persistent state
//! (term, vote, log), volatile state (commit and apply cursors), role, the
//! peer registry and the election tally. Every handler is a single state
//! transition, so term, vote, role and log always change together. Timers,
//! transport and the apply collaborator live outside: the caller drives the
//! engine with events (timeouts, incoming requests, replies) and performs the
//! actions it hands back (requests to send, commands to apply).
use vstd::prelude::*;
use crate::text::{decimal, decimal_text, push_text};

verus! {

/// Base of the election timeout window, in milliseconds.
pub const ELECTION_TIMEOUT_BASE_MS: u64 = 150;

/// Width of the randomised jitter added to the election timeout base.
pub const ELECTION_TIMEOUT_JITTER_MS: u64 = 150;

#[derive(Debug, PartialEq, Eq, Structural, Copy, Clone)]
pub enum NodeState {
    Follower,
    Candidate,
    Leader,
}

/// One log entry; its index is its 1-based position in the log.
#[derive(Debug)]
pub struct LogEntry {
    pub term: u64,
    pub command: Vec<u8>,
    pub timestamp: u64,
}

/// What a log entry holds, as a mathematical value.
pub ghost struct EntryView {
    pub term: u64,
    pub command: Seq<u8>,
    pub timestamp: u64,
}

impl View for LogEntry {
    type V = EntryView;

    open spec fn view(&self) -> EntryView {
        EntryView { term: self.term, command: self.command@, timestamp: self.timestamp }
    }
}

impl LogEntry {
    pub fn new(term: u64, command: Vec<u8>, timestamp: u64) -> (r: LogEntry)
        ensures
            r@ == (EntryView { term, command: command@, timestamp }),
    {
        LogEntry { term, command, timestamp }
    }

    /// A copy of this entry.
    pub fn duplicate(&self) -> (r: LogEntry)
        ensures
            r@ == self@,
    {
        let mut command: Vec<u8> = Vec::with_capacity(self.command.len());
        let mut i: usize = 0;
        while i < self.command.len()
            invariant
                i <= self.command@.len(),
                command@ == self.command@.subrange(0, i as int),
            decreases self.command@.len() - i,
        {
            command.push(self.command[i]);
            i = i + 1;
        }
        assert(command@ == self.command@);
        LogEntry { term: self.term, command, timestamp: self.timestamp }
    }
}

/// The view of a sequence of log entries.
pub open spec fn entries_view(v: Seq<LogEntry>) -> Seq<EntryView> {
    v.map_values(|e: LogEntry| e@)
}

/// Replication cursor and liveness record of one peer.
pub struct PeerNode {
    id: String,
    address: String,
    last_heartbeat: u64,
    next_index: u64,
    match_index: u64,
}

pub ghost struct PeerView {
    pub id: Seq<char>,
    pub address: Seq<char>,
    pub last_heartbeat: u64,
    pub next_index: u64,
    pub match_index: u64,
}

impl View for PeerNode {
    type V = PeerView;

    closed spec fn view(&self) -> PeerView {
        PeerView {
            id: self.id@,
            address: self.address@,
            last_heartbeat: self.last_heartbeat,
            next_index: self.next_index,
            match_index: self.match_index,
        }
    }
}

pub open spec fn peers_view(v: Seq<PeerNode>) -> Seq<PeerView> {
    v.map_values(|p: PeerNode| p@)
}

/// The whole state of one node.
pub struct ConsensusEngine {
    node_id: String,
    current_term: u64,
    voted_for: Option<String>,
    leader_id: Option<String>,
    log: Vec<LogEntry>,
    commit_index: u64,
    last_applied: u64,
    state: NodeState,
    peers: Vec<PeerNode>,
    votes_received: Vec<String>,
    election_timeout_ms: u64,
    halted: bool,
}

pub ghost struct EngineView {
    pub id: Seq<char>,
    pub term: u64,
    pub voted_for: Option<Seq<char>>,
    pub leader: Option<Seq<char>>,
    pub log: Seq<EntryView>,
    pub commit: u64,
    pub applied: u64,
    pub role: NodeState,
    pub peers: Seq<PeerView>,
    pub votes: Seq<Seq<char>>,
    pub timeout_ms: u64,
    /// The node stopped taking part after its durable store failed.
    pub halted: bool,
}

pub open spec fn opt_string_view(o: Option<String>) -> Option<Seq<char>> {
    match o {
        Some(s) => Some(s@),
        None => None,
    }
}

impl View for ConsensusEngine {
    type V = EngineView;

    closed spec fn view(&self) -> EngineView {
        EngineView {
            id: self.node_id@,
            term: self.current_term,
            voted_for: opt_string_view(self.voted_for),
            leader: opt_string_view(self.leader_id),
            log: entries_view(self.log@),
            commit: self.commit_index,
            applied: self.last_applied,
            role: self.state,
            peers: peers_view(self.peers@),
            votes: self.votes_received@.map_values(|s: String| s@),
            timeout_ms: self.election_timeout_ms,
            halted: self.halted,
        }
    }
}

// ---------------------------------------------------------------------------
// The model: facts about an `EngineView`.
// ---------------------------------------------------------------------------

/// Index of the last log entry (0 for an empty log).
pub open spec fn last_index(log: Seq<EntryView>) -> nat {
    log.len()
}

/// Term of the last log entry (0 for an empty log).
pub open spec fn last_term(log: Seq<EntryView>) -> u64 {
    if log.len() == 0 { 0 } else { log.last().term }
}

/// Term of the entry at 1-based `index` (0 stands for the empty prefix).
pub open spec fn term_at(log: Seq<EntryView>, index: int) -> u64 {
    if index <= 0 || index > log.len() { 0 } else { log[index - 1].term }
}

/// A log ending in (`term`, `index`) is at least as up-to-date as `log`:
/// terms compare first, then lengths.
pub open spec fn up_to_date(term: u64, index: nat, log: Seq<EntryView>) -> bool {
    term > last_term(log) || (term == last_term(log) && index >= last_index(log))
}

/// The registry holds a peer with this id.
pub open spec fn has_peer(peers: Seq<PeerView>, id: Seq<char>) -> bool {
    exists|i: int| 0 <= i < peers.len() && peers[i].id == id
}

/// Number of nodes in the cluster: the peers and this node.
pub open spec fn cluster_size(s: EngineView) -> nat {
    s.peers.len() + 1
}

/// `count` nodes form a strict majority of the cluster.
pub open spec fn is_majority(count: nat, s: EngineView) -> bool {
    2 * count > cluster_size(s)
}

/// `a` is a prefix of `b`.
pub open spec fn is_prefix<A>(a: Seq<A>, b: Seq<A>) -> bool {
    a.len() <= b.len() && b.subrange(0, a.len() as int) =~= a
}

/// A Leader never truncates its own log: a step that starts as Leader and
/// stays in its term only grows the log. Only a higher term, which demotes
/// the node, can change what the log holds.
pub open spec fn leader_append_only(before: EngineView, after: EngineView) -> bool {
    before.role == NodeState::Leader && after.term == before.term ==> is_prefix(before.log, after.log)
}

/// The vote of a term is never changed: once cast in a term it stays until
/// the term advances.
pub open spec fn vote_kept(before: EngineView, after: EngineView) -> bool {
    &&& before.term <= after.term
    &&& (before.term == after.term && before.voted_for.is_some()) ==> after.voted_for
        == before.voted_for
}

/// Commit and apply cursors never move back.
pub open spec fn cursors_advance(before: EngineView, after: EngineView) -> bool {
    before.commit <= after.commit && before.applied <= after.applied
}

/// Safety facts that every step keeps.
pub open spec fn safe_step(before: EngineView, after: EngineView) -> bool {
    &&& leader_append_only(before, after)
    &&& vote_kept(before, after)
    &&& cursors_advance(before, after)
    &&& before.halted ==> after.halted
    &&& after.id == before.id
    &&& after.peers.len() == before.peers.len()
    &&& forall|i: int| 0 <= i < before.peers.len() ==> after.peers[i].id == before.peers[i].id
}

impl ConsensusEngine {
    /// Well-formedness: the invariants every handler keeps.
    pub closed spec fn wf(&self) -> bool {
        &&& self.inv()
        &&& self@.role == NodeState::Candidate ==> !is_majority(self@.votes.len(), self@)
    }

    /// The invariants but the one that a Candidate whose tally just reached a
    /// majority breaks until it is promoted.
    closed spec fn inv(&self) -> bool {
        let s = self@;
        &&& s.applied <= s.commit
        &&& s.commit <= s.log.len()
        &&& self.log@.len() < u64::MAX
        &&& forall|i: int, j: int|
            0 <= i < j < s.peers.len() ==> s.peers[i].id != s.peers[j].id
        &&& forall|i: int| 0 <= i < s.peers.len() ==> s.peers[i].id != s.id
        &&& forall|i: int| 0 <= i < s.peers.len() ==> {
            &&& 1 <= s.peers[i].next_index
            &&& s.role == NodeState::Leader ==> s.peers[i].next_index <= s.log.len() + 1
            &&& s.peers[i].match_index < s.peers[i].next_index
        }
        &&& forall|i: int, j: int| 0 <= i < j < s.votes.len() ==> s.votes[i] != s.votes[j]
        &&& forall|i: int| 0 <= i < s.votes.len() ==> (s.votes[i] == s.id || has_peer(s.peers, s.votes[i]))
        &&& s.role != NodeState::Follower ==> s.voted_for == Some(s.id)
        &&& s.role == NodeState::Leader ==> is_majority(s.votes.len(), s)
        &&& s.role == NodeState::Follower ==> s.votes.len() == 0
        &&& ELECTION_TIMEOUT_BASE_MS <= s.timeout_ms < ELECTION_TIMEOUT_BASE_MS + ELECTION_TIMEOUT_JITTER_MS
        &&& s.halted ==> s.role == NodeState::Follower
    }
}


/// Relies on `rand::random::<u64>`: a uniformly drawn number, of which
/// nothing is promised here.
#[verifier::external_body]
fn random_draw() -> (r: u64) {
    rand::random::<u64>()
}

/// The election timeout that a random `draw` selects: the base plus a jitter
/// below the window's width.
pub fn election_timeout_for(draw: u64) -> (r: u64)
    ensures
        r == ELECTION_TIMEOUT_BASE_MS + draw % ELECTION_TIMEOUT_JITTER_MS,
        ELECTION_TIMEOUT_BASE_MS <= r < ELECTION_TIMEOUT_BASE_MS + ELECTION_TIMEOUT_JITTER_MS,
{
    ELECTION_TIMEOUT_BASE_MS + draw % ELECTION_TIMEOUT_JITTER_MS
}

/// Reply to a `RequestVote`.
#[derive(Debug, PartialEq, Eq, Structural, Copy, Clone)]
pub struct VoteReply {
    pub term: u64,
    pub vote_granted: bool,
}

/// The registry that `new` builds from `(id, address)` pairs: every listed id
/// but the node's own, once, with the address of its last listing.
pub open spec fn registry_from(own: Seq<char>, list: Seq<(Seq<char>, Seq<char>)>, peers: Seq<PeerView>) -> bool {
    &&& forall|i: int| 0 <= i < list.len() && list[i].0 != own ==> has_peer(peers, list[i].0)
    &&& forall|k: int| 0 <= k < peers.len() ==> has_listing(list, #[trigger] peers[k])
}

/// `list` holds `p` as the last listing of its id.
pub open spec fn has_listing(list: Seq<(Seq<char>, Seq<char>)>, p: PeerView) -> bool {
    exists|i: int| listed_last(list, i, p)
}

/// Entry `i` of `list` is the last listing of `p`'s id, and gives `p`'s address.
pub open spec fn listed_last(list: Seq<(Seq<char>, Seq<char>)>, i: int, p: PeerView) -> bool {
    &&& 0 <= i < list.len()
    &&& list[i].0 == p.id
    &&& list[i].1 == p.address
    &&& forall|j: int| i < j < list.len() ==> list[j].0 != p.id
}

/// Vote decision on a `RequestVote` seen from state `s`, once the request's
/// term has been adopted: no other vote cast in the term, and the
/// candidate's log at least as up-to-date as the local one.
pub open spec fn grants_vote(s: EngineView, cand: Seq<char>, last_idx: u64, last_term: u64) -> bool {
    (s.voted_for is None || s.voted_for == Some(cand)) && up_to_date(last_term, last_idx as nat, s.log)
}

/// `s` after it has seen `term`: unchanged unless `term` is higher, then a
/// Follower of `term` with no vote, no known leader and no tally.
pub open spec fn after_term(s: EngineView, term: u64) -> EngineView {
    if term > s.term {
        EngineView { term, role: NodeState::Follower, voted_for: None, leader: None, votes: seq![], ..s }
    } else {
        s
    }
}

impl ConsensusEngine {
    /// A Follower of term 0 with an empty log, no vote cast, and the given
    /// peers; its election timeout is drawn at random.
    pub fn new(node_id: String, peers_list: Vec<(String, String)>) -> (r: ConsensusEngine)
        ensures
            r.wf(),
            r@.id == node_id@,
            r@.term == 0,
            r@.voted_for is None,
            r@.leader is None,
            r@.log.len() == 0,
            r@.commit == 0,
            r@.applied == 0,
            r@.role == NodeState::Follower,
            r@.votes.len() == 0,
            !r@.halted,
            ELECTION_TIMEOUT_BASE_MS <= r@.timeout_ms < ELECTION_TIMEOUT_BASE_MS + ELECTION_TIMEOUT_JITTER_MS,
            registry_from(node_id@, peers_list@.map_values(|p: (String, String)| (p.0@, p.1@)), r@.peers),
            forall|k: int| 0 <= k < r@.peers.len() ==> r@.peers[k].next_index == 1 && r@.peers[k].match_index == 0,
    {
        let ghost list = peers_list@.map_values(|p: (String, String)| (p.0@, p.1@));
        let mut peers: Vec<PeerNode> = Vec::new();
        let mut i: usize = 0;
        while i < peers_list.len()
            invariant
                i <= peers_list@.len(),
                list == peers_list@.map_values(|p: (String, String)| (p.0@, p.1@)),
                forall|a: int, b: int| 0 <= a < b < peers@.len() ==> peers@[a]@.id != peers@[b]@.id,
                forall|k: int| 0 <= k < peers@.len() ==> peers@[k]@.id != node_id@,
                forall|k: int| 0 <= k < peers@.len() ==> peers@[k]@.next_index == 1 && peers@[k]@.match_index == 0,
                registry_from(node_id@, list.subrange(0, i as int), peers_view(peers@)),
            decreases peers_list@.len() - i,
        {
            let pid = &peers_list[i].0;
            let addr = &peers_list[i].1;
            assert(list[i as int] == (pid@, addr@));
            if *pid != node_id {
                let mut found: Option<usize> = None;
                let mut k: usize = 0;
                while k < peers.len()
                    invariant
                        k <= peers@.len(),
                        found is None ==> forall|m: int| 0 <= m < k ==> peers@[m]@.id != pid@,
                        found matches Some(f) ==> f < peers@.len() && peers@[f as int]@.id == pid@,
                    decreases peers@.len() - k,
                {
                    if found.is_none() && peers[k].id == *pid {
                        found = Some(k);
                    }
                    k = k + 1;
                }
                let ghost old_peers = peers@;
                match found {
                    Some(f) => {
                        peers[f].address = addr.clone();
                    },
                    None => {
                        peers.push(PeerNode {
                            id: pid.clone(),
                            address: addr.clone(),
                            last_heartbeat: 0,
                            next_index: 1,
                            match_index: 0,
                        });
                    },
                }
                proof {
                    let sub = list.subrange(0, i as int + 1);
                    let pv = peers_view(peers@);
                    assert(sub.subrange(0, i as int) == list.subrange(0, i as int));
                    assert(sub[i as int] == (pid@, addr@));
                    assert forall|w: int| 0 <= w < old_peers.len() implies #[trigger] pv[w].id == peers_view(old_peers)[w].id by {}
                    assert forall|a: int| 0 <= a < sub.len() && sub[a].0 != node_id@ implies has_peer(pv, sub[a].0) by {
                        if a < i {
                            assert(list.subrange(0, i as int)[a] == sub[a]);
                            let w = choose|w: int| 0 <= w < peers_view(old_peers).len() && peers_view(old_peers)[w].id == sub[a].0;
                            assert(pv[w].id == sub[a].0);
                        } else {
                            match found {
                                Some(f) => { assert(pv[f as int].id == sub[a].0); },
                                None => { assert(pv[pv.len() - 1].id == sub[a].0); },
                            }
                        }
                    }
                    assert forall|q: int| 0 <= q < pv.len() implies has_listing(sub, #[trigger] pv[q]) by {
                        if pv[q].id == pid@ {
                            assert(listed_last(sub, i as int, pv[q]));
                        } else {
                            let ov = peers_view(old_peers);
                            assert(ov[q] == pv[q]);
                            let w = choose|w: int| listed_last(list.subrange(0, i as int), w, ov[q]);
                            assert(sub[w] == list.subrange(0, i as int)[w]);
                            assert(listed_last(sub, w, pv[q]));
                        }
                    }
                    assert(registry_from(node_id@, sub, pv));
                }
            } else {
                proof {
                    let sub = list.subrange(0, i as int + 1);
                    let pv = peers_view(peers@);
                    assert(sub[i as int] == (pid@, addr@));
                    assert forall|a: int| 0 <= a < sub.len() && sub[a].0 != node_id@ implies has_peer(pv, sub[a].0) by {
                        assert(list.subrange(0, i as int)[a] == sub[a]);
                    }
                    assert forall|q: int| 0 <= q < pv.len() implies has_listing(sub, #[trigger] pv[q]) by {
                        let w = choose|w: int| listed_last(list.subrange(0, i as int), w, pv[q]);
                        assert(sub[w] == list.subrange(0, i as int)[w]);
                        assert(listed_last(sub, w, pv[q]));
                    }
                    assert(registry_from(node_id@, sub, pv));
                }
            }
            i = i + 1;
        }
        assert(list.subrange(0, peers_list@.len() as int) == list);
        let timeout = election_timeout_for(random_draw());
        ConsensusEngine {
            node_id,
            current_term: 0,
            voted_for: None,
            leader_id: None,
            log: Vec::new(),
            commit_index: 0,
            last_applied: 0,
            state: NodeState::Follower,
            peers,
            votes_received: Vec::new(),
            election_timeout_ms: timeout,
            halted: false,
        }
    }
}


/// A `RequestVote` to send to every peer.
pub struct VoteRequest {
    pub term: u64,
    pub candidate_id: String,
    pub last_log_index: u64,
    pub last_log_term: u64,
}

/// The state after a `RequestVote` of a term no lower than the local one.
pub open spec fn after_vote(s: EngineView, term: u64, cand: Seq<char>, last_idx: u64, last_term: u64) -> EngineView {
    let mid = after_term(s, term);
    if grants_vote(mid, cand, last_idx, last_term) {
        EngineView { voted_for: Some(cand), ..mid }
    } else {
        mid
    }
}

/// `after` is `before` promoted to Leader: peers' cursors reset to just past
/// the end of the log.
pub open spec fn promoted(before: EngineView, after: EngineView) -> bool {
    &&& after.role == NodeState::Leader
    &&& after.leader == Some(before.id)
    &&& after.peers.len() == before.peers.len()
    &&& forall|k: int| 0 <= k < after.peers.len() ==> {
        &&& (#[trigger] after.peers[k]).id == before.peers[k].id
        &&& after.peers[k].address == before.peers[k].address
        &&& after.peers[k].last_heartbeat == before.peers[k].last_heartbeat
        &&& after.peers[k].next_index == before.log.len() + 1
        &&& after.peers[k].match_index == 0
    }
    &&& after == EngineView { role: after.role, leader: after.leader, peers: after.peers, ..before }
}

impl ConsensusEngine {
    /// Term of the last log entry, 0 when the log is empty.
    fn last_log_term(&self) -> (r: u64)
        ensures
            r == last_term(self@.log),
    {
        if self.log.len() == 0 {
            0
        } else {
            self.log[self.log.len() - 1].term
        }
    }

    /// Sees `term`: a higher one is adopted, and the node reverts to Follower
    /// with no vote, no known leader and no tally.
    fn adopt_term(&mut self, term: u64)
        requires
            old(self).wf(),
        ensures
            final(self).wf(),
            final(self)@ == after_term(old(self)@, term),
    {
        if term > self.current_term {
            self.current_term = term;
            self.state = NodeState::Follower;
            self.voted_for = None;
            self.leader_id = None;
            self.votes_received.clear();
            assert(self@.votes =~= Seq::<Seq<char>>::empty());
            assert(self@ =~= after_term(old(self)@, term));
        }
    }

    /// Becomes Leader: every peer's next index is set just past the end of the
    /// log and its match index to 0.
    fn become_leader(&mut self)
        requires
            old(self).inv(),
            old(self)@.role == NodeState::Candidate,
            is_majority(old(self)@.votes.len(), old(self)@),
        ensures
            final(self).wf(),
            promoted(old(self)@, final(self)@),
    {
        let n = self.log.len() as u64 + 1;
        let mut k: usize = 0;
        while k < self.peers.len()
            invariant
                k <= self.peers@.len(),
                n == old(self)@.log.len() + 1,
                self.peers@.len() == old(self).peers@.len(),
                self@ == (EngineView { peers: self@.peers, ..old(self)@ }),
                forall|m: int| 0 <= m < self.peers@.len() ==> {
                    &&& (#[trigger] self.peers@[m]).id@ == old(self).peers@[m].id@
                    &&& self.peers@[m].address@ == old(self).peers@[m].address@
                    &&& self.peers@[m].last_heartbeat == old(self).peers@[m].last_heartbeat
                    &&& m < k ==> self.peers@[m].next_index == n && self.peers@[m].match_index == 0
                    &&& m >= k ==> self.peers@[m].next_index == old(self).peers@[m].next_index
                        && self.peers@[m].match_index == old(self).peers@[m].match_index
                },
            decreases self.peers@.len() - k,
        {
            self.peers[k].next_index = n;
            self.peers[k].match_index = 0;
            k = k + 1;
        }
        assert forall|m: int| 0 <= m < self@.peers.len() implies
            (#[trigger] self@.peers[m]).id == old(self)@.peers[m].id
            && self@.peers[m].address == old(self)@.peers[m].address
            && self@.peers[m].last_heartbeat == old(self)@.peers[m].last_heartbeat
            && self@.peers[m].next_index == n
            && self@.peers[m].match_index == 0 by {
            assert(self@.peers[m] == self.peers@[m]@);
            assert(old(self)@.peers[m] == old(self).peers@[m]@);
        }
        self.state = NodeState::Leader;
        self.leader_id = Some(self.node_id.clone());
        assert forall|i: int| 0 <= i < self@.votes.len() implies (self@.votes[i] == self@.id || has_peer(self@.peers, self@.votes[i])) by {
            if self@.votes[i] != self@.id {
                let w = choose|w: int| 0 <= w < old(self)@.peers.len() && old(self)@.peers[w].id == old(self)@.votes[i];
                assert(self@.peers[w].id == self@.votes[i]);
            }
        }
    }

    /// Handles a `RequestVote`. A request of a lower term is refused with the
    /// local term. A higher term is adopted first. The vote is granted iff no
    /// other candidate has it in this term and the candidate's log, compared
    /// by (last term, last index), is at least as up-to-date as the local
    /// one; a granted vote is recorded before the reply.
    pub fn request_vote(&mut self, term: u64, candidate_id: String, last_log_idx: u64, last_log_term: u64) -> (r: VoteReply)
        requires
            old(self).wf(),
        ensures
            final(self).wf(),
            safe_step(old(self)@, final(self)@),
            !old(self)@.halted ==> (term < old(self)@.term ==> final(self)@ == old(self)@ && r == (VoteReply { term: old(self)@.term, vote_granted: false })),
            !old(self)@.halted ==> (term >= old(self)@.term ==> final(self)@ == after_vote(old(self)@, term, candidate_id@, last_log_idx, last_log_term)
                && r.term == term
                && r.vote_granted == grants_vote(after_term(old(self)@, term), candidate_id@, last_log_idx, last_log_term)),
            old(self)@.halted ==> final(self)@ == old(self)@ && r == (VoteReply { term: old(self)@.term, vote_granted: false }),
    {
        if self.halted || term < self.current_term {
            return VoteReply { term: self.current_term, vote_granted: false };
        }
        self.adopt_term(term);
        let free = match &self.voted_for {
            None => true,
            Some(v) => *v == candidate_id,
        };
        let my_term = self.last_log_term();
        let my_index = self.log.len() as u64;
        let current = last_log_term > my_term || (last_log_term == my_term && last_log_idx >= my_index);
        if free && current {
            self.voted_for = Some(candidate_id);
            VoteReply { term, vote_granted: true }
        } else {
            VoteReply { term, vote_granted: false }
        }
    }
}


/// The state of a node that starts an election from `s`: next term,
/// Candidate, its own vote cast and counted, no known leader; the new
/// election timeout is `timeout_ms`.
pub open spec fn campaign(s: EngineView, timeout_ms: u64) -> EngineView {
    EngineView {
        term: (s.term + 1) as u64,
        role: NodeState::Candidate,
        voted_for: Some(s.id),
        leader: None,
        votes: seq![s.id],
        timeout_ms,
        ..s
    }
}

/// A granted vote from a peer in the current term reaches a Candidate.
pub open spec fn counts_vote(s: EngineView, from: Seq<char>, reply: VoteReply) -> bool {
    &&& s.role == NodeState::Candidate
    &&& reply.term == s.term
    &&& reply.vote_granted
    &&& has_peer(s.peers, from)
}

impl ConsensusEngine {
    /// The election timer fired. A Follower or Candidate starts an election:
    /// it moves to the next term as Candidate, votes for itself, draws a new
    /// timeout and returns the `RequestVote` for its peers; a node alone in
    /// its cluster is Leader at once. A Leader, or a node whose term cannot
    /// grow, ignores the timer.
    pub fn election_timeout(&mut self) -> (r: Option<VoteRequest>)
        requires
            old(self).wf(),
        ensures
            final(self).wf(),
            safe_step(old(self)@, final(self)@),
            !old(self)@.halted ==> ((old(self)@.role == NodeState::Leader || old(self)@.term == u64::MAX) ==> r is None
                && final(self)@ == old(self)@),
            !old(self)@.halted ==> (!(old(self)@.role == NodeState::Leader || old(self)@.term == u64::MAX) ==> {
                &&& r matches Some(req) && req.term == old(self)@.term + 1 && req.candidate_id@ == old(self)@.id
                    && req.last_log_index == old(self)@.log.len() && req.last_log_term == last_term(old(self)@.log)
                &&& old(self)@.peers.len() == 0 ==> promoted(campaign(old(self)@, final(self)@.timeout_ms), final(self)@)
                &&& old(self)@.peers.len() > 0 ==> final(self)@ == campaign(old(self)@, final(self)@.timeout_ms)
                &&& ELECTION_TIMEOUT_BASE_MS <= final(self)@.timeout_ms < ELECTION_TIMEOUT_BASE_MS + ELECTION_TIMEOUT_JITTER_MS
            }),
            old(self)@.halted ==> final(self)@ == old(self)@ && r is None,
    {
        if self.halted || self.state == NodeState::Leader || self.current_term == u64::MAX {
            return None;
        }
        self.current_term = self.current_term + 1;
        self.state = NodeState::Candidate;
        self.voted_for = Some(self.node_id.clone());
        self.leader_id = None;
        self.votes_received.clear();
        self.votes_received.push(self.node_id.clone());
        self.election_timeout_ms = election_timeout_for(random_draw());
        assert(self@.votes =~= seq![old(self)@.id]);
        assert(self@ =~= campaign(old(self)@, self@.timeout_ms));
        let req = VoteRequest {
            term: self.current_term,
            candidate_id: self.node_id.clone(),
            last_log_index: self.log.len() as u64,
            last_log_term: self.last_log_term(),
        };
        if self.peers.len() == 0 {
            self.become_leader();
        }
        Some(req)
    }

    /// Position of the peer with this id in the registry.
    fn find_peer(&self, id: &String) -> (r: Option<usize>)
        ensures
            r matches Some(k) ==> k < self@.peers.len() && self@.peers[k as int].id == id@,
            r is None ==> !has_peer(self@.peers, id@),
    {
        let mut k: usize = 0;
        while k < self.peers.len()
            invariant
                k <= self.peers@.len(),
                forall|m: int| 0 <= m < k ==> self@.peers[m].id != id@,
            decreases self.peers@.len() - k,
        {
            assert(self@.peers[k as int] == self.peers@[k as int]@);
            if self.peers[k].id == *id {
                return Some(k);
            }
            k = k + 1;
        }
        None
    }

    /// Handles the reply to a `RequestVote` sent to peer `from`. A higher
    /// term is adopted. A Candidate counts a granted vote of its own term
    /// once per peer, and becomes Leader when its tally is a strict majority
    /// of the cluster; the result says whether it did so now.
    pub fn handle_vote_reply(&mut self, from: &String, reply: VoteReply) -> (r: bool)
        requires
            old(self).wf(),
        ensures
            final(self).wf(),
            safe_step(old(self)@, final(self)@),
            !old(self)@.halted ==> (reply.term > old(self)@.term ==> final(self)@ == after_term(old(self)@, reply.term) && !r),
            !old(self)@.halted ==> (reply.term <= old(self)@.term && !counts_vote(old(self)@, from@, reply) ==> final(self)@ == old(self)@ && !r),
            !old(self)@.halted ==> (counts_vote(old(self)@, from@, reply) ==> {
                &&& final(self)@.votes.to_set() == old(self)@.votes.to_set().insert(from@)
                &&& r == is_majority(final(self)@.votes.len(), final(self)@)
                &&& r ==> promoted(EngineView { votes: final(self)@.votes, ..old(self)@ }, final(self)@)
                &&& !r ==> final(self)@ == EngineView { votes: final(self)@.votes, ..old(self)@ }
            }),
            old(self)@.halted ==> final(self)@ == old(self)@ && !r,
    {
        if self.halted {
            return false;
        }
        if reply.term > self.current_term {
            self.adopt_term(reply.term);
            return false;
        }
        if !(self.state == NodeState::Candidate && reply.term == self.current_term && reply.vote_granted) {
            return false;
        }
        match self.find_peer(from) {
            None => {
                return false;
            },
            Some(_) => {},
        }
        let mut k: usize = 0;
        let mut seen = false;
        while k < self.votes_received.len()
            invariant
                k <= self@.votes.len(),
                !seen ==> forall|m: int| 0 <= m < k ==> self@.votes[m] != from@,
                seen ==> self@.votes.contains(from@),
            decreases self@.votes.len() - k,
        {
            if self.votes_received[k] == *from {
                assert(self@.votes[k as int] == from@);
                seen = true;
            }
            k = k + 1;
        }
        if seen {
            assert(old(self)@.votes.to_set().insert(from@) =~= old(self)@.votes.to_set());
            return false;
        }
        self.votes_received.push(from.clone());
        assert(self@.votes =~= old(self)@.votes.push(from@));
        assert forall|a: Seq<char>| #[trigger] self@.votes.contains(a) == old(self)@.votes.to_set().insert(from@).contains(a) by {
            if old(self)@.votes.contains(a) {
                let w = choose|w: int| 0 <= w < old(self)@.votes.len() && old(self)@.votes[w] == a;
                assert(self@.votes[w] == a);
            }
            if a == from@ {
                assert(self@.votes[self@.votes.len() - 1] == a);
            }
        }
        assert(self@.votes.to_set() =~= old(self)@.votes.to_set().insert(from@));
        if 2 * (self.votes_received.len() as u128) > self.peers.len() as u128 + 1 {
            self.become_leader();
            true
        } else {
            false
        }
    }
}


/// Reply to an `AppendEntries`.
#[derive(Debug, PartialEq, Eq, Structural, Copy, Clone)]
pub struct AppendReply {
    pub term: u64,
    pub success: bool,
    /// On success the index of the last entry the request covered; on
    /// refusal the follower's last log index.
    pub match_hint: u64,
}

/// Position, counted in `entries` from `i` on, of the first entry that is not
/// already in `log` at its place after `prev` (an index past the log, or a
/// different term); `entries.len()` when there is none.
pub open spec fn conflict_from(log: Seq<EntryView>, prev: int, entries: Seq<EntryView>, i: int) -> int
    decreases entries.len() - i,
{
    if i >= entries.len() {
        entries.len() as int
    } else if prev + i >= log.len() || log[prev + i].term != entries[i].term {
        i
    } else {
        conflict_from(log, prev, entries, i + 1)
    }
}

pub open spec fn first_conflict(log: Seq<EntryView>, prev: int, entries: Seq<EntryView>) -> int {
    conflict_from(log, prev, entries, 0)
}

/// The log after accepting `entries` placed right after index `prev`: from
/// the first conflicting entry on, the local suffix is dropped and the rest
/// of `entries` appended; a log that already holds them all stays as it is.
pub open spec fn merge_log(log: Seq<EntryView>, prev: int, entries: Seq<EntryView>) -> Seq<EntryView> {
    let k = first_conflict(log, prev, entries);
    if k >= entries.len() {
        log
    } else {
        log.subrange(0, prev + k) + entries.subrange(k, entries.len() as int)
    }
}

/// The log holds an entry at `prev` with term `prev_term` (index 0 always
/// matches: it is the empty prefix).
pub open spec fn prefix_matches(log: Seq<EntryView>, prev: u64, prev_term: u64) -> bool {
    prev == 0 || (prev <= log.len() && log[prev - 1].term == prev_term)
}

/// Accepting `entries` after `prev` would drop an entry at or below the
/// commit index.
pub open spec fn cuts_committed(s: EngineView, prev: u64, entries: Seq<EntryView>) -> bool {
    let k = first_conflict(s.log, prev as int, entries);
    k < entries.len() && prev + k < s.commit
}

/// The state of a node that has heard from the leader `leader` of `term`
/// (no lower than its own): Follower of that term, with no tally.
pub open spec fn follows(s: EngineView, term: u64, leader: Seq<char>) -> EngineView {
    EngineView { role: NodeState::Follower, leader: Some(leader), votes: seq![], ..after_term(s, term) }
}

/// A Leader of `term` itself: it refuses every AppendEntries of its own term,
/// since a term has one leader and a Leader never truncates its own log.
pub open spec fn leads_term(s: EngineView, term: u64) -> bool {
    s.role == NodeState::Leader && s.term == term
}

/// Commit index of a follower after an accepted request.
pub open spec fn follower_commit(commit: u64, leader_commit: u64, last_new: int) -> int {
    let bound = if leader_commit < last_new { leader_commit as int } else { last_new };
    if bound > commit { bound } else { commit as int }
}

impl ConsensusEngine {
    /// Handles an `AppendEntries` from leader `leader_id`. A request of a
    /// lower term is refused with the local term. Otherwise the term is
    /// adopted, the node becomes its Follower, and the request is refused
    /// (with the local last index as hint) unless the log holds an entry at
    /// `prev_log_index` with term `prev_log_term`, or the merge would drop a
    /// committed entry. An accepted request merges `entries` into the log
    /// (`merge_log`) and advances the commit index to
    /// `min(leader_commit, prev_log_index + entries.len())` when that is
    /// higher.
    #[verifier::rlimit(50)]
    pub fn append_entries(
        &mut self,
        term: u64,
        leader_id: String,
        prev_log_index: u64,
        prev_log_term: u64,
        entries: Vec<LogEntry>,
        leader_commit: u64,
    ) -> (r: AppendReply)
        requires
            old(self).wf(),
            old(self)@.log.len() + entries@.len() < u64::MAX,
        ensures
            final(self).wf(),
            safe_step(old(self)@, final(self)@),
            !old(self)@.halted && !leads_term(old(self)@, term) ==> (term < old(self)@.term ==> final(self)@ == old(self)@
                && r == (AppendReply { term: old(self)@.term, success: false, match_hint: old(self)@.log.len() as u64 })),
            !old(self)@.halted && !leads_term(old(self)@, term) ==> (term >= old(self)@.term && !(prefix_matches(old(self)@.log, prev_log_index, prev_log_term)
                && !cuts_committed(old(self)@, prev_log_index, entries_view(entries@))) ==> final(self)@
                == follows(old(self)@, term, leader_id@)
                && r == (AppendReply { term, success: false, match_hint: old(self)@.log.len() as u64 })),
            !old(self)@.halted && !leads_term(old(self)@, term) ==> (term >= old(self)@.term && prefix_matches(old(self)@.log, prev_log_index, prev_log_term)
                && !cuts_committed(old(self)@, prev_log_index, entries_view(entries@)) ==> {
                &&& final(self)@ == (EngineView {
                    log: merge_log(old(self)@.log, prev_log_index as int, entries_view(entries@)),
                    commit: follower_commit(old(self)@.commit, leader_commit, prev_log_index + entries@.len()) as u64,
                    ..follows(old(self)@, term, leader_id@)
                })
                &&& r == (AppendReply { term, success: true, match_hint: (prev_log_index + entries@.len()) as u64 })
            }),
            old(self)@.halted || leads_term(old(self)@, term) ==> final(self)@ == old(self)@ && r == (AppendReply { term: old(self)@.term, success: false, match_hint: old(self)@.log.len() as u64 }),
    {
        if self.halted || term < self.current_term || (self.state == NodeState::Leader && term == self.current_term) {
            return AppendReply { term: self.current_term, success: false, match_hint: self.log.len() as u64 };
        }
        self.adopt_term(term);
        self.state = NodeState::Follower;
        self.leader_id = Some(leader_id);
        self.votes_received.clear();
        assert(self@.votes =~= Seq::<Seq<char>>::empty());
        assert(self@ =~= follows(old(self)@, term, leader_id@));
        let len = self.log.len() as u64;
        let matched = prev_log_index == 0 || (prev_log_index <= len
            && self.log[(prev_log_index - 1) as usize].term == prev_log_term);
        if !matched {
            return AppendReply { term, success: false, match_hint: len };
        }
        let ghost lv = self@.log;
        let ghost ev = entries_view(entries@);
        let p = prev_log_index as usize;
        let mut k: usize = 0;
        while k < entries.len() && k < self.log.len() - p && self.log[p + k].term == entries[k].term
            invariant
                k <= entries@.len(),
                p <= self.log@.len(),
                k <= self.log@.len() - p,
                self@.log == lv,
                ev == entries_view(entries@),
                first_conflict(lv, p as int, ev) == conflict_from(lv, p as int, ev, k as int),
            decreases entries@.len() - k,
        {
            assert(lv[p + k].term == self.log@[p + k].term);
            k = k + 1;
        }
        assert(first_conflict(lv, p as int, ev) == k);
        if k < entries.len() && ((p + k) as u64) < self.commit_index {
            return AppendReply { term, success: false, match_hint: len };
        }
        let count = entries.len() as u64;
        if k < entries.len() {
            let mut entries = entries;
            self.log.truncate(p + k);
            let mut rest = entries.split_off(k);
            self.log.append(&mut rest);
            assert(self@.log =~= lv.subrange(0, (p + k) as int) + ev.subrange(k as int, ev.len() as int));
        }
        let last_new = prev_log_index + count;
        let bound = if leader_commit < last_new { leader_commit } else { last_new };
        if bound > self.commit_index {
            self.commit_index = bound;
        }
        AppendReply { term, success: true, match_hint: last_new }
    }
}


/// An `AppendEntries` for one peer.
pub struct AppendRequest {
    pub peer_id: String,
    pub term: u64,
    pub leader_id: String,
    pub prev_log_index: u64,
    pub prev_log_term: u64,
    pub entries: Vec<LogEntry>,
    pub leader_commit: u64,
}

/// `req` is the `AppendEntries` that leader state `s` owes its `k`-th peer:
/// every entry from the peer's next index on, after the entry before it.
pub open spec fn request_for(s: EngineView, k: int, req: AppendRequest) -> bool {
    let next = s.peers[k].next_index;
    &&& req.peer_id@ == s.peers[k].id
    &&& req.term == s.term
    &&& req.leader_id@ == s.id
    &&& req.prev_log_index == next - 1
    &&& req.prev_log_term == term_at(s.log, next - 1)
    &&& entries_view(req.entries@) == s.log.subrange(next - 1, s.log.len() as int)
    &&& req.leader_commit == s.commit
}

/// Number of peers whose match index reaches `n`.
pub open spec fn replicas(peers: Seq<PeerView>, n: int) -> nat
    decreases peers.len(),
{
    if peers.len() == 0 {
        0
    } else {
        replicas(peers.drop_last(), n) + if peers.last().match_index >= n { 1nat } else { 0nat }
    }
}

/// Index `n` may be committed by Leader state `s`: the entry is of the
/// current term and a strict majority, the leader included, holds it.
pub open spec fn committable(s: EngineView, n: int) -> bool {
    &&& 1 <= n <= s.log.len()
    &&& s.log[n - 1].term == s.term
    &&& is_majority(replicas(s.peers, n) + 1, s)
}

/// Commit index `c` is what a Leader in state `s` computes: the highest
/// committable index above the current one, else the current one.
pub open spec fn leader_commit_of(s: EngineView, c: u64) -> bool {
    &&& s.commit <= c
    &&& c == s.commit || committable(s, c as int)
    &&& forall|n: int| c < n <= s.log.len() ==> !committable(s, n)
}

/// Peer `k` of leader state `s` after the reply to a request that covered
/// `count` entries after index `prev`: a success moves its match index up
/// to the last covered entry, a refusal moves its next index back (to just
/// past the hint when that is lower), never below its match index + 1.
pub open spec fn peer_after_reply(p: PeerView, prev: u64, count: u64, reply: AppendReply, log_len: nat, now: u64) -> PeerView {
    if reply.success {
        if prev + count <= log_len && prev + count > p.match_index {
            PeerView { match_index: (prev + count) as u64, next_index: (prev + count + 1) as u64, last_heartbeat: now, ..p }
        } else {
            PeerView { last_heartbeat: now, ..p }
        }
    } else {
        let back = if reply.match_hint < p.next_index - 1 { reply.match_hint + 1 } else { p.next_index - 1 };
        let next = if back > p.match_index + 1 { back } else { p.match_index + 1 };
        PeerView { next_index: next as u64, last_heartbeat: now, ..p }
    }
}

/// Leader state `s` after its `k`-th peer's reply: the peer's cursors as
/// `peer_after_reply` gives them, then the commit index recomputed.
pub open spec fn replied(s: EngineView, k: int, prev: u64, count: u64, reply: AppendReply, now: u64, after: EngineView) -> bool {
    let mid = EngineView {
        peers: s.peers.update(k, peer_after_reply(s.peers[k], prev, count, reply, s.log.len(), now)),
        ..s
    };
    &&& after == (EngineView { commit: after.commit, ..mid })
    &&& leader_commit_of(mid, after.commit)
}

/// Name of a role, as the status line shows it.
pub open spec fn role_text(r: NodeState) -> Seq<char> {
    match r {
        NodeState::Follower => "Follower"@,
        NodeState::Candidate => "Candidate"@,
        NodeState::Leader => "Leader"@,
    }
}

fn role_name(r: NodeState) -> (s: &'static str)
    ensures
        s@ == role_text(r),
{
    match r {
        NodeState::Follower => "Follower",
        NodeState::Candidate => "Candidate",
        NodeState::Leader => "Leader",
    }
}

impl ConsensusEngine {
    /// A client command reaches the node. A Leader appends it to its log in
    /// its term and returns its index; any other node, or a full log, refuses.
    pub fn submit(&mut self, command: Vec<u8>, timestamp: u64) -> (r: Option<u64>)
        requires
            old(self).wf(),
        ensures
            final(self).wf(),
            safe_step(old(self)@, final(self)@),
            !old(self)@.halted ==> ((old(self)@.role != NodeState::Leader || old(self)@.log.len() + 1 >= u64::MAX) ==> r is None
                && final(self)@ == old(self)@),
            !old(self)@.halted ==> ((old(self)@.role == NodeState::Leader && old(self)@.log.len() + 1 < u64::MAX) ==> {
                &&& r == Some((old(self)@.log.len() + 1) as u64)
                &&& final(self)@ == (EngineView {
                    log: old(self)@.log.push(EntryView { term: old(self)@.term, command: command@, timestamp }),
                    ..old(self)@
                })
            }),
            old(self)@.halted ==> final(self)@ == old(self)@ && r is None,
    {
        if self.halted || self.state != NodeState::Leader || self.log.len() as u64 + 1 >= u64::MAX {
            return None;
        }
        let entry = LogEntry::new(self.current_term, command, timestamp);
        self.log.push(entry);
        assert(self@.log =~= old(self)@.log.push(entry@));
        Some(self.log.len() as u64)
    }

    /// The `AppendEntries` a Leader sends on a heartbeat tick, one per peer in
    /// registry order; none from any other role.
    pub fn replicate_log(&self) -> (r: Vec<AppendRequest>)
        requires
            self.wf(),
        ensures
            self@.role != NodeState::Leader ==> r@.len() == 0,
            self@.role == NodeState::Leader ==> r@.len() == self@.peers.len()
                && forall|k: int| 0 <= k < r@.len() ==> request_for(self@, k, #[trigger] r@[k]),
    {
        let mut out: Vec<AppendRequest> = Vec::new();
        if self.state != NodeState::Leader {
            return out;
        }
        let mut k: usize = 0;
        while k < self.peers.len()
            invariant
                self.wf(),
                self@.role == NodeState::Leader,
                k <= self.peers@.len(),
                out@.len() == k,
                forall|m: int| 0 <= m < k ==> request_for(self@, m, #[trigger] out@[m]),
            decreases self.peers@.len() - k,
        {
            assert(self@.peers[k as int] == self.peers@[k as int]@);
            let next = self.peers[k].next_index;
            let start = (next - 1) as usize;
            let prev_term = if start == 0 { 0 } else { self.log[start - 1].term };
            let mut entries: Vec<LogEntry> = Vec::new();
            let mut i: usize = start;
            while i < self.log.len()
                invariant
                    start <= i <= self.log@.len(),
                    entries@.len() == i - start,
                    forall|j: int| 0 <= j < entries@.len() ==> (#[trigger] entries@[j])@ == self@.log[start + j],
                decreases self.log@.len() - i,
            {
                let e = self.log[i].duplicate();
                assert(e@ == self@.log[i as int]);
                entries.push(e);
                i = i + 1;
            }
            assert(entries_view(entries@) =~= self@.log.subrange(start as int, self@.log.len() as int));
            out.push(AppendRequest {
                peer_id: self.peers[k].id.clone(),
                term: self.current_term,
                leader_id: self.node_id.clone(),
                prev_log_index: next - 1,
                prev_log_term: prev_term,
                entries,
                leader_commit: self.commit_index,
            });
            assert(request_for(self@, k as int, out@[k as int]));
            k = k + 1;
        }
        out
    }

    /// Number of peers whose match index reaches `n`.
    fn count_replicas(&self, n: u64) -> (r: u64)
        ensures
            r == replicas(self@.peers, n as int),
    {
        let mut c: u64 = 0;
        let mut k: usize = 0;
        while k < self.peers.len()
            invariant
                k <= self.peers@.len(),
                c == replicas(self@.peers.subrange(0, k as int), n as int),
                c <= k,
            decreases self.peers@.len() - k,
        {
            assert(self@.peers.subrange(0, k + 1).drop_last() =~= self@.peers.subrange(0, k as int));
            assert(self@.peers[k as int] == self.peers@[k as int]@);
            if self.peers[k].match_index >= n {
                c = c + 1;
            }
            k = k + 1;
        }
        assert(self@.peers.subrange(0, self@.peers.len() as int) =~= self@.peers);
        c
    }

    /// A Leader moves its commit index to the highest index that a strict
    /// majority holds and whose entry is of the current term; entries of
    /// earlier terms are committed only under such an entry. Other roles do
    /// nothing.
    pub fn advance_commit_index(&mut self)
        requires
            old(self).wf(),
        ensures
            final(self).wf(),
            safe_step(old(self)@, final(self)@),
            final(self)@ == (EngineView { commit: final(self)@.commit, ..old(self)@ }),
            old(self)@.role != NodeState::Leader ==> final(self)@.commit == old(self)@.commit,
            old(self)@.role == NodeState::Leader ==> leader_commit_of(old(self)@, final(self)@.commit),
    {
        if self.state != NodeState::Leader {
            return;
        }
        let mut n: usize = self.log.len();
        while n as u64 > self.commit_index
            invariant
                self.wf(),
                self@ == old(self)@,
                self@.role == NodeState::Leader,
                self.commit_index <= n <= self@.log.len(),
                forall|m: int| n < m <= self@.log.len() ==> !committable(self@, m),
            decreases n,
        {
            assert(self@.log[n - 1].term == self.log@[n - 1].term);
            if self.log[n - 1].term == self.current_term {
                let c = self.count_replicas(n as u64);
                if 2 * (c as u128 + 1) > self.peers.len() as u128 + 1 {
                    self.commit_index = n as u64;
                    return;
                }
            }
            n = n - 1;
        }
    }

    /// Handles the reply of peer `peer_id` to an `AppendEntries` that carried
    /// `entry_count` entries after `prev_log_index`, received at `now_ms`. A
    /// higher term is adopted. A Leader of the reply's term updates that
    /// peer's cursors (`peer_after_reply`) and then its commit index.
    /// Anything else is ignored.
    pub fn handle_append_reply(&mut self, peer_id: &String, prev_log_index: u64, entry_count: u64, reply: AppendReply, now_ms: u64)
        requires
            old(self).wf(),
        ensures
            final(self).wf(),
            safe_step(old(self)@, final(self)@),
            !old(self)@.halted ==> (reply.term > old(self)@.term ==> final(self)@ == after_term(old(self)@, reply.term)),
            !old(self)@.halted ==> (reply.term <= old(self)@.term && !(old(self)@.role == NodeState::Leader && reply.term == old(self)@.term
                && has_peer(old(self)@.peers, peer_id@)) ==> final(self)@ == old(self)@),
            !old(self)@.halted ==> (old(self)@.role == NodeState::Leader && reply.term == old(self)@.term && has_peer(old(self)@.peers, peer_id@)
                ==> exists|k: int| 0 <= k < old(self)@.peers.len() && old(self)@.peers[k].id == peer_id@
                && #[trigger] replied(old(self)@, k, prev_log_index, entry_count, reply, now_ms, final(self)@)),
            old(self)@.halted ==> final(self)@ == old(self)@,
    {
        if self.halted {
            return;
        }
        if reply.term > self.current_term {
            self.adopt_term(reply.term);
            return;
        }
        if !(self.state == NodeState::Leader && reply.term == self.current_term) {
            return;
        }
        let k = match self.find_peer(peer_id) {
            None => { return; },
            Some(k) => k,
        };
        let ghost old_peer = self@.peers[k as int];
        let ghost target = peer_after_reply(old_peer, prev_log_index, entry_count, reply, self@.log.len(), now_ms);
        assert(old_peer == self.peers@[k as int]@);
        let len = self.log.len() as u64;
        self.peers[k].last_heartbeat = now_ms;
        if reply.success {
            if prev_log_index <= len && entry_count <= len - prev_log_index
                && prev_log_index + entry_count > self.peers[k].match_index {
                self.peers[k].match_index = prev_log_index + entry_count;
                self.peers[k].next_index = prev_log_index + entry_count + 1;
            }
        } else {
            let next = self.peers[k].next_index;
            let back = if reply.match_hint < next - 1 { reply.match_hint + 1 } else { next - 1 };
            let m = self.peers[k].match_index;
            self.peers[k].next_index = if back > m + 1 { back } else { m + 1 };
        }
        assert(self.peers@[k as int]@ == target);
        assert(self@.peers =~= old(self)@.peers.update(k as int, target));
        assert forall|i: int| 0 <= i < self@.votes.len() && self@.votes[i] != self@.id
            implies has_peer(self@.peers, self@.votes[i]) by {
            let w = choose|w: int| 0 <= w < old(self)@.peers.len() && old(self)@.peers[w].id == old(self)@.votes[i];
            assert(self@.peers[w].id == self@.votes[i]);
        }
        self.advance_commit_index();
        assert(replied(old(self)@, k as int, prev_log_index, entry_count, reply, now_ms, self@));
    }

    /// The next committed command to hand to the state machine, with its
    /// index: the entry just after the last applied one, if it is committed.
    pub fn next_to_apply(&self) -> (r: Option<(u64, Vec<u8>)>)
        requires
            self.wf(),
        ensures
            self@.applied < self@.commit ==> (r matches Some((i, c)) && i == self@.applied + 1
                && c@ == self@.log[self@.applied as int].command),
            self@.applied >= self@.commit ==> r is None,
    {
        let len = self.log.len();
        if self.last_applied < self.commit_index {
            let i = self.last_applied as usize;
            assert(self@.log[i as int] == self.log@[i as int]@);
            let e = self.log[i].duplicate();
            Some((self.last_applied + 1, e.command))
        } else {
            None
        }
    }

    /// The state machine applied the command at `index`. Only the entry just
    /// after the last applied one, and only a committed one, is recorded:
    /// commands are applied once each, in index order.
    pub fn record_applied(&mut self, index: u64) -> (r: bool)
        requires
            old(self).wf(),
        ensures
            final(self).wf(),
            safe_step(old(self)@, final(self)@),
            r == (index == old(self)@.applied + 1 && index <= old(self)@.commit),
            r ==> final(self)@ == (EngineView { applied: index, ..old(self)@ }),
            !r ==> final(self)@ == old(self)@,
    {
        if self.last_applied < self.commit_index && index == self.last_applied + 1 {
            self.last_applied = index;
            true
        } else {
            false
        }
    }

    /// One line describing the node: id, role, term and log length.
    pub fn get_status(&self) -> (r: String)
        ensures
            r@ == "Node: "@ + self@.id + " | State: "@ + role_text(self@.role) + " | Term: "@
                + decimal_text(self@.term as nat) + " | LogSize: "@ + decimal_text(self@.log.len()),
    {
        let mut out = String::new();
        push_text(&mut out, "Node: ");
        push_text(&mut out, self.node_id.as_str());
        push_text(&mut out, " | State: ");
        push_text(&mut out, role_name(self.state));
        push_text(&mut out, " | Term: ");
        let t = decimal(self.current_term);
        push_text(&mut out, t.as_str());
        push_text(&mut out, " | LogSize: ");
        let n = decimal(self.log.len() as u64);
        push_text(&mut out, n.as_str());
        out
    }
}


impl ConsensusEngine {
    pub fn state(&self) -> (r: NodeState)
        ensures
            r == self@.role,
    {
        self.state
    }

    pub fn current_term(&self) -> (r: u64)
        ensures
            r == self@.term,
    {
        self.current_term
    }

    pub fn commit_index(&self) -> (r: u64)
        ensures
            r == self@.commit,
    {
        self.commit_index
    }

    pub fn last_applied(&self) -> (r: u64)
        ensures
            r == self@.applied,
    {
        self.last_applied
    }

    pub fn log_len(&self) -> (r: usize)
        ensures
            r == self@.log.len(),
    {
        self.log.len()
    }

    pub fn voted_for(&self) -> (r: Option<&String>)
        ensures
            self@.voted_for is None ==> r is None,
            self@.voted_for matches Some(v) ==> (r matches Some(s) && s@ == v),
    {
        match &self.voted_for {
            Some(v) => Some(v),
            None => None,
        }
    }

    /// The entry at 1-based `index`, if the log reaches it.
    pub fn entry_at(&self, index: u64) -> (r: Option<&LogEntry>)
        ensures
            1 <= index <= self@.log.len() ==> (r matches Some(e) && e@ == self@.log[index - 1]),
            !(1 <= index <= self@.log.len()) ==> r is None,
    {
        if index == 0 || index > self.log.len() as u64 {
            return None;
        }
        let i = (index - 1) as usize;
        assert(self@.log[i as int] == self.log@[i as int]@);
        Some(&self.log[i])
    }
}


/// The ids of the cluster as node state `s` knows it: its peers and itself.
pub open spec fn cluster_ids(s: EngineView) -> Set<Seq<char>> {
    s.peers.map_values(|p: PeerView| p.id).to_set().insert(s.id)
}

/// The election facts of a node's state: peer ids are distinct and not its
/// own, its tally counts distinct members of the cluster, and a Leader's
/// tally is a strict majority.
pub open spec fn tally_ok(s: EngineView) -> bool {
    &&& forall|i: int, j: int| 0 <= i < j < s.peers.len() ==> s.peers[i].id != s.peers[j].id
    &&& forall|i: int| 0 <= i < s.peers.len() ==> s.peers[i].id != s.id
    &&& forall|i: int, j: int| 0 <= i < j < s.votes.len() ==> s.votes[i] != s.votes[j]
    &&& forall|i: int| 0 <= i < s.votes.len() ==> (s.votes[i] == s.id || has_peer(s.peers, s.votes[i]))
    &&& s.role == NodeState::Leader ==> is_majority(s.votes.len(), s)
}

impl ConsensusEngine {
    /// Every well-formed engine's state has sound election facts.
    pub proof fn lemma_tally_ok(&self)
        requires
            self.wf(),
        ensures
            tally_ok(self@),
    {
    }
}


impl ConsensusEngine {
    /// The durable store failed to flush: the node stops taking part. It
    /// reverts to Follower with no known leader and no tally, keeps its term,
    /// vote and log, and from then on refuses every request and ignores
    /// every event.
    pub fn halt(&mut self)
        requires
            old(self).wf(),
        ensures
            final(self).wf(),
            safe_step(old(self)@, final(self)@),
            final(self)@ == (EngineView {
                role: NodeState::Follower,
                leader: None,
                votes: seq![],
                halted: true,
                ..old(self)@
            }),
    {
        self.state = NodeState::Follower;
        self.leader_id = None;
        self.votes_received.clear();
        self.halted = true;
        assert(self@.votes =~= Seq::<Seq<char>>::empty());
        assert(self@ =~= (EngineView { role: NodeState::Follower, leader: None, votes: seq![], halted: true, ..old(self)@ }));
    }

    pub fn is_halted(&self) -> (r: bool)
        ensures
            r == self@.halted,
    {
        self.halted
    }

    /// The current election timeout, in milliseconds.
    pub fn election_timeout_ms(&self) -> (r: u64)
        ensures
            r == self@.timeout_ms,
    {
        self.election_timeout_ms
    }

    /// The cursor and timer facts of a well-formed engine: applied ≤ commit ≤
    /// log length, each peer's match index below its next index, a Leader's
    /// next indexes at most one past its log, a timeout in its window, and a
    /// halted node a Follower.
    pub proof fn lemma_cursors(&self)
        requires
            self.wf(),
        ensures
            self@.applied <= self@.commit <= self@.log.len(),
            forall|i: int| 0 <= i < self@.peers.len() ==> 1 <= #[trigger] self@.peers[i].next_index
                && self@.peers[i].match_index < self@.peers[i].next_index,
            self@.role == NodeState::Leader ==> forall|i: int| 0 <= i < self@.peers.len()
                ==> #[trigger] self@.peers[i].next_index <= self@.log.len() + 1,
            ELECTION_TIMEOUT_BASE_MS <= self@.timeout_ms < ELECTION_TIMEOUT_BASE_MS + ELECTION_TIMEOUT_JITTER_MS,
            self@.halted ==> self@.role == NodeState::Follower,
    {
    }
}

} // verus!
