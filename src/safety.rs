//! Safety laws of the consensus protocol, proved over the model that the
//! engine's contracts use.
use vstd::prelude::*;
use vstd::set_lib::{lemma_len_subset, lemma_set_intersect_union_lens};
use crate::consensus::{EngineView, EntryView, NodeState, PeerView, cluster_ids, committable, conflict_from, first_conflict, has_peer, is_majority, leader_commit_of, merge_log, replicas, tally_ok};

verus! {

/// Two strict majorities of one finite cluster share a member.
pub proof fn lemma_quorums_intersect<A>(cluster: Set<A>, q1: Set<A>, q2: Set<A>) -> (m: A)
    requires
        cluster.finite(),
        q1.subset_of(cluster),
        q2.subset_of(cluster),
        2 * q1.len() > cluster.len(),
        2 * q2.len() > cluster.len(),
    ensures
        q1.contains(m),
        q2.contains(m),
{
    lemma_len_subset(q1, cluster);
    lemma_len_subset(q2, cluster);
    lemma_len_subset(q1 + q2, cluster);
    lemma_set_intersect_union_lens(q1, q2);
    assert(q1.intersect(q2).len() > 0);
    if q1.intersect(q2) =~= Set::<A>::empty() {
        assert(false);
    }
    let m = choose|m: A| q1.intersect(q2).contains(m);
    m
}

/// Election safety: in one term every node casts at most one vote, so
/// `ballot` maps each voter to the one candidate it voted for. Two candidates
/// that each won the votes of a strict majority of the cluster in that term
/// are the same node: a term has at most one leader.
pub proof fn lemma_election_safety<A>(
    cluster: Set<A>,
    ballot: Map<A, A>,
    a: A,
    voters_a: Set<A>,
    b: A,
    voters_b: Set<A>,
)
    requires
        cluster.finite(),
        voters_a.subset_of(cluster),
        voters_b.subset_of(cluster),
        2 * voters_a.len() > cluster.len(),
        2 * voters_b.len() > cluster.len(),
        forall|v: A| #[trigger] voters_a.contains(v) ==> ballot.contains_key(v) && ballot[v] == a,
        forall|v: A| #[trigger] voters_b.contains(v) ==> ballot.contains_key(v) && ballot[v] == b,
    ensures
        a == b,
{
    let m = lemma_quorums_intersect(cluster, voters_a, voters_b);
    assert(ballot[m] == a && ballot[m] == b);
}

/// Leader completeness, its quorum step: the nodes that hold a committed
/// entry and the nodes that elected any later leader are both strict
/// majorities, so some voter of that leader holds the entry; the vote rule
/// then admits the leader only with a log at least as up-to-date as that
/// voter's.
pub proof fn lemma_election_meets_commit<A>(cluster: Set<A>, holders: Set<A>, voters: Set<A>) -> (m: A)
    requires
        cluster.finite(),
        holders.subset_of(cluster),
        voters.subset_of(cluster),
        2 * holders.len() > cluster.len(),
        2 * voters.len() > cluster.len(),
    ensures
        holders.contains(m),
        voters.contains(m),
{
    lemma_quorums_intersect(cluster, holders, voters)
}

/// Log matching between two logs: wherever both hold an entry of the same
/// term at one index, they are identical up to and including that index.
pub open spec fn log_matching(a: Seq<EntryView>, b: Seq<EntryView>) -> bool {
    forall|i: int|
        0 <= i < a.len() && i < b.len() && #[trigger] a[i].term == #[trigger] b[i].term
            ==> a.subrange(0, i + 1) == b.subrange(0, i + 1)
}

/// What `conflict_from` returns: a position between `j` and the length of
/// `entries`.
pub proof fn lemma_conflict_bounds(log: Seq<EntryView>, prev: int, entries: Seq<EntryView>, j: int)
    requires
        0 <= j <= entries.len(),
    ensures
        j <= conflict_from(log, prev, entries, j) <= entries.len(),
    decreases entries.len() - j,
{
    if j < entries.len() && !(prev + j >= log.len() || log[prev + j].term != entries[j].term) {
        lemma_conflict_bounds(log, prev, entries, j + 1);
    }
}

/// Every entry that `conflict_from` passes over is already in the log at its
/// place, with the same term.
pub proof fn lemma_conflict_passed(log: Seq<EntryView>, prev: int, entries: Seq<EntryView>, j: int, i: int)
    requires
        0 <= j <= i < conflict_from(log, prev, entries, j),
    ensures
        prev + i < log.len(),
        log[prev + i].term == entries[i].term,
    decreases i - j,
{
    if i > j {
        lemma_conflict_passed(log, prev, entries, j + 1, i);
    }
}

/// Log matching, its inductive step: when a follower's log matches the
/// leader's and holds the leader's entry at `prev`, accepting the leader's
/// next `k` entries leaves the follower with exactly the leader's first
/// `prev + k` entries.
pub proof fn lemma_append_matches_leader(follower: Seq<EntryView>, leader: Seq<EntryView>, prev: int, k: int)
    requires
        log_matching(follower, leader),
        0 <= prev,
        0 <= k,
        prev + k <= leader.len(),
        prev == 0 || (prev <= follower.len() && follower[prev - 1].term == leader[prev - 1].term),
    ensures
        merge_log(follower, prev, leader.subrange(prev, prev + k)).subrange(0, prev + k)
            == leader.subrange(0, prev + k),
{
    let e = leader.subrange(prev, prev + k);
    lemma_conflict_bounds(follower, prev, e, 0);
    let c = first_conflict(follower, prev, e);
    // The follower and the leader agree on their first prev + c entries.
    if prev + c > 0 {
        let i = prev + c - 1;
        if c > 0 {
            lemma_conflict_passed(follower, prev, e, 0, c - 1);
        }
        assert(follower[i].term == leader[i].term);
        assert(follower.subrange(0, i + 1) == leader.subrange(0, i + 1));
    }
    assert(follower.subrange(0, prev + c) =~= leader.subrange(0, prev + c));
    let merged = merge_log(follower, prev, e);
    if c >= k {
        assert(merged == follower);
        assert(merged.subrange(0, prev + k) =~= leader.subrange(0, prev + k));
    } else {
        assert(merged == follower.subrange(0, prev + c) + e.subrange(c, k));
        assert(merged.subrange(0, prev + k) =~= leader.subrange(0, prev + k));
    }
}


/// The cluster a node knows has one member per peer, and itself.
pub proof fn lemma_cluster_size(s: EngineView)
    requires
        tally_ok(s),
    ensures
        cluster_ids(s).finite(),
        cluster_ids(s).len() == s.peers.len() + 1,
{
    let ids = s.peers.map_values(|p: PeerView| p.id);
    assert(ids.no_duplicates()) by {
        assert forall|i: int, j: int| 0 <= i < ids.len() && 0 <= j < ids.len() && i != j implies ids[i] != ids[j] by {
            if i < j {
                assert(s.peers[i].id != s.peers[j].id);
            } else {
                assert(s.peers[j].id != s.peers[i].id);
            }
        }
    }
    ids.unique_seq_to_set();
    assert(!ids.to_set().contains(s.id)) by {
        if ids.to_set().contains(s.id) {
            let w = choose|w: int| 0 <= w < ids.len() && ids[w] == s.id;
            assert(s.peers[w].id != s.id);
        }
    }
    vstd::seq_lib::seq_to_set_is_finite(ids);
}

/// A node's tally, as a set, lies in its cluster and has one member per vote.
pub proof fn lemma_tally_in_cluster(s: EngineView)
    requires
        tally_ok(s),
    ensures
        s.votes.to_set().subset_of(cluster_ids(s)),
        s.votes.to_set().len() == s.votes.len(),
{
    assert(s.votes.no_duplicates()) by {
        assert forall|i: int, j: int| 0 <= i < s.votes.len() && 0 <= j < s.votes.len() && i != j implies s.votes[i] != s.votes[j] by {
            if i < j {
                assert(s.votes[i] != s.votes[j]);
            } else {
                assert(s.votes[j] != s.votes[i]);
            }
        }
    }
    s.votes.unique_seq_to_set();
    let ids = s.peers.map_values(|p: PeerView| p.id);
    assert forall|v: Seq<char>| s.votes.to_set().contains(v) implies cluster_ids(s).contains(v) by {
        let i = choose|i: int| 0 <= i < s.votes.len() && s.votes[i] == v;
        if v != s.id {
            assert(has_peer(s.peers, v));
            let w = choose|w: int| 0 <= w < s.peers.len() && s.peers[w].id == v;
            assert(ids[w] == v);
        }
    }
}

/// Election safety over node states: two Leaders of one term, in a cluster
/// they both know alike, whose tallies hold only votes cast in that term
/// (`ballot` maps each voter to the one candidate it voted for), are the
/// same node.
pub proof fn lemma_one_leader_per_term(a: EngineView, b: EngineView, ballot: Map<Seq<char>, Seq<char>>)
    requires
        tally_ok(a),
        tally_ok(b),
        a.role == NodeState::Leader,
        b.role == NodeState::Leader,
        a.term == b.term,
        cluster_ids(a) == cluster_ids(b),
        forall|v: Seq<char>| #[trigger] a.votes.contains(v) ==> ballot.contains_key(v) && ballot[v] == a.id,
        forall|v: Seq<char>| #[trigger] b.votes.contains(v) ==> ballot.contains_key(v) && ballot[v] == b.id,
    ensures
        a.id == b.id,
{
    lemma_cluster_size(a);
    lemma_cluster_size(b);
    lemma_tally_in_cluster(a);
    lemma_tally_in_cluster(b);
    assert forall|v: Seq<char>| a.votes.to_set().contains(v) implies ballot.contains_key(v) && ballot[v] == a.id by {
        assert(a.votes.contains(v));
    }
    assert forall|v: Seq<char>| b.votes.to_set().contains(v) implies ballot.contains_key(v) && ballot[v] == b.id by {
        assert(b.votes.contains(v));
    }
    lemma_election_safety(cluster_ids(a), ballot, a.id, a.votes.to_set(), b.id, b.votes.to_set());
}


/// Conflict repair: when the entry just after `prev` in the follower's log
/// has another term than the leader's first entry, the follower keeps its
/// first `prev` entries and takes the leader's entries after them, dropping
/// its own suffix.
pub proof fn lemma_conflict_replaces_suffix(log: Seq<EntryView>, prev: int, entries: Seq<EntryView>)
    requires
        0 <= prev < log.len(),
        entries.len() > 0,
        log[prev].term != entries[0].term,
    ensures
        merge_log(log, prev, entries) == log.subrange(0, prev) + entries,
{
    assert(first_conflict(log, prev, entries) == 0);
    assert(entries.subrange(0, entries.len() as int) =~= entries);
}

/// Commit by majority: once the entry at index `n` is of the Leader's term
/// and a strict majority, the Leader included, holds it, the commit index
/// the Leader computes reaches at least `n`.
pub proof fn lemma_majority_commits(s: EngineView, n: int, c: u64)
    requires
        1 <= n <= s.log.len(),
        s.log[n - 1].term == s.term,
        is_majority(replicas(s.peers, n) + 1, s),
        leader_commit_of(s, c),
    ensures
        c >= n,
{
    assert(committable(s, n));
}

} // verus!
