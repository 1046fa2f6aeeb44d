use clawsec_core::consensus::{AppendReply, ConsensusEngine, LogEntry, NodeState, VoteReply};

fn node(id: &str, peers: &[&str]) -> ConsensusEngine {
    let list: Vec<(String, String)> = peers
        .iter()
        .map(|p| (p.to_string(), format!("10.0.0.{}:7000", p.len())))
        .collect();
    ConsensusEngine::new(id.to_string(), list)
}

fn cluster() -> (ConsensusEngine, ConsensusEngine, ConsensusEngine) {
    (node("n1", &["n2", "n3"]), node("n2", &["n1", "n3"]), node("n3", &["n1", "n2"]))
}

fn entry(term: u64, cmd: &str) -> LogEntry {
    LogEntry::new(term, cmd.as_bytes().to_vec(), 0)
}

/// Runs an election on `cand`, asking each of `voters` in turn.
fn elect(cand: &mut ConsensusEngine, voters: &mut [&mut ConsensusEngine]) -> bool {
    let req = cand.election_timeout().expect("a follower starts an election");
    let mut won = false;
    for v in voters.iter_mut() {
        let reply = v.request_vote(req.term, req.candidate_id.clone(), req.last_log_index, req.last_log_term);
        let from = voter_id(v);
        won |= cand.handle_vote_reply(&from, reply);
    }
    won
}

fn voter_id(v: &ConsensusEngine) -> String {
    let s = v.get_status();
    s.split(" | ").next().unwrap().trim_start_matches("Node: ").to_string()
}

/// Sends one heartbeat round from `leader` to the given followers and feeds
/// the replies back.
fn heartbeat(leader: &mut ConsensusEngine, followers: &mut [&mut ConsensusEngine], now: u64) {
    let reqs = leader.replicate_log();
    for req in reqs {
        for f in followers.iter_mut() {
            if voter_id(f) == req.peer_id {
                let count = req.entries.len() as u64;
                let reply = f.append_entries(req.term, req.leader_id.clone(), req.prev_log_index, req.prev_log_term, req.entries, req.leader_commit);
                leader.handle_append_reply(&req.peer_id, req.prev_log_index, count, reply, now);
                break;
            }
        }
    }
}

#[test]
fn new_node_starts_as_follower() {
    let n = node("n1", &["n2", "n3", "n2", "n1"]);
    assert_eq!(n.state(), NodeState::Follower);
    assert_eq!(n.current_term(), 0);
    assert_eq!(n.log_len(), 0);
    assert_eq!(n.commit_index(), 0);
    assert!(n.voted_for().is_none());
    assert_eq!(n.get_status(), "Node: n1 | State: Follower | Term: 0 | LogSize: 0");
}

#[test]
fn first_candidate_to_time_out_wins_election() {
    let (mut n1, mut n2, _n3) = cluster();
    let req = n1.election_timeout().unwrap();
    assert_eq!(req.term, 1);
    assert_eq!(n1.state(), NodeState::Candidate);
    assert_eq!(n1.voted_for().map(|s| s.as_str()), Some("n1"));
    let reply = n2.request_vote(req.term, req.candidate_id.clone(), req.last_log_index, req.last_log_term);
    assert_eq!(reply, VoteReply { term: 1, vote_granted: true });
    assert!(n1.handle_vote_reply(&"n2".to_string(), reply));
    assert_eq!(n1.state(), NodeState::Leader);
    assert_eq!(n1.current_term(), 1);
    assert_eq!(n1.get_status(), "Node: n1 | State: Leader | Term: 1 | LogSize: 0");
}

#[test]
fn majority_ack_commits_and_followers_apply_in_order() {
    let (mut n1, mut n2, mut n3) = cluster();
    assert!(elect(&mut n1, &mut [&mut n2, &mut n3]));
    assert_eq!(n1.submit(b"x".to_vec(), 10), Some(1));
    assert_eq!(n1.submit(b"y".to_vec(), 11), Some(2));
    heartbeat(&mut n1, &mut [&mut n2, &mut n3], 100);
    assert_eq!(n1.commit_index(), 2);
    heartbeat(&mut n1, &mut [&mut n2, &mut n3], 200);
    for f in [&mut n2, &mut n3] {
        assert_eq!(f.commit_index(), 2);
        let (i, c) = f.next_to_apply().unwrap();
        assert_eq!((i, c.as_slice()), (1, &b"x"[..]));
        assert!(!f.record_applied(2));
        assert!(f.record_applied(1));
        let (i, c) = f.next_to_apply().unwrap();
        assert_eq!((i, c.as_slice()), (2, &b"y"[..]));
        assert!(f.record_applied(2));
        assert!(f.next_to_apply().is_none());
        assert_eq!(f.last_applied(), 2);
    }
}

#[test]
fn conflicting_suffix_is_replaced() {
    let mut f = node("f", &["L", "x"]);
    let r = f.append_entries(2, "L".to_string(), 0, 0, vec![entry(1, "a"), entry(2, "b"), entry(1, "c")], 0);
    assert!(r.success);
    assert_eq!(f.entry_at(3).unwrap().term, 1);
    let r = f.append_entries(2, "L".to_string(), 2, 2, vec![entry(2, "d")], 0);
    assert_eq!(r, AppendReply { term: 2, success: true, match_hint: 3 });
    assert_eq!(f.log_len(), 3);
    let e = f.entry_at(3).unwrap();
    assert_eq!(e.term, 2);
    assert_eq!(e.command, b"d".to_vec());
    assert_eq!(f.entry_at(2).unwrap().command, b"b".to_vec());
}

#[test]
fn vote_denied_to_less_up_to_date_log() {
    let mut f = node("f", &["L", "c"]);
    f.append_entries(2, "L".to_string(), 0, 0, vec![entry(1, "a"), entry(2, "b"), entry(2, "c")], 0);
    let reply = f.request_vote(2, "c".to_string(), 1, 2);
    assert_eq!(reply, VoteReply { term: 2, vote_granted: false });
    assert!(f.voted_for().is_none());
    let reply = f.request_vote(2, "c".to_string(), 3, 2);
    assert!(reply.vote_granted);
}

#[test]
fn partitioned_leader_steps_down() {
    let (mut n1, mut n2, mut n3) = cluster();
    assert!(elect(&mut n1, &mut [&mut n2, &mut n3]));
    // n1 is cut off: its entry reaches nobody.
    assert_eq!(n1.submit(b"lost".to_vec(), 1), Some(1));
    n1.advance_commit_index();
    assert_eq!(n1.commit_index(), 0);
    // The majority side elects n2 at a higher term.
    assert!(elect(&mut n2, &mut [&mut n3]));
    assert_eq!(n2.current_term(), 2);
    assert_eq!(n2.submit(b"kept".to_vec(), 2), Some(1));
    heartbeat(&mut n2, &mut [&mut n3], 10);
    assert_eq!(n2.commit_index(), 1);
    // The partition heals.
    heartbeat(&mut n2, &mut [&mut n1], 20);
    assert_eq!(n1.state(), NodeState::Follower);
    assert_eq!(n1.current_term(), 2);
    heartbeat(&mut n2, &mut [&mut n1], 30);
    assert_eq!(n1.entry_at(1).unwrap().command, b"kept".to_vec());
    assert_eq!(n1.commit_index(), 1);
}

#[test]
fn one_leader_per_term() {
    let (mut n1, mut n2, mut n3) = cluster();
    let r1 = n1.election_timeout().unwrap();
    let r2 = n2.election_timeout().unwrap();
    assert_eq!(r1.term, r2.term);
    let v = n3.request_vote(r1.term, r1.candidate_id.clone(), r1.last_log_index, r1.last_log_term);
    assert!(v.vote_granted);
    let w = n3.request_vote(r2.term, r2.candidate_id.clone(), r2.last_log_index, r2.last_log_term);
    assert!(!w.vote_granted);
    // Each candidate refuses the other: each has voted for itself.
    let a = n2.request_vote(r1.term, r1.candidate_id.clone(), 0, 0);
    let b = n1.request_vote(r2.term, r2.candidate_id.clone(), 0, 0);
    assert!(!a.vote_granted && !b.vote_granted);
    assert!(n1.handle_vote_reply(&"n3".to_string(), v));
    assert!(!n2.handle_vote_reply(&"n3".to_string(), w));
    assert_eq!(n1.state(), NodeState::Leader);
    assert_eq!(n2.state(), NodeState::Candidate);
}

#[test]
fn leader_log_only_grows() {
    let (mut n1, mut n2, mut n3) = cluster();
    assert!(elect(&mut n1, &mut [&mut n2, &mut n3]));
    n1.submit(b"a".to_vec(), 0);
    heartbeat(&mut n1, &mut [&mut n2, &mut n3], 1);
    n1.submit(b"b".to_vec(), 0);
    heartbeat(&mut n1, &mut [&mut n2, &mut n3], 2);
    assert_eq!(n1.state(), NodeState::Leader);
    assert_eq!(n1.log_len(), 2);
    assert_eq!(n1.entry_at(1).unwrap().command, b"a".to_vec());
    assert_eq!(n1.entry_at(2).unwrap().command, b"b".to_vec());
}

#[test]
fn logs_match_after_replication() {
    let (mut n1, mut n2, mut n3) = cluster();
    assert!(elect(&mut n1, &mut [&mut n2, &mut n3]));
    for c in ["p", "q", "r"] {
        n1.submit(c.as_bytes().to_vec(), 0);
    }
    heartbeat(&mut n1, &mut [&mut n2, &mut n3], 1);
    for f in [&n2, &n3] {
        assert_eq!(f.log_len(), 3);
        for i in 1..=3 {
            assert_eq!(f.entry_at(i).unwrap().term, n1.entry_at(i).unwrap().term);
            assert_eq!(f.entry_at(i).unwrap().command, n1.entry_at(i).unwrap().command);
        }
    }
}

#[test]
fn followers_apply_the_same_commands() {
    let (mut n1, mut n2, mut n3) = cluster();
    assert!(elect(&mut n1, &mut [&mut n2, &mut n3]));
    n1.submit(b"one".to_vec(), 0);
    heartbeat(&mut n1, &mut [&mut n2, &mut n3], 1);
    heartbeat(&mut n1, &mut [&mut n2, &mut n3], 2);
    let a = n2.next_to_apply().unwrap();
    let b = n3.next_to_apply().unwrap();
    assert_eq!(a, b);
}

#[test]
fn stale_term_requests_are_refused() {
    let mut f = node("f", &["L"]);
    f.append_entries(5, "L".to_string(), 0, 0, vec![], 0);
    assert_eq!(f.current_term(), 5);
    let r = f.append_entries(3, "X".to_string(), 0, 0, vec![entry(3, "z")], 0);
    assert_eq!(r, AppendReply { term: 5, success: false, match_hint: 0 });
    let v = f.request_vote(4, "X".to_string(), 9, 9);
    assert_eq!(v, VoteReply { term: 5, vote_granted: false });
}

#[test]
fn missing_prefix_is_refused_with_hint() {
    let mut f = node("f", &["L"]);
    let r = f.append_entries(1, "L".to_string(), 4, 1, vec![entry(1, "z")], 0);
    assert_eq!(r, AppendReply { term: 1, success: false, match_hint: 0 });
    assert_eq!(f.log_len(), 0);
}

#[test]
fn commit_follows_leader_commit_bounded_by_new_entries() {
    let mut f = node("f", &["L"]);
    let r = f.append_entries(1, "L".to_string(), 0, 0, vec![entry(1, "a"), entry(1, "b")], 7);
    assert!(r.success);
    assert_eq!(f.commit_index(), 2);
}

#[test]
fn prior_term_entries_are_not_committed_by_count() {
    let (mut n1, mut n2, mut n3) = cluster();
    // An entry of the leader's own term commits once a majority holds it.
    assert!(elect(&mut n1, &mut [&mut n2, &mut n3]));
    n1.submit(b"old".to_vec(), 0);
    heartbeat(&mut n1, &mut [&mut n2], 1);
    assert_eq!(n1.commit_index(), 1);
    // A leader of a later term does not commit that entry by count alone.
    let mut solo = node("s", &["a", "b"]);
    solo.append_entries(1, "n1".to_string(), 0, 0, vec![entry(1, "old")], 0);
    // s becomes leader of term 2 with an entry of term 1 replicated on a majority.
    let req = solo.election_timeout().unwrap();
    assert_eq!(req.term, 2);
    assert!(solo.handle_vote_reply(&"a".to_string(), VoteReply { term: 2, vote_granted: true }));
    solo.handle_append_reply(&"a".to_string(), 0, 1, AppendReply { term: 2, success: true, match_hint: 1 }, 5);
    assert_eq!(solo.commit_index(), 0);
    solo.submit(b"new".to_vec(), 0);
    solo.handle_append_reply(&"a".to_string(), 1, 1, AppendReply { term: 2, success: true, match_hint: 2 }, 6);
    assert_eq!(solo.commit_index(), 2);
}

#[test]
fn single_node_cluster_leads_alone() {
    let mut n = node("solo", &[]);
    let req = n.election_timeout().unwrap();
    assert_eq!(req.term, 1);
    assert_eq!(n.state(), NodeState::Leader);
    assert_eq!(n.submit(b"c".to_vec(), 0), Some(1));
    n.advance_commit_index();
    assert_eq!(n.commit_index(), 1);
    assert!(n.election_timeout().is_none());
}

#[test]
fn higher_term_reply_demotes_leader() {
    let (mut n1, mut n2, mut n3) = cluster();
    assert!(elect(&mut n1, &mut [&mut n2, &mut n3]));
    n1.handle_append_reply(&"n2".to_string(), 0, 0, AppendReply { term: 9, success: false, match_hint: 0 }, 1);
    assert_eq!(n1.state(), NodeState::Follower);
    assert_eq!(n1.current_term(), 9);
    assert!(n1.voted_for().is_none());
}

#[test]
fn failed_append_backs_off_next_index() {
    let (mut n1, mut n2, mut n3) = cluster();
    assert!(elect(&mut n1, &mut [&mut n2, &mut n3]));
    for c in ["a", "b", "c"] {
        n1.submit(c.as_bytes().to_vec(), 0);
    }
    // Pretend a peer refused: the next request for it starts lower.
    n1.handle_append_reply(&"n2".to_string(), 3, 0, AppendReply { term: 1, success: false, match_hint: 0 }, 1);
    let reqs = n1.replicate_log();
    let r = reqs.iter().find(|r| r.peer_id == "n2").unwrap();
    assert_eq!(r.prev_log_index, 0);
    assert_eq!(r.entries.len(), 3);
}

#[test]
fn election_timeout_is_within_window() {
    for d in [0u64, 1, 149, 150, 299, u64::MAX] {
        let t = clawsec_core::consensus::election_timeout_for(d);
        assert!((150..300).contains(&t));
        assert_eq!(t, 150 + d % 150);
    }
}

#[test]
fn leader_refuses_append_of_its_own_term() {
    let mut n = node("solo", &[]);
    n.election_timeout().unwrap();
    assert_eq!(n.submit(b"a".to_vec(), 0), Some(1));
    let r = n.append_entries(1, "other".to_string(), 0, 0, vec![entry(2, "b")], 0);
    assert_eq!(r, AppendReply { term: 1, success: false, match_hint: 1 });
    assert_eq!(n.state(), NodeState::Leader);
    assert_eq!(n.log_len(), 1);
    assert_eq!(n.entry_at(1).unwrap().command, b"a".to_vec());
}

#[test]
fn halted_node_refuses_everything() {
    let (mut n1, mut n2, mut n3) = cluster();
    assert!(elect(&mut n1, &mut [&mut n2, &mut n3]));
    n1.submit(b"a".to_vec(), 0);
    n1.halt();
    assert!(n1.is_halted());
    assert_eq!(n1.state(), NodeState::Follower);
    assert_eq!(n1.current_term(), 1);
    assert_eq!(n1.log_len(), 1);
    assert!(n1.replicate_log().is_empty());
    assert!(n1.election_timeout().is_none());
    assert_eq!(n1.request_vote(5, "n2".to_string(), 9, 9), VoteReply { term: 1, vote_granted: false });
    assert_eq!(n1.append_entries(5, "n2".to_string(), 0, 0, vec![], 0), AppendReply { term: 1, success: false, match_hint: 1 });
    assert_eq!(n1.submit(b"b".to_vec(), 0), None);
    assert_eq!(n1.current_term(), 1);
}

#[test]
fn drawn_timeouts_stay_in_window() {
    let mut n = node("n1", &["n2"]);
    assert!((150..300).contains(&n.election_timeout_ms()));
    n.election_timeout().unwrap();
    assert!((150..300).contains(&n.election_timeout_ms()));
}
