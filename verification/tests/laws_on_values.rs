use raft_rs_demo::{AppendEntries, LogEntry, Node, RequestVote, Role};

fn entry(term: u64, command: &str) -> LogEntry {
    LogEntry { term, command: command.to_string() }
}

fn vote(term: u64, candidate_id: u64, last_log_index: u64, last_log_term: u64) -> RequestVote {
    RequestVote { term, candidate_id, last_log_index, last_log_term }
}

fn append(term: u64, prev_log_index: u64, prev_log_term: u64, entries: Vec<LogEntry>) -> AppendEntries {
    AppendEntries { term, leader_id: 1, prev_log_index, prev_log_term, entries, leader_commit: 0 }
}

fn terms(node: &Node) -> Vec<u64> {
    node.log.iter().map(|e| e.term).collect()
}

#[test]
fn second_candidate_in_same_term_is_refused() {
    let mut node = Node::new();
    assert!(node.handle_request_vote(&vote(4, 1, 0, 0)));
    assert!(!node.handle_request_vote(&vote(4, 2, 0, 0)));
    assert_eq!(node.voted_for, Some(1));
    assert_eq!(node.current_term, 4);
}

#[test]
fn new_term_frees_the_vote() {
    let mut node = Node::new();
    assert!(node.handle_request_vote(&vote(4, 1, 0, 0)));
    assert!(node.handle_request_vote(&vote(5, 2, 0, 0)));
    assert_eq!(node.voted_for, Some(2));
    assert_eq!(node.current_term, 5);
}

#[test]
fn repeated_vote_request_changes_nothing() {
    let mut node = Node::new();
    node.log = vec![entry(1, "a")];
    let req = vote(2, 3, 1, 1);
    assert!(node.handle_request_vote(&req));
    assert!(node.handle_request_vote(&req));
    assert_eq!(node.voted_for, Some(3));
    assert_eq!(node.current_term, 2);
    assert_eq!(node.log, vec![entry(1, "a")]);
}

#[test]
fn request_vote_never_touches_the_log() {
    let mut node = Node::new();
    node.log = vec![entry(1, "a"), entry(3, "b")];
    assert!(!node.handle_request_vote(&vote(7, 2, 9, 2)));
    assert_eq!(node.log, vec![entry(1, "a"), entry(3, "b")]);
    assert!(node.handle_request_vote(&vote(7, 2, 2, 3)));
    assert_eq!(node.log, vec![entry(1, "a"), entry(3, "b")]);
}

#[test]
fn refused_vote_on_stale_log_still_adopts_newer_term() {
    let mut node = Node::new();
    node.current_term = 1;
    node.voted_for = Some(5);
    node.role = Role::Leader;
    node.log = vec![entry(1, "a")];
    assert!(!node.handle_request_vote(&vote(3, 2, 0, 0)));
    assert_eq!(node.current_term, 3);
    assert_eq!(node.voted_for, None);
    assert_eq!(node.role, Role::Follower);
}

#[test]
fn vote_for_empty_log_candidate_on_empty_log() {
    let mut node = Node::new();
    assert!(node.handle_request_vote(&vote(0, 9, 0, 0)));
    assert_eq!(node.voted_for, Some(9));
    assert_eq!(node.current_term, 0);
}

#[test]
fn same_append_twice_is_same_as_once() {
    let mut node = Node::new();
    node.log = vec![entry(1, "a"), entry(2, "b"), entry(2, "z")];
    let req = append(3, 1, 1, vec![entry(3, "x"), entry(3, "y")]);
    assert!(node.handle_append_entries(&req));
    let once = node.log.clone();
    assert_eq!(once, vec![entry(1, "a"), entry(3, "x"), entry(3, "y")]);
    assert!(node.handle_append_entries(&req));
    assert_eq!(node.log, once);
    assert_eq!(node.current_term, 3);
}

#[test]
fn matching_entries_keep_the_longer_log() {
    let mut node = Node::new();
    node.log = vec![entry(1, "a"), entry(1, "b"), entry(1, "c"), entry(2, "d")];
    let req = append(2, 1, 1, vec![entry(1, "other")]);
    assert!(node.handle_append_entries(&req));
    assert_eq!(terms(&node), vec![1, 1, 1, 2]);
    assert_eq!(node.log[1].command, "b");
    assert_eq!(node.log[3].command, "d");
}

#[test]
fn heartbeat_keeps_the_log() {
    let mut node = Node::new();
    node.log = vec![entry(1, "a"), entry(1, "b")];
    assert!(node.handle_append_entries(&append(1, 2, 1, vec![])));
    assert_eq!(node.log, vec![entry(1, "a"), entry(1, "b")]);
}

#[test]
fn refused_append_still_steps_down_and_keeps_log() {
    let mut node = Node::new();
    node.current_term = 2;
    node.voted_for = Some(4);
    node.role = Role::Leader;
    node.log = vec![entry(1, "a")];
    assert!(!node.handle_append_entries(&append(6, 1, 5, vec![entry(6, "x")])));
    assert_eq!(node.current_term, 6);
    assert_eq!(node.voted_for, None);
    assert_eq!(node.role, Role::Follower);
    assert_eq!(node.log, vec![entry(1, "a")]);
}

#[test]
fn append_in_same_term_keeps_vote() {
    let mut node = Node::new();
    node.current_term = 3;
    node.voted_for = Some(2);
    node.role = Role::Candidate;
    assert!(node.handle_append_entries(&append(3, 0, 0, vec![entry(3, "x")])));
    assert_eq!(node.voted_for, Some(2));
    assert_eq!(node.role, Role::Follower);
    assert_eq!(node.log, vec![entry(3, "x")]);
}

#[test]
fn append_at_start_replaces_conflicting_log() {
    let mut node = Node::new();
    node.log = vec![entry(1, "a"), entry(1, "b")];
    assert!(node.handle_append_entries(&append(2, 0, 0, vec![entry(2, "x")])));
    assert_eq!(node.log, vec![entry(2, "x")]);
}

#[test]
fn append_right_after_log_end_extends() {
    let mut node = Node::new();
    node.log = vec![entry(1, "a")];
    assert!(node.handle_append_entries(&append(1, 1, 1, vec![entry(1, "b"), entry(1, "c")])));
    assert_eq!(terms(&node), vec![1, 1, 1]);
    assert_eq!(node.log[2].command, "c");
}
