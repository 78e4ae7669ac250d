use vstd::prelude::*;

use crate::model::{
    after_append_entries, after_request_vote, append_accepted, first_disagreement, initial_node,
    lemma_first_disagreement, merge_entries, term_agrees, vote_granted,
};
use crate::types::{AppendEntries, LogEntry, Node, RequestVote, Role};

verus! {

/// Stores `entries` into `log` from position `start` on (see `merge_entries`).
fn merge_into(log: &mut Vec<LogEntry>, start: usize, entries: &Vec<LogEntry>)
    requires
        start <= old(log).len(),
    ensures
        final(log)@ == merge_entries(old(log)@, start as int, entries@),
{
    let ghost old_log = log@;
    let ghost k = first_disagreement(old_log, start as int, entries@, 0);
    proof {
        lemma_first_disagreement(old_log, start as int, entries@, 0);
        if k > 0 {
            assert(term_agrees(old_log, start as int, entries@, k - 1));
        }
    }
    let mut i: usize = 0;
    while i < entries.len()
        invariant
            i <= entries.len(),
            start <= old_log.len(),
            k == first_disagreement(old_log, start as int, entries@, 0),
            k <= entries.len(),
            start + k <= old_log.len(),
            forall|j: int| 0 <= j < k ==> #[trigger] term_agrees(old_log, start as int, entries@, j),
            k < entries.len() ==> !term_agrees(old_log, start as int, entries@, k as int),
            i <= k ==> log@ == old_log,
            k < i ==> log@ == old_log.take(start + k) + entries@.subrange(k as int, i as int),
        decreases entries.len() - i,
    {
        let ghost before = log@;
        assert(start + i <= log.len()) by {
            if i < k {
                assert(term_agrees(old_log, start as int, entries@, i as int));
            }
        }
        let idx = start + i;
        let entry = &entries[i];
        if idx < log.len() {
            if log[idx].term != entry.term {
                log.truncate(idx);
                log.push(entry.duplicate());
                proof {
                    if i < k {
                        assert(term_agrees(old_log, start as int, entries@, i as int));
                    }
                    assert(log@ =~= old_log.take(start + k) + entries@.subrange(k as int, i + 1));
                }
            } else {
                proof {
                    if i == k {
                        assert(term_agrees(old_log, start as int, entries@, i as int));
                    }
                }
            }
        } else {
            log.push(entry.duplicate());
            proof {
                if i == k {
                    assert(old_log.take(start + k) =~= old_log);
                }
                assert(log@ =~= old_log.take(start + k) + entries@.subrange(k as int, i + 1));
            }
        }
        i = i + 1;
    }
    proof {
        if k < entries.len() {
            assert(entries@.subrange(k as int, entries.len() as int) =~= entries@.skip(k as int));
        }
    }
}

impl Node {
    /// Creates a new Node initialized as a Follower with term 0 and an empty log.
    pub fn new() -> (node: Self)
        ensures
            node@ == initial_node(),
            node.current_term == 0,
            node.voted_for == None::<u64>,
            node.log@.len() == 0,
            node.role == Role::Follower,
    {
        Node { current_term: 0, voted_for: None, log: Vec::new(), role: Role::Follower }
    }

    /// Handles an incoming RequestVote RPC.
    ///
    /// A newer term is adopted first (the vote is cleared and the node steps
    /// down to Follower). The vote is granted only when the request's term
    /// is not older, the node has not voted for a different candidate in
    /// this term, and the candidate's log is at least as up-to-date as the
    /// node's own. Returns `true` if the vote is granted.
    pub fn handle_request_vote(&mut self, req: &RequestVote) -> (granted: bool)
        ensures
            granted == vote_granted(old(self)@, *req),
            final(self)@ == after_request_vote(old(self)@, *req),
    {
        if req.term > self.current_term {
            self.current_term = req.term;
            self.voted_for = None;
            self.role = Role::Follower;
        }
        if req.term < self.current_term {
            return false;
        }
        match self.voted_for {
            Some(c) => {
                if c != req.candidate_id {
                    return false;
                }
            },
            None => {},
        }
        let n = self.log.len();
        let (last_log_index, last_log_term): (u64, u64) = if n == 0 {
            (0, 0)
        } else {
            (n as u64, self.log[n - 1].term)
        };
        let is_up_to_date = req.last_log_term > last_log_term || (req.last_log_term
            == last_log_term && req.last_log_index >= last_log_index);
        if !is_up_to_date {
            return false;
        }
        self.voted_for = Some(req.candidate_id);
        true
    }

    /// Handles an incoming AppendEntries RPC.
    ///
    /// Rejects the request when its term is older than the node's (nothing
    /// changes then). Otherwise adopts the term (clearing the vote when it is
    /// newer) and steps down to Follower; rejects it when the log is missing
    /// `prev_log_index` or the term there is not `prev_log_term`; and else
    /// merges the entries into the log (see `merge_entries`) and returns `true`.
    pub fn handle_append_entries(&mut self, req: &AppendEntries) -> (accepted: bool)
        ensures
            accepted == append_accepted(old(self)@, *req),
            final(self)@ == after_append_entries(old(self)@, *req),
    {
        if req.term < self.current_term {
            return false;
        }
        if req.term > self.current_term {
            self.current_term = req.term;
            self.voted_for = None;
        }
        self.role = Role::Follower;

        if req.prev_log_index > 0 {
            if req.prev_log_index > self.log.len() as u64 {
                return false;
            }
            let prev_term = self.log[(req.prev_log_index - 1) as usize].term;
            if prev_term != req.prev_log_term {
                return false;
            }
        }
        merge_into(&mut self.log, req.prev_log_index as usize, &req.entries);
        true
    }
}

} // verus!
