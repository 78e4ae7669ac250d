use vstd::prelude::*;

use crate::types::{AppendEntries, LogEntry, NodeView, RequestVote, Role};

verus! {

/// The node a fresh process starts from: term 0, no vote, empty log, Follower.
pub open spec fn initial_node() -> NodeView {
    NodeView { current_term: 0, voted_for: None, log: Seq::empty(), role: Role::Follower }
}

// ---------------------------------------------------------------------------
// RequestVote
// ---------------------------------------------------------------------------

/// Term of the last entry of `log`, or 0 for an empty log.
pub open spec fn last_log_term(log: Seq<LogEntry>) -> u64 {
    if log.len() == 0 {
        0
    } else {
        log.last().term
    }
}

/// The candidate's log, as described by `req`, is at least as up-to-date as
/// `log`: its last term is higher, or equal with an index at least the
/// length of `log`.
pub open spec fn candidate_log_up_to_date(req: RequestVote, log: Seq<LogEntry>) -> bool {
    ||| req.last_log_term > last_log_term(log)
    ||| (req.last_log_term == last_log_term(log) && req.last_log_index >= log.len())
}

/// A node in state `node` grants its vote on `req`: the request's term is
/// not older, the node has not voted for another candidate in that term, and
/// the candidate's log is at least as up-to-date as the node's.
pub open spec fn vote_granted(node: NodeView, req: RequestVote) -> bool {
    &&& req.term >= node.current_term
    &&& req.term == node.current_term ==> (node.voted_for is None || node.voted_for
        == Some(req.candidate_id))
    &&& candidate_log_up_to_date(req, node.log)
}

/// The node after seeing a request of term `term` through RequestVote: a
/// newer term is adopted, the vote cleared and the node made a Follower.
pub open spec fn adopt_vote_term(node: NodeView, term: u64) -> NodeView {
    if term > node.current_term {
        NodeView { current_term: term, voted_for: None, role: Role::Follower, ..node }
    } else {
        node
    }
}

/// The node after handling `req`: it adopts a newer term, and records the
/// candidate as its vote when the vote is granted.
pub open spec fn after_request_vote(node: NodeView, req: RequestVote) -> NodeView {
    let stepped = adopt_vote_term(node, req.term);
    if vote_granted(node, req) {
        NodeView { voted_for: Some(req.candidate_id), ..stepped }
    } else {
        stepped
    }
}

// ---------------------------------------------------------------------------
// AppendEntries
// ---------------------------------------------------------------------------

/// The log holds the entry that precedes the new ones with the expected
/// term (always so for index 0, which stands for "before the first entry").
pub open spec fn prev_entry_matches(log: Seq<LogEntry>, prev_index: u64, prev_term: u64) -> bool {
    prev_index == 0 || (prev_index <= log.len() && log[prev_index - 1].term == prev_term)
}

/// A node in state `node` accepts `req`: its term is not older and the
/// log holds the preceding entry.
pub open spec fn append_accepted(node: NodeView, req: AppendEntries) -> bool {
    &&& req.term >= node.current_term
    &&& prev_entry_matches(node.log, req.prev_log_index, req.prev_log_term)
}

/// Entry `i` of `entries`, placed at position `start + i`, is already in
/// `log` with the same term.
pub open spec fn term_agrees(log: Seq<LogEntry>, start: int, entries: Seq<LogEntry>, i: int) -> bool {
    start + i < log.len() && log[start + i].term == entries[i].term
}

/// The first index at or after `i` of `entries` that does not agree with
/// `log` (see `term_agrees`), or `entries.len()` when there is none.
pub open spec fn first_disagreement(log: Seq<LogEntry>, start: int, entries: Seq<LogEntry>, i: nat) -> nat
    decreases entries.len() - i,
{
    if i >= entries.len() || !term_agrees(log, start, entries, i as int) {
        i
    } else {
        first_disagreement(log, start, entries, i + 1)
    }
}

/// `log` with `entries` stored from position `start` on: entries whose
/// position already holds an entry of the same term are kept as they are;
/// from the first one that does not, the log is cut there and the rest of
/// `entries` is appended.
pub open spec fn merge_entries(log: Seq<LogEntry>, start: int, entries: Seq<LogEntry>) -> Seq<LogEntry> {
    let k = first_disagreement(log, start, entries, 0);
    if k >= entries.len() {
        log
    } else {
        log.take(start + k) + entries.skip(k as int)
    }
}

/// The node after handling `req`. An older request changes nothing.
/// Otherwise the node adopts the request's term (clearing its vote when the
/// term is newer) and becomes a Follower; when the preceding entry matches,
/// the entries are merged into the log.
pub open spec fn after_append_entries(node: NodeView, req: AppendEntries) -> NodeView {
    if req.term < node.current_term {
        node
    } else {
        let stepped = NodeView {
            current_term: req.term,
            voted_for: if req.term > node.current_term {
                None
            } else {
                node.voted_for
            },
            role: Role::Follower,
            log: node.log,
        };
        if prev_entry_matches(node.log, req.prev_log_index, req.prev_log_term) {
            NodeView {
                log: merge_entries(node.log, req.prev_log_index as int, req.entries@),
                ..stepped
            }
        } else {
            stepped
        }
    }
}

/// The shape of `first_disagreement`: every index before it agrees, and
/// the index itself, when inside `entries`, does not.
pub proof fn lemma_first_disagreement(log: Seq<LogEntry>, start: int, entries: Seq<LogEntry>, i: nat)
    requires
        i <= entries.len(),
    ensures
        i <= first_disagreement(log, start, entries, i) <= entries.len(),
        forall|j: int|
            i <= j < first_disagreement(log, start, entries, i) ==> #[trigger] term_agrees(
                log,
                start,
                entries,
                j,
            ),
        first_disagreement(log, start, entries, i) < entries.len() ==> !term_agrees(
            log,
            start,
            entries,
            first_disagreement(log, start, entries, i) as int,
        ),
    decreases entries.len() - i,
{
    if i < entries.len() && term_agrees(log, start, entries, i as int) {
        lemma_first_disagreement(log, start, entries, i + 1);
    }
}

} // verus!
