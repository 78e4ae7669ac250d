use vstd::prelude::*;

use crate::model::{
    after_append_entries, after_request_vote, append_accepted,
    candidate_log_up_to_date, first_disagreement, lemma_first_disagreement, merge_entries,
    prev_entry_matches, term_agrees, vote_granted,
};
use crate::types::{AppendEntries, LogEntry, NodeView, RequestVote, Role};

verus! {

/// Neither handler ever lowers a node's term: RequestVote leaves it at the
/// larger of the node's and the request's term, AppendEntries never below
/// the node's.
pub proof fn term_never_decreases(node: NodeView, vote: RequestVote, append: AppendEntries)
    ensures
        after_request_vote(node, vote).current_term == if vote.term > node.current_term {
            vote.term
        } else {
            node.current_term
        },
        after_append_entries(node, append).current_term >= node.current_term,
{
}

/// A request from an older term is refused and leaves the node as it was,
/// for both RPCs.
pub proof fn stale_request_changes_nothing(node: NodeView, vote: RequestVote, append: AppendEntries)
    ensures
        vote.term < node.current_term ==> !vote_granted(node, vote) && after_request_vote(
            node,
            vote,
        ) == node,
        append.term < node.current_term ==> !append_accepted(node, append)
            && after_append_entries(node, append) == node,
{
}

/// Handling a RequestVote never touches the log.
pub proof fn request_vote_keeps_log(node: NodeView, vote: RequestVote)
    ensures
        after_request_vote(node, vote).log == node.log,
{
}

/// A granted vote is recorded for the candidate in the request's term, and
/// only goes to a candidate whose log is at least as up-to-date as the
/// voter's.
pub proof fn granted_vote_is_recorded(node: NodeView, vote: RequestVote)
    ensures
        vote_granted(node, vote) ==> {
            let after = after_request_vote(node, vote);
            &&& after.voted_for == Some(vote.candidate_id)
            &&& after.current_term == vote.term
            &&& candidate_log_up_to_date(vote, node.log)
        },
{
}

/// Once a node has voted in a term, the vote stands for as long as the node
/// stays in that term, whichever RPC it handles next.
pub proof fn vote_stands_within_term(
    node: NodeView,
    candidate: u64,
    vote: RequestVote,
    append: AppendEntries,
)
    ensures
        node.voted_for == Some(candidate) && after_request_vote(node, vote).current_term
            == node.current_term ==> after_request_vote(node, vote).voted_for == Some(candidate),
        node.voted_for == Some(candidate) && after_append_entries(node, append).current_term
            == node.current_term ==> after_append_entries(node, append).voted_for == Some(
            candidate,
        ),
{
}

/// A node grants its vote to at most one candidate per term: of two votes
/// granted one after the other in the same term, both go to the same
/// candidate.
pub proof fn at_most_one_vote_per_term(node: NodeView, first: RequestVote, second: RequestVote)
    ensures
        vote_granted(node, first) && vote_granted(after_request_vote(node, first), second)
            && first.term == second.term ==> first.candidate_id == second.candidate_id,
{
}

/// Asking again for a vote that was granted is granted again and changes
/// nothing more.
pub proof fn repeated_vote_request_is_idempotent(node: NodeView, vote: RequestVote)
    ensures
        vote_granted(node, vote) ==> vote_granted(after_request_vote(node, vote), vote)
            && after_request_vote(after_request_vote(node, vote), vote) == after_request_vote(
            node,
            vote,
        ),
{
}

/// Any AppendEntries of the node's term or a newer one makes the node a
/// Follower in the request's term, whether or not the entries are taken.
pub proof fn current_append_steps_down(node: NodeView, append: AppendEntries)
    ensures
        append.term >= node.current_term ==> after_append_entries(node, append).role
            == Role::Follower && after_append_entries(node, append).current_term == append.term,
{
}

/// A refused AppendEntries leaves the log as it was.
pub proof fn refused_append_keeps_log(node: NodeView, append: AppendEntries)
    ensures
        !append_accepted(node, append) ==> after_append_entries(node, append).log == node.log,
{
}

/// An accepted heartbeat (no entries) leaves the log as it was.
pub proof fn heartbeat_keeps_log(node: NodeView, append: AppendEntries)
    ensures
        append_accepted(node, append) && append.entries@.len() == 0 ==> after_append_entries(
            node,
            append,
        ).log == node.log,
{
    if append_accepted(node, append) && append.entries@.len() == 0 {
        assert(first_disagreement(node.log, append.prev_log_index as int, append.entries@, 0)
            == 0);
    }
}

/// The shape of a merged log: it keeps every entry before `start`, holds
/// the terms of `entries` from `start` on, and anything beyond those is what
/// the log held there before.
proof fn lemma_merge_shape(log: Seq<LogEntry>, start: int, entries: Seq<LogEntry>)
    requires
        0 <= start <= log.len(),
    ensures
        merge_entries(log, start, entries).len() >= start + entries.len(),
        forall|j: int| 0 <= j < start ==> merge_entries(log, start, entries)[j] == log[j],
        forall|i: int|
            0 <= i < entries.len() ==> #[trigger] merge_entries(log, start, entries)[start
                + i].term == entries[i].term,
        forall|j: int|
            start + entries.len() <= j < merge_entries(log, start, entries).len() ==> merge_entries(
                log,
                start,
                entries,
            )[j] == log[j],
{
    lemma_first_disagreement(log, start, entries, 0);
    let k = first_disagreement(log, start, entries, 0);
    if k >= entries.len() {
        if entries.len() > 0 {
            assert(term_agrees(log, start, entries, entries.len() - 1));
        }
        assert forall|i: int| 0 <= i < entries.len() implies #[trigger] merge_entries(
            log,
            start,
            entries,
        )[start + i].term == entries[i].term by {
            assert(term_agrees(log, start, entries, i));
        }
    } else {
        if k > 0 {
            assert(term_agrees(log, start, entries, k - 1));
        }
        let m = merge_entries(log, start, entries);
        assert(m == log.take(start + k) + entries.skip(k as int));
        assert forall|i: int| 0 <= i < entries.len() implies #[trigger] m[start + i].term
            == entries[i].term by {
            if i < k {
                assert(term_agrees(log, start, entries, i));
            }
        }
    }
}

/// A log into which `entries` were merged from `start` already holds them:
/// merging them again changes nothing.
proof fn lemma_merge_idempotent(log: Seq<LogEntry>, start: int, entries: Seq<LogEntry>)
    requires
        0 <= start <= log.len(),
    ensures
        merge_entries(merge_entries(log, start, entries), start, entries) == merge_entries(
            log,
            start,
            entries,
        ),
{
    let m = merge_entries(log, start, entries);
    lemma_merge_shape(log, start, entries);
    lemma_first_disagreement(m, start, entries, 0);
    let k = first_disagreement(m, start, entries, 0);
    if k < entries.len() {
        assert(m[start + k].term == entries[k as int].term);
        assert(term_agrees(m, start, entries, k as int));
    }
}

/// An accepted AppendEntries makes the node a Follower in the request's
/// term, keeps the log before `prev_log_index`, places entries of the sent
/// terms at `prev_log_index ..`, and keeps beyond them only what was there.
pub proof fn accepted_append_places_entries(node: NodeView, append: AppendEntries)
    ensures
        append_accepted(node, append) ==> {
            let after = after_append_entries(node, append);
            let prev = append.prev_log_index as int;
            let entries = append.entries@;
            &&& after.current_term == append.term
            &&& after.role == Role::Follower
            &&& after.log.len() >= prev + entries.len()
            &&& forall|j: int| 0 <= j < prev ==> after.log[j] == node.log[j]
            &&& forall|i: int|
                0 <= i < entries.len() ==> #[trigger] after.log[prev + i].term == entries[i].term
            &&& forall|j: int| prev + entries.len() <= j < after.log.len() ==> after.log[j] == node.log[j]
        },
{
    if append_accepted(node, append) {
        lemma_merge_shape(node.log, append.prev_log_index as int, append.entries@);
    }
}

/// Handling the same accepted AppendEntries twice leaves the node as
/// handling it once: the second copy is accepted too, and changes nothing.
pub proof fn append_is_idempotent(node: NodeView, append: AppendEntries)
    ensures
        append_accepted(node, append) ==> append_accepted(
            after_append_entries(node, append),
            append,
        ) && after_append_entries(after_append_entries(node, append), append)
            == after_append_entries(node, append),
{
    if append_accepted(node, append) {
        let prev = append.prev_log_index as int;
        lemma_merge_shape(node.log, prev, append.entries@);
        lemma_merge_idempotent(node.log, prev, append.entries@);
        let after = after_append_entries(node, append);
        if prev > 0 {
            assert(after.log[prev - 1] == node.log[prev - 1]);
        }
        assert(prev_entry_matches(after.log, append.prev_log_index, append.prev_log_term));
    }
}

/// When the vote is granted, stated over the node and the request alone: the
/// request's term is not older than the node's; if it is the node's own
/// term, the node has not voted, or voted for this same candidate; and the
/// candidate's last log term is later than the term of the node's last
/// entry (0 for an empty log), or equal to it with a last index at least
/// the length of the node's log.
pub proof fn vote_decision(node: NodeView, vote: RequestVote)
    ensures
        vote_granted(node, vote) <==> {
            let own_last_term: u64 = if node.log.len() == 0 {
                0
            } else {
                node.log[node.log.len() - 1].term
            };
            &&& vote.term >= node.current_term
            &&& vote.term == node.current_term ==> (node.voted_for == None::<u64>
                || node.voted_for == Some(vote.candidate_id))
            &&& (vote.last_log_term > own_last_term || (vote.last_log_term == own_last_term
                && vote.last_log_index >= node.log.len()))
        },
{
}

/// What a RequestVote does to term, role and vote: a newer term is adopted
/// and makes the node a Follower; a term that is not newer leaves term and
/// role as they were. The vote becomes the candidate when granted, is
/// cleared when the term is newer and the vote refused, and is kept
/// otherwise.
pub proof fn request_vote_term_role_and_vote(node: NodeView, vote: RequestVote)
    ensures
        vote.term <= node.current_term ==> after_request_vote(node, vote).current_term
            == node.current_term && after_request_vote(node, vote).role == node.role,
        vote.term > node.current_term ==> after_request_vote(node, vote).current_term == vote.term
            && after_request_vote(node, vote).role == Role::Follower,
        after_request_vote(node, vote).voted_for == if vote_granted(node, vote) {
            Some(vote.candidate_id)
        } else if vote.term > node.current_term {
            None
        } else {
            node.voted_for
        },
{
}

/// When an AppendEntries is accepted, stated over the node and the request
/// alone: its term is not older than the node's, and either it starts at
/// the head of the log (`prev_log_index == 0`) or the log holds an entry at
/// `prev_log_index` (1-based) whose term is `prev_log_term`. A refused one
/// leaves the log as it was.
pub proof fn append_acceptance(node: NodeView, append: AppendEntries)
    ensures
        append_accepted(node, append) <==> {
            &&& append.term >= node.current_term
            &&& (append.prev_log_index == 0 || (append.prev_log_index <= node.log.len()
                && node.log[append.prev_log_index - 1].term == append.prev_log_term))
        },
        !append_accepted(node, append) ==> after_append_entries(node, append).log == node.log,
{
}

/// What an AppendEntries does to term, role and vote, whether or not it is
/// accepted: an older one changes nothing; a newer term is adopted with the
/// vote cleared; the node's own term keeps the vote; and either way the node
/// becomes a Follower.
pub proof fn append_term_role_and_vote(node: NodeView, append: AppendEntries)
    ensures
        append.term > node.current_term ==> {
            let after = after_append_entries(node, append);
            &&& after.current_term == append.term
            &&& after.voted_for == None::<u64>
            &&& after.role == Role::Follower
        },
        append.term == node.current_term ==> {
            let after = after_append_entries(node, append);
            &&& after.current_term == node.current_term
            &&& after.voted_for == node.voted_for
            &&& after.role == Role::Follower
        },
        append.term < node.current_term ==> after_append_entries(node, append) == node,
{
}

/// Sent entry `i`, placed at `start + i`, is already in `log` with the same
/// term.
pub open spec fn already_held(log: Seq<LogEntry>, start: int, entries: Seq<LogEntry>, i: int) -> bool {
    start + i < log.len() && log[start + i].term == entries[i].term
}

/// An accepted AppendEntries only cuts the log at a conflict: when every
/// sent entry already sits at its position with the same term, the log is
/// unchanged; and an entry of the log is kept whenever no sent entry at or
/// before its position conflicts with the log.
pub proof fn append_cuts_only_at_conflict(node: NodeView, append: AppendEntries)
    ensures
        append_accepted(node, append) ==> {
            let after = after_append_entries(node, append);
            let p = append.prev_log_index as int;
            let e = append.entries@;
            &&& (forall|i: int| 0 <= i < e.len() ==> #[trigger] already_held(node.log, p, e, i))
                ==> after.log == node.log
            &&& forall|j: int|
                0 <= j < node.log.len() && (forall|i: int|
                    0 <= i < e.len() && p + i <= j ==> #[trigger] already_held(node.log, p, e, i))
                    ==> j < after.log.len() && #[trigger] after.log[j] == node.log[j]
        },
{
    if append_accepted(node, append) {
        let log = node.log;
        let p = append.prev_log_index as int;
        let e = append.entries@;
        let after = after_append_entries(node, append);
        lemma_first_disagreement(log, p, e, 0);
        let k = first_disagreement(log, p, e, 0);
        if k >= e.len() {
            assert(after.log == log);
        } else {
            assert(!term_agrees(log, p, e, k as int));
            assert(!already_held(log, p, e, k as int));
            if k > 0 {
                assert(term_agrees(log, p, e, k - 1));
            }
            assert(after.log == log.take(p + k) + e.skip(k as int));
            assert forall|j: int|
                0 <= j < log.len() && (forall|i: int|
                    0 <= i < e.len() && p + i <= j ==> #[trigger] already_held(log, p, e, i))
                    implies j < after.log.len() && #[trigger] after.log[j] == log[j] by {
                if p + k <= j {
                    assert(already_held(log, p, e, k as int));
                }
            }
        }
    }
}

/// The log after an accepted AppendEntries that conflicts with the log
/// somewhere: it ends right after the sent entries; a sent position up to
/// which every sent entry is already held keeps the log's entry; from the
/// first sent entry that is not, the sent entries stand.
pub proof fn append_log_after_conflict(node: NodeView, append: AppendEntries)
    ensures
        append_accepted(node, append) && !(forall|i: int|
            0 <= i < append.entries@.len() ==> #[trigger] already_held(
                node.log,
                append.prev_log_index as int,
                append.entries@,
                i,
            )) ==> {
            let after = after_append_entries(node, append);
            let p = append.prev_log_index as int;
            let e = append.entries@;
            &&& after.log.len() == p + e.len()
            &&& forall|i: int|
                0 <= i < e.len() ==> if (forall|h: int|
                    0 <= h <= i ==> #[trigger] already_held(node.log, p, e, h)) {
                    #[trigger] after.log[p + i] == node.log[p + i]
                } else {
                    after.log[p + i] == e[i]
                }
        },
{
    let log = node.log;
    let p = append.prev_log_index as int;
    let e = append.entries@;
    if append_accepted(node, append) && !(forall|i: int|
        0 <= i < e.len() ==> #[trigger] already_held(log, p, e, i)) {
        let after = after_append_entries(node, append);
        lemma_first_disagreement(log, p, e, 0);
        let k = first_disagreement(log, p, e, 0);
        if k >= e.len() {
            assert forall|i: int| 0 <= i < e.len() implies #[trigger] already_held(log, p, e, i) by {
                assert(term_agrees(log, p, e, i));
            }
            assert(false);
        }
        assert(!term_agrees(log, p, e, k as int));
        if k > 0 {
            assert(term_agrees(log, p, e, k - 1));
        }
        assert(after.log == log.take(p + k) + e.skip(k as int));
        assert forall|i: int| 0 <= i < e.len() implies if (forall|h: int|
            0 <= h <= i ==> #[trigger] already_held(log, p, e, h)) {
            #[trigger] after.log[p + i] == log[p + i]
        } else {
            after.log[p + i] == e[i]
        } by {
            if i < k {
                assert forall|h: int| 0 <= h <= i implies #[trigger] already_held(log, p, e, h) by {
                    assert(term_agrees(log, p, e, h));
                }
            } else {
                assert(!already_held(log, p, e, k as int));
            }
        }
    }
}

} // verus!
