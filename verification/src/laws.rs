//! What holds of every ballot, proved over the model.

use vstd::prelude::*;
use crate::model::{BallotState, Op};
use crate::names::{lemma_push_fresh, Name};
use crate::Error;

verus! {

/// Registering a candidate a second time changes nothing: after the first
/// registration the candidate is known, and the list of candidates keeps its
/// length and its order.
pub proof fn law_registration_is_idempotent(s: BallotState, candidate: Name)
    ensures
        s.with_party(candidate).parties.contains(candidate),
        s.with_party(candidate).with_party(candidate) == s.with_party(candidate),
        s.with_party(candidate).with_party(candidate).parties.len() == s.with_party(
            candidate,
        ).parties.len(),
{
    if !s.parties.contains(candidate) {
        let pushed = s.parties.push(candidate);
        assert(pushed[s.parties.len() as int] == candidate);
    }
}

/// An accepted vote adds the voter's weight to the counter of the candidate
/// voted for and leaves every other counter as it was.
pub proof fn law_vote_counts_weight(s: BallotState, voter: Name, candidate: Name, other: Name)
    ensures
        s.after_vote(voter, candidate).tally(candidate) == s.tally(candidate) + 1 + s.incoming(
            voter,
        ).len(),
        other != candidate ==> s.after_vote(voter, candidate).tally(other) == s.tally(other),
{
}

/// No operation undoes a vote or a delegation, or lowers a counter: whoever
/// has voted has voted after `op` too, whoever has delegated has delegated, a
/// voter holds at least the delegations that they held, and a candidate has
/// at least the votes that it had.
pub proof fn law_step_keeps_history(s: BallotState, op: Op, v: Name, candidate: Name)
    ensures
        s.has_voted(v) ==> s.step(op).has_voted(v),
        s.is_delegated(v) ==> s.step(op).is_delegated(v),
        s.incoming(v).len() <= s.step(op).incoming(v).len(),
        s.tally(candidate) <= s.step(op).tally(candidate),
        s.parties.contains(candidate) ==> s.step(op).parties.contains(candidate),
{
    let t = s.step(op);
    if s.has_voted(v) {
        let i = choose|i: int| 0 <= i < s.votes.len() && s.votes[i] == v;
        assert(t.votes[i] == v);
    }
    if s.is_delegated(v) {
        let i = choose|i: int| 0 <= i < s.dvotes.len() && s.dvotes[i] == v;
        assert(t.dvotes[i] == v);
    }
    if s.parties.contains(candidate) {
        let i = choose|i: int| 0 <= i < s.parties.len() && s.parties[i] == candidate;
        assert(t.parties[i] == candidate);
    }
}

/// The same over any sequence of operations.
pub proof fn law_run_keeps_history(s: BallotState, ops: Seq<Op>, v: Name, candidate: Name)
    ensures
        s.has_voted(v) ==> s.run(ops).has_voted(v),
        s.is_delegated(v) ==> s.run(ops).is_delegated(v),
        s.incoming(v).len() <= s.run(ops).incoming(v).len(),
        s.tally(candidate) <= s.run(ops).tally(candidate),
        s.parties.contains(candidate) ==> s.run(ops).parties.contains(candidate),
    decreases ops.len(),
{
    if ops.len() > 0 {
        law_run_keeps_history(s, ops.drop_last(), v, candidate);
        law_step_keeps_history(s.run(ops.drop_last()), ops.last(), v, candidate);
    }
}

/// Once a voter has voted, nothing that follows makes them a delegator or
/// changes the delegations that they hold: the weight of their vote is the
/// weight that they keep.
pub proof fn law_vote_is_final(s: BallotState, ops: Seq<Op>, voter: Name)
    requires
        s.has_voted(voter),
        !s.is_delegated(voter),
    ensures
        s.run(ops).has_voted(voter),
        !s.run(ops).is_delegated(voter),
        s.run(ops).incoming(voter) == s.incoming(voter),
    decreases ops.len(),
{
    if ops.len() > 0 {
        let before = s.run(ops.drop_last());
        law_vote_is_final(s, ops.drop_last(), voter);
        law_step_keeps_history(before, ops.last(), voter, voter);
        match ops.last() {
            Op::Delegate { now, origin, target } => {
                lemma_push_fresh(before.dvotes, origin);
            },
            _ => {},
        }
    }
}

/// The life of a voter. A fresh voter becomes one that has voted by an
/// accepted vote of theirs, one that has delegated by an accepted delegation
/// of theirs, and stays fresh under every other operation; a voter that has
/// voted or delegated stays what they are, whatever is asked.
pub proof fn law_voter_states(s: BallotState, op: Op, v: Name)
    ensures
        s.voter_state(v) is Voted ==> s.step(op).voter_state(v) is Voted,
        s.voter_state(v) is DelegatedOut ==> s.step(op).voter_state(v) is DelegatedOut,
        s.voter_state(v) is Fresh ==> match op {
            Op::Configure { from, to } => s.step(op).voter_state(v) is Fresh,
            Op::Vote { now, voter, candidate } => if voter == v && s.accepts(now) {
                s.step(op).voter_state(v) is Voted
            } else {
                s.step(op).voter_state(v) is Fresh
            },
            Op::Delegate { now, origin, target } => if origin == v && s.delegate_error(
                now,
                origin,
                target,
            ) is None {
                s.step(op).voter_state(v) is DelegatedOut
            } else {
                s.step(op).voter_state(v) is Fresh
            },
        },
{
    law_step_keeps_history(s, op, v, v);
    match op {
        Op::Configure { from, to } => {},
        Op::Vote { now, voter, candidate } => {
            lemma_push_fresh(s.votes, voter);
        },
        Op::Delegate { now, origin, target } => {
            lemma_push_fresh(s.dvotes, origin);
        },
    }
}

/// No double voting. Once a vote of `voter` is accepted, whatever operations
/// follow, a further vote of that voter is refused at any time and for any
/// candidate: as already cast, where the time is within the window. The
/// refused vote changes nothing, so the candidate's tally stays.
pub proof fn law_no_double_voting(
    s: BallotState,
    now: u64,
    voter: Name,
    candidate: Name,
    ops: Seq<Op>,
    later: u64,
    other: Name,
)
    requires
        s.vote_error(now, voter) is None,
    ensures
        ({
            let t = s.after_vote(voter, candidate).run(ops);
            let again = Op::Vote { now: later, voter, candidate: other };
            &&& t.vote_error(later, voter) is Some
            &&& t.accepts(later) ==> t.vote_error(later, voter) == Some(
                Error::VoterHasAlreadyVoted,
            )
            &&& t.step(again) == t
            &&& t.step(again).tally(other) == t.tally(other)
        }),
{
    let voted = s.after_vote(voter, candidate);
    lemma_push_fresh(s.votes, voter);
    law_vote_is_final(voted, ops, voter);
}

/// Mutual exclusion, first half. Once a vote of `voter` is accepted,
/// whatever operations follow, every delegation from that voter is refused,
/// and so is every delegation to them.
pub proof fn law_vote_excludes_delegation(
    s: BallotState,
    now: u64,
    voter: Name,
    candidate: Name,
    ops: Seq<Op>,
    later: u64,
    other: Name,
)
    requires
        s.vote_error(now, voter) is None,
    ensures
        s.after_vote(voter, candidate).run(ops).delegate_error(later, voter, other) is Some,
        s.after_vote(voter, candidate).run(ops).delegate_error(later, other, voter) is Some,
{
    let voted = s.after_vote(voter, candidate);
    lemma_push_fresh(s.votes, voter);
    law_vote_is_final(voted, ops, voter);
}

/// Mutual exclusion, second half. Once a delegation from `origin` is
/// accepted, whatever operations follow, every vote of `origin` is refused:
/// as delegated, where the time is within the window. So is every further
/// delegation from `origin` and every delegation to them.
pub proof fn law_delegation_excludes_vote(
    s: BallotState,
    now: u64,
    origin: Name,
    target: Name,
    ops: Seq<Op>,
    later: u64,
    other: Name,
)
    requires
        s.delegate_error(now, origin, target) is None,
    ensures
        ({
            let t = s.after_delegate(origin, target).run(ops);
            &&& t.vote_error(later, origin) is Some
            &&& t.accepts(later) ==> t.vote_error(later, origin) == Some(
                Error::VoterHasHisVoteDelegated,
            )
            &&& t.delegate_error(later, origin, other) is Some
            &&& t.delegate_error(later, other, origin) is Some
        }),
{
    let delegated = s.after_delegate(origin, target);
    lemma_push_fresh(s.dvotes, origin);
    law_run_keeps_history(delegated, ops, origin, origin);
}

/// Delegation folds weight. Where a delegation from `origin` to `target` is
/// accepted and, next, a vote of `target` for `candidate`, the candidate's
/// tally grows by two and by one more for each delegation that `target` held
/// before: on a new ballot the tally is two.
pub proof fn law_delegation_folds_weight(
    s: BallotState,
    now: u64,
    origin: Name,
    target: Name,
    later: u64,
    candidate: Name,
)
    requires
        s.delegate_error(now, origin, target) is None,
        s.after_delegate(origin, target).vote_error(later, target) is None,
    ensures
        s.after_delegate(origin, target).after_vote(target, candidate).tally(candidate)
            == s.tally(candidate) + 2 + s.incoming(target).len(),
        s == BallotState::empty() ==> s.after_delegate(origin, target).after_vote(
            target,
            candidate,
        ).tally(candidate) == 2,
{
}

/// The same with operations in between: a vote of one to whom somebody has
/// delegated, whenever it is accepted, counts for two ballots at least.
pub proof fn law_delegated_vote_counts_twice(
    s: BallotState,
    now: u64,
    origin: Name,
    target: Name,
    ops: Seq<Op>,
    later: u64,
    candidate: Name,
)
    requires
        s.delegate_error(now, origin, target) is None,
        s.after_delegate(origin, target).run(ops).vote_error(later, target) is None,
    ensures
        ({
            let t = s.after_delegate(origin, target).run(ops);
            t.after_vote(target, candidate).tally(candidate) >= t.tally(candidate) + 2
        }),
{
    law_run_keeps_history(s.after_delegate(origin, target), ops, target, candidate);
}

/// Delegation depth cap. Once a delegation to `target` is accepted, whatever
/// operations follow, every delegation from `target` is refused. Where no
/// earlier check refuses it (the time is within the window, and neither
/// `target` nor `next` has voted or delegated), it is refused because
/// `target` holds delegations.
pub proof fn law_delegation_depth_cap(
    s: BallotState,
    now: u64,
    origin: Name,
    target: Name,
    ops: Seq<Op>,
    later: u64,
    next: Name,
)
    requires
        s.delegate_error(now, origin, target) is None,
    ensures
        ({
            let t = s.after_delegate(origin, target).run(ops);
            &&& t.delegate_error(later, target, next) is Some
            &&& t.accepts(later) && !t.has_voted(target) && !t.has_voted(next) && !t.is_delegated(
                target,
            ) && !t.is_delegated(next) ==> t.delegate_error(later, target, next) == Some(
                Error::VoterHasDelegatedVotes,
            )
        }),
{
    law_run_keeps_history(s.after_delegate(origin, target), ops, target, target);
}

/// Window enforcement. Once a window other than `{0, 0}` is configured, a
/// vote or a delegation at a time before `from` or after `to` is refused as
/// out of date, whoever it names; with `{0, 0}` no time is out of date.
pub proof fn law_window_is_enforced(
    s: BallotState,
    from: u64,
    to: u64,
    now: u64,
    voter: Name,
    other: Name,
)
    ensures
        ({
            let t = s.configured(from, to);
            &&& t.accepts(now) <==> (from == 0 && to == 0) || (from <= now && now <= to)
            &&& !t.accepts(now) ==> t.vote_error(now, voter) == Some(Error::BallotOutOfDate)
            &&& !t.accepts(now) ==> t.delegate_error(now, voter, other) == Some(
                Error::BallotOutOfDate,
            )
        }),
{
}

/// The tally of a candidate is the sum of the weights of the votes accepted
/// for it, each weight taken at the time of its vote: no other operation
/// touches a counter.
pub proof fn law_tally_is_sum_of_weights(s: BallotState, ops: Seq<Op>, candidate: Name)
    ensures
        s.run(ops).tally(candidate) == s.tally(candidate) + s.credited(ops, candidate),
    decreases ops.len(),
{
    if ops.len() > 0 {
        law_tally_is_sum_of_weights(s, ops.drop_last(), candidate);
    }
}

} // verus!
