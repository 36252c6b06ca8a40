//! The invariants of a ballot and the account of its tallies, and the
//! proofs that every operation keeps them.

use vstd::prelude::*;
use crate::model::{BallotState, Op};
use crate::names::{lemma_push_fresh, Name};

verus! {

/// A new ballot meets the invariants, and its tallies account for its
/// votes: there are none of either.
pub proof fn law_new_ballot_is_sound()
    ensures
        BallotState::empty().wf(),
        BallotState::empty().balanced(),
{
}

/// An accepted vote keeps the invariants.
pub proof fn law_vote_keeps_wf(s: BallotState, now: u64, voter: Name, candidate: Name)
    requires
        s.wf(),
        s.vote_error(now, voter) is None,
    ensures
        s.after_vote(voter, candidate).wf(),
{
    let t = s.after_vote(voter, candidate);
    lemma_push_fresh(s.votes, voter);
    lemma_push_fresh(s.parties, candidate);
    assert forall|v: Name| t.incoming(v) == s.incoming(v) by {}
    assert forall|v: Name| t.is_delegated(v) == s.is_delegated(v) by {}
    assert(t.votes_exclude_delegations()) by {
        assert forall|v: Name| !(#[trigger] t.has_voted(v) && t.is_delegated(v)) by {
            assert(t.votes == s.votes.push(voter));
            if t.has_voted(v) && v != voter {
                assert(s.has_voted(v));
            }
        }
    }
    assert(t.edges_have_origins());
    assert(t.origins_have_edges()) by {
        assert forall|v: Name| #[trigger] t.is_delegated(v) implies exists|x: Name| #[trigger]
            t.incoming(x).contains(v) by {
            assert(s.is_delegated(v));
            let x = choose|x: Name| #[trigger] s.incoming(x).contains(v);
            assert(t.incoming(x).contains(v));
        }
    }
    assert(t.single_delegation());
    assert(t.delegators_hold_nothing());
    assert(t.counters_are_registered());
}

/// An accepted delegation keeps the invariants.
pub proof fn law_delegate_keeps_wf(s: BallotState, now: u64, origin: Name, target: Name)
    requires
        s.wf(),
        s.delegate_error(now, origin, target) is None,
    ensures
        s.after_delegate(origin, target).wf(),
{
    let t = s.after_delegate(origin, target);
    let held = s.incoming(target);
    lemma_push_fresh(s.dvotes, origin);
    lemma_push_fresh(held, origin);
    assert(t.dvotes == s.dvotes.push(origin));
    assert(t.incoming(target) == held.push(origin));
    assert forall|v: Name| v != target implies t.incoming(v) == s.incoming(v) by {}
    assert forall|v: Name| t.has_voted(v) == s.has_voted(v) by {}
    assert forall|v: Name| t.is_delegated(v) == (s.is_delegated(v) || v == origin) by {}
    assert forall|v: Name, i: int| 0 <= i < s.incoming(v).len() implies t.incoming(v)[i]
        == s.incoming(v)[i] by {}
    assert(t.votes_exclude_delegations());
    assert(t.edges_have_origins()) by {
        assert forall|v: Name, i: int| 0 <= i < t.incoming(v).len() implies t.is_delegated(
            #[trigger] t.incoming(v)[i],
        ) by {
            if i < s.incoming(v).len() {
                assert(s.is_delegated(s.incoming(v)[i]));
            }
        }
    }
    assert(t.origins_have_edges()) by {
        assert forall|v: Name| #[trigger] t.is_delegated(v) implies exists|x: Name| #[trigger]
            t.incoming(x).contains(v) by {
            if v == origin {
                assert(t.incoming(target).contains(v));
            } else {
                let x = choose|x: Name| #[trigger] s.incoming(x).contains(v);
                let i = choose|i: int| 0 <= i < s.incoming(x).len() && s.incoming(x)[i] == v;
                assert(t.incoming(x)[i] == v);
                assert(t.incoming(x).contains(v));
            }
        }
    }
    assert(t.single_delegation()) by {
        assert forall|t1: Name, i: int, t2: Name, j: int|
            0 <= i < t.incoming(t1).len() && 0 <= j < t.incoming(t2).len()
                && #[trigger] t.incoming(t1)[i] == #[trigger] t.incoming(t2)[j] implies t1 == t2
            && i == j by {
            let old_i = i < s.incoming(t1).len();
            let old_j = j < s.incoming(t2).len();
            if old_i && old_j {
                assert(s.incoming(t1)[i] == s.incoming(t2)[j]);
            } else if old_i {
                assert(s.is_delegated(s.incoming(t1)[i]));
            } else if old_j {
                assert(s.is_delegated(s.incoming(t2)[j]));
            }
        }
    }
    assert(t.delegators_hold_nothing()) by {
        assert forall|v: Name, i: int|
            t.is_delegated(v) && 0 <= i < t.incoming(v).len() implies #[trigger] t.incoming(v)[i]
            == v by {
            if v != origin {
                assert(s.incoming(v)[i] == v);
            }
        }
    }
    assert(t.counters_are_registered());
}

/// Every operation keeps the invariants, accepted or refused.
pub proof fn law_step_keeps_wf(s: BallotState, op: Op)
    requires
        s.wf(),
    ensures
        s.step(op).wf(),
{
    match op {
        Op::Configure { from, to } => {
            let t = s.configured(from, to);
            assert forall|v: Name| t.incoming(v) == s.incoming(v) by {}
            assert forall|v: Name| t.is_delegated(v) == s.is_delegated(v) by {}
            assert forall|v: Name| t.has_voted(v) == s.has_voted(v) by {}
            assert(t.origins_have_edges()) by {
                assert forall|v: Name| #[trigger] t.is_delegated(v) implies exists|x: Name|
                    #[trigger] t.incoming(x).contains(v) by {
                    let x = choose|x: Name| #[trigger] s.incoming(x).contains(v);
                    assert(t.incoming(x).contains(v));
                }
            }
        },
        Op::Vote { now, voter, candidate } => {
            if s.vote_error(now, voter) is None {
                law_vote_keeps_wf(s, now, voter, candidate);
            }
        },
        Op::Delegate { now, origin, target } => {
            if s.delegate_error(now, origin, target) is None {
                law_delegate_keeps_wf(s, now, origin, target);
            }
        },
    }
}

/// Whatever is asked of a ballot that meets the invariants, in whatever
/// order, the invariants hold afterwards.
pub proof fn law_run_keeps_wf(s: BallotState, ops: Seq<Op>)
    requires
        s.wf(),
    ensures
        s.run(ops).wf(),
    decreases ops.len(),
{
    if ops.len() > 0 {
        law_run_keeps_wf(s, ops.drop_last());
        law_step_keeps_wf(s.run(ops.drop_last()), ops.last());
    }
}

/// Two states with the same tallies for the candidates `parties` have the
/// same sum of them.
proof fn lemma_tally_sum_same(s: BallotState, t: BallotState, parties: Seq<Name>)
    requires
        forall|i: int| 0 <= i < parties.len() ==> s.tally(#[trigger] parties[i]) == t.tally(parties[i]),
    ensures
        s.tally_sum(parties) == t.tally_sum(parties),
    decreases parties.len(),
{
    if parties.len() > 0 {
        let rest = parties.drop_last();
        assert forall|i: int| 0 <= i < rest.len() implies s.tally(#[trigger] rest[i]) == t.tally(
            rest[i],
        ) by {
            assert(rest[i] == parties[i]);
        }
        lemma_tally_sum_same(s, t, rest);
        assert(parties.last() == parties[parties.len() - 1]);
    }
}

/// Where one of the candidates `parties`, which are all different, has `more`
/// votes in `t` than in `s` and the others have the same, the sum has `more`.
proof fn lemma_tally_sum_more(
    s: BallotState,
    t: BallotState,
    parties: Seq<Name>,
    candidate: Name,
    more: nat,
)
    requires
        parties.no_duplicates(),
        parties.contains(candidate),
        t.tally(candidate) == s.tally(candidate) + more,
        forall|c: Name| c != candidate ==> #[trigger] t.tally(c) == s.tally(c),
    ensures
        t.tally_sum(parties) == s.tally_sum(parties) + more,
    decreases parties.len(),
{
    let rest = parties.drop_last();
    let last = parties[parties.len() - 1];
    assert(parties.last() == last);
    assert forall|i: int| 0 <= i < rest.len() implies #[trigger] rest[i] == parties[i] by {}
    if last == candidate {
        assert forall|i: int| 0 <= i < rest.len() implies s.tally(#[trigger] rest[i]) == t.tally(
            rest[i],
        ) by {
            assert(rest[i] == parties[i]);
            assert(parties[i] != parties[parties.len() - 1]);
        }
        lemma_tally_sum_same(s, t, rest);
    } else {
        let k = choose|k: int| 0 <= k < parties.len() && parties[k] == candidate;
        assert(rest[k] == candidate);
        lemma_tally_sum_more(s, t, rest, candidate, more);
    }
}

/// Two states in which each of `voters` holds as many delegations have the
/// same sum of their weights.
proof fn lemma_weight_sum_same(s: BallotState, t: BallotState, voters: Seq<Name>)
    requires
        forall|i: int|
            0 <= i < voters.len() ==> s.weight(#[trigger] voters[i]) == t.weight(voters[i]),
    ensures
        s.weight_sum(voters) == t.weight_sum(voters),
    decreases voters.len(),
{
    if voters.len() > 0 {
        let rest = voters.drop_last();
        assert forall|i: int| 0 <= i < rest.len() implies s.weight(#[trigger] rest[i])
            == t.weight(rest[i]) by {
            assert(rest[i] == voters[i]);
        }
        lemma_weight_sum_same(s, t, rest);
        assert(voters.last() == voters[voters.len() - 1]);
    }
}

/// The tallies account for the votes, and stay so: where all tallies
/// together are the weights of the voters that have voted, they are after
/// any operation too. No vote that was accepted is left out of the tallies,
/// and nothing else is in them.
pub proof fn law_step_keeps_balance(s: BallotState, op: Op)
    requires
        s.wf(),
        s.balanced(),
    ensures
        s.step(op).balanced(),
{
    let t = s.step(op);
    match op {
        Op::Configure { from, to } => {
            lemma_tally_sum_same(s, t, s.parties);
            lemma_weight_sum_same(s, t, s.votes);
        },
        Op::Vote { now, voter, candidate } => {
            if s.vote_error(now, voter) is None {
                let weight = s.weight(voter);
                lemma_weight_sum_same(s, t, s.votes);
                assert(t.votes.drop_last() == s.votes);
                assert(t.votes.last() == voter);
                if s.parties.contains(candidate) {
                    lemma_tally_sum_more(s, t, s.parties, candidate, weight);
                } else {
                    assert forall|i: int| 0 <= i < s.parties.len() implies s.tally(
                        #[trigger] s.parties[i],
                    ) == t.tally(s.parties[i]) by {
                        assert(s.parties.contains(s.parties[i]));
                    }
                    lemma_tally_sum_same(s, t, s.parties);
                    assert(t.parties.drop_last() == s.parties);
                    assert(t.parties.last() == candidate);
                    assert(!s.counters.contains_key(candidate));
                }
            }
        },
        Op::Delegate { now, origin, target } => {
            if s.delegate_error(now, origin, target) is None {
                lemma_tally_sum_same(s, t, s.parties);
                assert forall|i: int| 0 <= i < s.votes.len() implies s.weight(
                    #[trigger] s.votes[i],
                ) == t.weight(s.votes[i]) by {
                    assert(s.votes.contains(s.votes[i]));
                }
                lemma_weight_sum_same(s, t, s.votes);
            }
        },
    }
}

/// Whatever is asked of a ballot that meets the invariants and whose tallies
/// account for its votes, in whatever order: the tallies account for the
/// votes afterwards.
pub proof fn law_run_keeps_balance(s: BallotState, ops: Seq<Op>)
    requires
        s.wf(),
        s.balanced(),
    ensures
        s.run(ops).wf(),
        s.run(ops).balanced(),
    decreases ops.len(),
{
    law_run_keeps_wf(s, ops);
    if ops.len() > 0 {
        law_run_keeps_balance(s, ops.drop_last());
        law_step_keeps_balance(s.run(ops.drop_last()), ops.last());
    }
}

/// The weights of `voters` are one ballot each and one for each of those
/// that have delegated to them.
proof fn lemma_weight_sum_is_len(s: BallotState, voters: Seq<Name>)
    ensures
        s.weight_sum(voters) == voters.len() + s.folded(voters).len(),
    decreases voters.len(),
{
    if voters.len() > 0 {
        lemma_weight_sum_is_len(s, voters.drop_last());
    }
}

/// Among those that have delegated to voters that are all different, nobody
/// occurs twice, and each of them has delegated to one of these voters.
proof fn lemma_folded_once(s: BallotState, voters: Seq<Name>)
    requires
        s.single_delegation(),
        s.edges_have_origins(),
        voters.no_duplicates(),
    ensures
        s.folded(voters).no_duplicates(),
        forall|m: int|
            0 <= m < s.folded(voters).len() ==> s.is_delegated(#[trigger] s.folded(voters)[m])
                && exists|k: int, i: int|
                0 <= k < voters.len() && 0 <= i < s.incoming(voters[k]).len() && #[trigger] s.incoming(
                    voters[k],
                )[i] == s.folded(voters)[m],
    decreases voters.len(),
{
    if voters.len() > 0 {
        let rest = voters.drop_last();
        let last = voters[voters.len() - 1];
        assert(voters.last() == last);
        let head = s.folded(rest);
        let tail = s.incoming(last);
        let all = s.folded(voters);
        assert(all == head + tail);
        lemma_folded_once(s, rest);
        assert forall|m: int| 0 <= m < all.len() implies s.is_delegated(#[trigger] all[m])
            && exists|k: int, i: int|
            0 <= k < voters.len() && 0 <= i < s.incoming(voters[k]).len() && #[trigger] s.incoming(
                voters[k],
            )[i] == all[m] by {
            if m < head.len() {
                assert(all[m] == head[m]);
                let (k, i) = choose|k: int, i: int|
                    0 <= k < rest.len() && 0 <= i < s.incoming(rest[k]).len() && #[trigger] s.incoming(
                        rest[k],
                    )[i] == head[m];
                assert(rest[k] == voters[k]);
                assert(s.incoming(voters[k])[i] == all[m]);
            } else {
                let i = m - head.len();
                assert(all[m] == tail[i]);
                assert(s.incoming(voters[voters.len() - 1])[i] == all[m]);
            }
        }
        assert forall|m: int, n: int| 0 <= m < n < all.len() implies all[m] != all[n] by {
            if n < head.len() {
                assert(all[m] == head[m] && all[n] == head[n]);
            } else if m < head.len() {
                assert(all[m] == head[m]);
                let (k, i) = choose|k: int, i: int|
                    0 <= k < rest.len() && 0 <= i < s.incoming(rest[k]).len() && #[trigger] s.incoming(
                        rest[k],
                    )[i] == head[m];
                let j = n - head.len();
                assert(all[n] == s.incoming(last)[j]);
                assert(rest[k] == voters[k]);
                if all[m] == all[n] {
                    assert(s.incoming(rest[k])[i] == s.incoming(last)[j]);
                    assert(rest[k] == last);
                    assert(voters[k] == voters[voters.len() - 1]);
                }
            } else {
                let i = m - head.len();
                let j = n - head.len();
                assert(all[m] == s.incoming(last)[i]);
                assert(all[n] == s.incoming(last)[j]);
            }
        }
    }
}

/// No ballot is counted twice. On a ballot that meets the invariants and
/// whose tallies account for its votes, all tallies together are at most the
/// number of the voters that have voted and of those that have delegated.
pub proof fn law_no_ballot_counted_twice(s: BallotState)
    requires
        s.wf(),
        s.balanced(),
    ensures
        s.tally_sum(s.parties) <= s.votes.len() + s.dvotes.len(),
{
    let held = s.folded(s.votes);
    lemma_weight_sum_is_len(s, s.votes);
    lemma_folded_once(s, s.votes);
    held.unique_seq_to_set();
    s.dvotes.lemma_cardinality_of_set();
    vstd::seq_lib::seq_to_set_is_finite(s.dvotes);
    assert(held.to_set().subset_of(s.dvotes.to_set())) by {
        assert forall|x: Name| held.to_set().contains(x) implies s.dvotes.to_set().contains(x) by {
            let m = choose|m: int| 0 <= m < held.len() && held[m] == x;
            assert(s.is_delegated(held[m]));
        }
    }
    vstd::set_lib::lemma_len_subset(held.to_set(), s.dvotes.to_set());
}

/// The tally of one of the candidates `parties` is at most their sum.
proof fn lemma_tally_in_sum(s: BallotState, parties: Seq<Name>, candidate: Name)
    requires
        parties.contains(candidate),
    ensures
        s.tally(candidate) <= s.tally_sum(parties),
    decreases parties.len(),
{
    let rest = parties.drop_last();
    let last = parties[parties.len() - 1];
    assert(parties.last() == last);
    if last != candidate {
        let k = choose|k: int| 0 <= k < parties.len() && parties[k] == candidate;
        assert(rest[k] == candidate);
        lemma_tally_in_sum(s, rest, candidate);
    }
}

/// A counter cannot overflow before the ballot is full. On a ballot that
/// meets the invariants and whose tallies account for its votes, every vote
/// fits as long as fewer than `u32::MAX` voters have voted or delegated.
pub proof fn law_votes_fit_until_full(s: BallotState, now: u64, voter: Name, candidate: Name)
    requires
        s.wf(),
        s.balanced(),
        s.votes.len() + s.dvotes.len() < u32::MAX,
    ensures
        s.vote_fits(now, voter, candidate),
{
    if s.vote_error(now, voter) is None {
        let op = Op::Vote { now, voter, candidate };
        let t = s.step(op);
        law_step_keeps_wf(s, op);
        law_step_keeps_balance(s, op);
        law_no_ballot_counted_twice(t);
        lemma_push_fresh(s.parties, candidate);
        lemma_tally_in_sum(t, t.parties, candidate);
    }
}

} // verus!
