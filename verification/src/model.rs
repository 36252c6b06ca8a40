//! The ballot as a mathematical state, and its transitions.
//!
//! Everything here is ghost code: the executable store has a
//! [`BallotState`] as its view, and the contracts of the operations are
//! written over the functions of this module.

use vstd::prelude::*;
use crate::names::Name;
use crate::storage::Config;
use crate::Error;

verus! {

/// What a store holds.
pub struct BallotState {
    /// The window that was configured, if any.
    pub config: Option<Config>,
    /// The candidates, in the order in which they were first voted for.
    pub parties: Seq<Name>,
    /// The voters that have cast their ballot.
    pub votes: Seq<Name>,
    /// The voters that have delegated their ballot.
    pub dvotes: Seq<Name>,
    /// The counter stored for a candidate.
    pub counters: Map<Name, nat>,
    /// The voters that have delegated to a voter, in the order of their delegations.
    pub delegations: Map<Name, Seq<Name>>,
}

/// Where a voter stands. A voter is fresh until their vote or their
/// delegation is accepted; to receive a delegation leaves a voter fresh.
pub enum VoterState {
    Fresh,
    Voted,
    DelegatedOut,
}

/// An operation on a ballot, with the time at which it is asked for.
pub enum Op {
    Configure { from: u64, to: u64 },
    Vote { now: u64, voter: Name, candidate: Name },
    Delegate { now: u64, origin: Name, target: Name },
}

impl BallotState {
    /// The state of a new ballot: nothing configured, nothing stored.
    pub open spec fn empty() -> BallotState {
        BallotState {
            config: None,
            parties: Seq::empty(),
            votes: Seq::empty(),
            dvotes: Seq::empty(),
            counters: Map::empty(),
            delegations: Map::empty(),
        }
    }

    /// The window in force; `{0, 0}` while none has been configured.
    pub open spec fn window(self) -> Config {
        match self.config {
            Some(config) => config,
            None => Config { from: 0, to: 0 },
        }
    }

    /// Whether the ballot takes votes and delegations at time `now`: always
    /// while the window is `{0, 0}`, else from `from` to `to`, both included.
    pub open spec fn accepts(self, now: u64) -> bool {
        let window = self.window();
        (window.from == 0 && window.to == 0) || (window.from <= now && now <= window.to)
    }

    /// Whether `voter` has cast their ballot.
    pub open spec fn has_voted(self, voter: Name) -> bool {
        self.votes.contains(voter)
    }

    /// Whether `voter` has delegated their ballot to another.
    pub open spec fn is_delegated(self, voter: Name) -> bool {
        self.dvotes.contains(voter)
    }

    /// Where `voter` stands.
    pub open spec fn voter_state(self, voter: Name) -> VoterState {
        if self.is_delegated(voter) {
            VoterState::DelegatedOut
        } else if self.has_voted(voter) {
            VoterState::Voted
        } else {
            VoterState::Fresh
        }
    }

    /// The voters that have delegated to `voter`.
    pub open spec fn incoming(self, voter: Name) -> Seq<Name> {
        if self.delegations.contains_key(voter) {
            self.delegations[voter]
        } else {
            Seq::empty()
        }
    }

    /// The votes counted for `candidate`; zero where no counter is stored.
    pub open spec fn tally(self, candidate: Name) -> nat {
        if self.counters.contains_key(candidate) {
            self.counters[candidate]
        } else {
            0
        }
    }

    /// The ballots that a vote of `voter` stands for: their own and those
    /// delegated to them.
    pub open spec fn weight(self, voter: Name) -> nat {
        1 + self.incoming(voter).len()
    }

    /// The state once `candidate` is registered: as it was where the
    /// candidate is known, else with the candidate as the last one.
    pub open spec fn with_party(self, candidate: Name) -> BallotState {
        if self.parties.contains(candidate) {
            self
        } else {
            BallotState { parties: self.parties.push(candidate), ..self }
        }
    }

    /// The state once the window is set to `from` and `to`.
    pub open spec fn configured(self, from: u64, to: u64) -> BallotState {
        BallotState { config: Some(Config { from, to }), ..self }
    }

    /// Why a vote of `voter` at time `now` is refused, if it is. The checks
    /// come in this order, and the first that fails decides.
    pub open spec fn vote_error(self, now: u64, voter: Name) -> Option<Error> {
        if !self.accepts(now) {
            Some(Error::BallotOutOfDate)
        } else if self.is_delegated(voter) {
            Some(Error::VoterHasHisVoteDelegated)
        } else if self.has_voted(voter) {
            Some(Error::VoterHasAlreadyVoted)
        } else {
            None
        }
    }

    /// Whether a vote of `voter` for `candidate` at time `now` is refused or
    /// leaves the candidate's counter within a `u32`.
    pub open spec fn vote_fits(self, now: u64, voter: Name, candidate: Name) -> bool {
        self.vote_error(now, voter) is None ==> self.tally(candidate) + self.weight(voter)
            <= u32::MAX
    }

    /// The state after an accepted vote of `voter` for `candidate`.
    pub open spec fn after_vote(self, voter: Name, candidate: Name) -> BallotState {
        let registered = self.with_party(candidate);
        BallotState {
            votes: self.votes.push(voter),
            counters: self.counters.insert(candidate, self.tally(candidate) + self.weight(voter)),
            ..registered
        }
    }

    /// Why a delegation from `origin` to `target` at time `now` is refused,
    /// if it is. The checks come in this order, and the first that fails
    /// decides.
    pub open spec fn delegate_error(self, now: u64, origin: Name, target: Name) -> Option<Error> {
        if !self.accepts(now) {
            Some(Error::BallotOutOfDate)
        } else if self.has_voted(origin) {
            Some(Error::VoterOriginHasAlreadyVotedAndCannotDelegate)
        } else if self.has_voted(target) {
            Some(Error::VoterTargetHasAlreadyVotedAndCannotDelegate)
        } else if self.is_delegated(origin) {
            Some(Error::VoterHasHisVoteDelegated)
        } else if self.is_delegated(target) {
            Some(Error::VoterHasHisVoteDelegated)
        } else if self.incoming(origin).len() > 0 {
            Some(Error::VoterHasDelegatedVotes)
        } else {
            None
        }
    }

    /// The state after an accepted delegation from `origin` to `target`.
    pub open spec fn after_delegate(self, origin: Name, target: Name) -> BallotState {
        BallotState {
            dvotes: self.dvotes.push(origin),
            delegations: self.delegations.insert(target, self.incoming(target).push(origin)),
            ..self
        }
    }

    /// The state after `op`: changed where the operation is accepted, as it
    /// was where it is refused.
    pub open spec fn step(self, op: Op) -> BallotState {
        match op {
            Op::Configure { from, to } => self.configured(from, to),
            Op::Vote { now, voter, candidate } => if self.vote_error(now, voter) is None {
                self.after_vote(voter, candidate)
            } else {
                self
            },
            Op::Delegate { now, origin, target } => if self.delegate_error(now, origin, target)
                is None {
                self.after_delegate(origin, target)
            } else {
                self
            },
        }
    }

    /// The state after the operations `ops`, the first of them first.
    pub open spec fn run(self, ops: Seq<Op>) -> BallotState
        decreases ops.len(),
    {
        if ops.len() == 0 {
            self
        } else {
            self.run(ops.drop_last()).step(ops.last())
        }
    }

    /// The ballots that the accepted votes among `ops` stand for, as far as
    /// they were cast for `candidate`: the sum, over those votes, of the
    /// voter's weight at the time of the vote.
    pub open spec fn credited(self, ops: Seq<Op>, candidate: Name) -> nat
        decreases ops.len(),
    {
        if ops.len() == 0 {
            0
        } else {
            let before = self.run(ops.drop_last());
            let earlier = self.credited(ops.drop_last(), candidate);
            match ops.last() {
                Op::Vote { now, voter, candidate: chosen } => if chosen == candidate
                    && before.vote_error(now, voter) is None {
                    earlier + before.weight(voter)
                } else {
                    earlier
                },
                _ => earlier,
            }
        }
    }

    /// The tallies of the candidates `parties`, added up.
    pub open spec fn tally_sum(self, parties: Seq<Name>) -> nat
        decreases parties.len(),
    {
        if parties.len() == 0 {
            0
        } else {
            self.tally_sum(parties.drop_last()) + self.tally(parties.last())
        }
    }

    /// The weights of `voters`, added up.
    pub open spec fn weight_sum(self, voters: Seq<Name>) -> nat
        decreases voters.len(),
    {
        if voters.len() == 0 {
            0
        } else {
            self.weight_sum(voters.drop_last()) + self.weight(voters.last())
        }
    }

    /// Those that have delegated to one of `voters`: the lists of the
    /// voters, one after the other.
    pub open spec fn folded(self, voters: Seq<Name>) -> Seq<Name>
        decreases voters.len(),
    {
        if voters.len() == 0 {
            Seq::empty()
        } else {
            self.folded(voters.drop_last()) + self.incoming(voters.last())
        }
    }

    /// The tallies account for the votes: all tallies together are the
    /// weights of the voters that have voted, one ballot for each of them and
    /// one for each voter that has delegated to them.
    pub open spec fn balanced(self) -> bool {
        self.tally_sum(self.parties) == self.weight_sum(self.votes)
    }

    /// What `count` reports: each candidate with its tally, in the order of
    /// registration.
    pub open spec fn counts(self) -> Seq<(Name, nat)> {
        Seq::new(self.parties.len(), |i: int| (self.parties[i], self.tally(self.parties[i])))
    }

    /// No voter has both voted and delegated.
    pub open spec fn votes_exclude_delegations(self) -> bool {
        forall|v: Name| !(#[trigger] self.has_voted(v) && self.is_delegated(v))
    }

    /// Whoever is listed as having delegated to a voter has delegated.
    pub open spec fn edges_have_origins(self) -> bool {
        forall|t: Name, i: int|
            0 <= i < self.incoming(t).len() ==> self.is_delegated(#[trigger] self.incoming(t)[i])
    }

    /// Whoever has delegated is listed with some voter.
    pub open spec fn origins_have_edges(self) -> bool {
        forall|v: Name| #[trigger]
            self.is_delegated(v) ==> exists|t: Name| #[trigger] self.incoming(t).contains(v)
    }

    /// Nobody is listed twice as having delegated, be it with one voter or
    /// with two: a voter delegates once.
    pub open spec fn single_delegation(self) -> bool {
        forall|t1: Name, i: int, t2: Name, j: int|
            0 <= i < self.incoming(t1).len() && 0 <= j < self.incoming(t2).len()
                && #[trigger] self.incoming(t1)[i] == #[trigger] self.incoming(t2)[j] ==> t1 == t2
                && i == j
    }

    /// Whoever has delegated holds no delegation, but for their own: a voter
    /// that holds those of others cannot delegate, and nobody can delegate to
    /// one that has.
    pub open spec fn delegators_hold_nothing(self) -> bool {
        forall|v: Name, i: int|
            self.is_delegated(v) && 0 <= i < self.incoming(v).len() ==> #[trigger] self.incoming(
                v,
            )[i] == v
    }

    /// Every candidate with a counter is registered.
    pub open spec fn counters_are_registered(self) -> bool {
        forall|c: Name| #[trigger] self.counters.contains_key(c) ==> self.parties.contains(c)
    }

    /// The invariants of a ballot.
    pub open spec fn wf(self) -> bool {
        &&& self.votes_exclude_delegations()
        &&& self.votes.no_duplicates()
        &&& self.dvotes.no_duplicates()
        &&& self.parties.no_duplicates()
        &&& self.edges_have_origins()
        &&& self.origins_have_edges()
        &&& self.single_delegation()
        &&& self.delegators_hold_nothing()
        &&& self.counters_are_registered()
    }
}

} // verus!
