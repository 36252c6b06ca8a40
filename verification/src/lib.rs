//! A single-round ballot: votes, one-step delegation, a validity window and
//! a per-candidate tally, over an explicit in-memory store.

use vstd::prelude::*;

pub mod invariants;
pub mod laws;
pub mod model;
pub mod names;
pub mod storage;
pub mod table;
pub mod validation;

use crate::invariants::{law_step_keeps_balance, law_step_keeps_wf};
use crate::model::{BallotState, Op};
use crate::names::{contains, lemma_names_push, names, Name};
use crate::storage::{Store, VCounter};

verus! {

/// Why the ballot refuses a vote or a delegation.
#[derive(Copy, Clone, Debug, Eq, PartialEq, PartialOrd, Ord, Structural)]
pub enum Error {
    /// The voter has delegated their ballot.
    VoterHasHisVoteDelegated,
    /// The voter has already voted.
    VoterHasAlreadyVoted,
    /// The voter holds ballots delegated to them and cannot delegate.
    VoterHasDelegatedVotes,
    /// The delegating voter has already voted.
    VoterOriginHasAlreadyVotedAndCannotDelegate,
    /// The voter delegated to has already voted.
    VoterTargetHasAlreadyVotedAndCannotDelegate,
    /// The time is outside the ballot's window.
    BallotOutOfDate,
}

impl Error {
    /// The number under which the error is reported: 1 to 6, in the order of
    /// the variants.
    pub fn code(&self) -> (code: u32)
        ensures
            code == match *self {
                Error::VoterHasHisVoteDelegated => 1u32,
                Error::VoterHasAlreadyVoted => 2u32,
                Error::VoterHasDelegatedVotes => 3u32,
                Error::VoterOriginHasAlreadyVotedAndCannotDelegate => 4u32,
                Error::VoterTargetHasAlreadyVotedAndCannotDelegate => 5u32,
                Error::BallotOutOfDate => 6u32,
            },
    {
        match self {
            Error::VoterHasHisVoteDelegated => 1,
            Error::VoterHasAlreadyVoted => 2,
            Error::VoterHasDelegatedVotes => 3,
            Error::VoterOriginHasAlreadyVotedAndCannotDelegate => 4,
            Error::VoterTargetHasAlreadyVotedAndCannotDelegate => 5,
            Error::BallotOutOfDate => 6,
        }
    }
}

/// A voter, as the checks of an operation see them.
struct Voter<'a> {
    id: &'a String,
}

impl<'a> Voter<'a> {
    /// Whether the voter has cast their ballot.
    fn has_voted(&self, store: &Store) -> (voted: bool)
        ensures
            voted == store@.has_voted(self.id@),
    {
        let vts: Vec<String> = storage::get_votes(store);
        contains(&vts, self.id)
    }

    /// Whether the voter has delegated their ballot.
    fn is_delegated(&self, store: &Store) -> (delegated: bool)
        ensures
            delegated == store@.is_delegated(self.id@),
    {
        let dvts: Vec<String> = storage::get_delegated_votes(store);
        contains(&dvts, self.id)
    }

    /// Whether anybody has delegated to the voter.
    fn has_delegated_votes(&self, store: &Store) -> (holds: bool)
        ensures
            holds == (store@.incoming(self.id@).len() > 0),
    {
        let dvotes = storage::get_voter_delegated_votes(store, self.id);
        if dvotes.len() > 0 {
            return true;
        }
        false
    }
}

/// Whether the ballot takes votes and delegations at time `now`.
fn check_dates(store: &Store, now: u64) -> (valid: bool)
    ensures
        valid == store@.accepts(now),
{
    let cfg = storage::get_config(store);
    let mut valid = true;
    if cfg.from > 0 || cfg.to > 0 {
        valid = validation::is_valid_date(now, &cfg.from, &cfg.to)
    }
    valid
}

/// The operations of a ballot. The caller holds the store and says what time
/// it is; who may call is the caller's matter.
pub struct Ballot;

impl Ballot {
    /// What an operation keeps: the invariants and, with them, the balance
    /// of tallies and votes.
    proof fn lemma_kept(s: BallotState, op: Op)
        ensures
            s.wf() ==> s.step(op).wf(),
            s.wf() && s.balanced() ==> s.step(op).balanced(),
    {
        if s.wf() {
            law_step_keeps_wf(s, op);
            if s.balanced() {
                law_step_keeps_balance(s, op);
            }
        }
    }

    /// Sets the window of the ballot. Nothing is asked of `ts_start` and
    /// `ts_end`, and the call always succeeds.
    pub fn configure(store: &mut Store, ts_start: u64, ts_end: u64) -> (done: Result<bool, Error>)
        ensures
            done == Ok::<bool, Error>(true),
            final(store)@ == old(store)@.configured(ts_start, ts_end),
            old(store)@.wf() ==> final(store)@.wf(),
            old(store)@.wf() && old(store)@.balanced() ==> final(store)@.balanced(),
    {
        proof {
            Self::lemma_kept(store@, Op::Configure { from: ts_start, to: ts_end });
        }
        storage::store_config(store, ts_start, ts_end);
        Ok(true)
    }

    /// Whether `vote` may be called with these arguments: whether the vote
    /// is one that the ballot refuses or one whose weight the candidate's
    /// counter, a `u32`, can take.
    pub fn vote_fits(store: &Store, now: u64, voter: &String, candidate: &String) -> (fits: bool)
        ensures
            fits == store@.vote_fits(now, voter@, candidate@),
    {
        let v: Voter = Voter { id: voter };
        if !check_dates(store, now) || v.is_delegated(store) || v.has_voted(store) {
            return true;
        }
        let held: u32 = storage::get_candidate_votes_count(
            store,
            &VCounter::Counter(candidate.clone()),
        );
        let d_votes: Vec<String> = storage::get_voter_delegated_votes(store, voter);
        let room: u32 = u32::MAX - held;
        room >= 1 && d_votes.len() <= (room - 1) as usize
    }

    /// Casts the ballot of `voter` for `candidate` at time `now`.
    ///
    /// The vote is refused, and the store left as it was, outside the window,
    /// where the voter has delegated and where the voter has voted, in this
    /// order. An accepted vote registers the candidate, records the voter and
    /// adds to the candidate's counter one for the voter and one for each
    /// voter that has delegated to them.
    ///
    /// The counter is a `u32`: a vote that would be accepted must leave it
    /// within that range, which `vote_fits` tests.
    pub fn vote(store: &mut Store, now: u64, voter: String, candidate: String) -> (done: Result<
        bool,
        Error,
    >)
        requires
            old(store)@.vote_fits(now, voter@, candidate@),
        ensures
            match done {
                Ok(accepted) => {
                    &&& accepted
                    &&& old(store)@.vote_error(now, voter@) is None
                    &&& final(store)@ == old(store)@.after_vote(voter@, candidate@)
                },
                Err(error) => {
                    &&& old(store)@.vote_error(now, voter@) == Some(error)
                    &&& *final(store) == *old(store)
                },
            },
            old(store)@.wf() ==> final(store)@.wf(),
            old(store)@.wf() && old(store)@.balanced() ==> final(store)@.balanced(),
    {
        proof {
            Self::lemma_kept(store@, Op::Vote { now, voter: voter@, candidate: candidate@ });
        }
        if !check_dates(store, now) {
            return Err(Error::BallotOutOfDate);
        }
        let v: Voter = Voter { id: &voter };

        if v.is_delegated(store) {
            return Err(Error::VoterHasHisVoteDelegated);
        }
        if v.has_voted(store) {
            return Err(Error::VoterHasAlreadyVoted);
        }
        storage::store_party(store, &candidate);

        let mut votes: Vec<String> = storage::get_votes(store);
        let candidate_key = VCounter::Counter(candidate);
        let d_votes: Vec<String> = storage::get_voter_delegated_votes(store, v.id);
        let held: u32 = storage::get_candidate_votes_count(store, &candidate_key);
        assert(d_votes@.len() == old(store)@.incoming(voter@).len());
        let count: u32 = 1 + d_votes.len() as u32 + held;
        proof {
            lemma_names_push(votes@, voter);
        }
        votes.push(voter);

        storage::update_candidate_count(store, candidate_key, count);
        storage::update_votes(store, votes);
        Ok(true)
    }

    /// Delegates the ballot of `o_voter` to `d_voter` at time `now`.
    ///
    /// The delegation is refused, and the store left as it was: outside the
    /// window; where `o_voter` has voted; where `d_voter` has voted; where
    /// either of them has delegated; and where somebody has delegated to
    /// `o_voter`; in this order. An accepted delegation records `o_voter`
    /// among those that have delegated and as the last of those that have
    /// delegated to `d_voter`.
    pub fn delegate(store: &mut Store, now: u64, o_voter: String, d_voter: String) -> (done:
        Result<bool, Error>)
        ensures
            match done {
                Ok(accepted) => {
                    &&& accepted
                    &&& old(store)@.delegate_error(now, o_voter@, d_voter@) is None
                    &&& final(store)@ == old(store)@.after_delegate(o_voter@, d_voter@)
                },
                Err(error) => {
                    &&& old(store)@.delegate_error(now, o_voter@, d_voter@) == Some(error)
                    &&& *final(store) == *old(store)
                },
            },
            old(store)@.wf() ==> final(store)@.wf(),
            old(store)@.wf() && old(store)@.balanced() ==> final(store)@.balanced(),
    {
        proof {
            Self::lemma_kept(store@, Op::Delegate { now, origin: o_voter@, target: d_voter@ });
        }
        if !check_dates(store, now) {
            return Err(Error::BallotOutOfDate);
        }
        let ov: Voter = Voter { id: &o_voter };
        let dv: Voter = Voter { id: &d_voter };

        if ov.has_voted(store) {
            return Err(Error::VoterOriginHasAlreadyVotedAndCannotDelegate);
        }
        if dv.has_voted(store) {
            return Err(Error::VoterTargetHasAlreadyVotedAndCannotDelegate);
        }
        if ov.is_delegated(store) {
            return Err(Error::VoterHasHisVoteDelegated);
        }
        if dv.is_delegated(store) {
            return Err(Error::VoterHasHisVoteDelegated);
        }
        if ov.has_delegated_votes(store) {
            return Err(Error::VoterHasDelegatedVotes);
        }
        let mut d_votes = storage::get_delegated_votes(store);
        let mut d_vot_delegs: Vec<String> = storage::get_voter_delegated_votes(store, &d_voter);
        let origin = o_voter.clone();
        proof {
            lemma_names_push(d_votes@, origin);
            lemma_names_push(d_vot_delegs@, o_voter);
        }
        d_votes.push(origin);
        d_vot_delegs.push(o_voter);

        storage::update_delegated_votes(store, d_votes);
        storage::update_voter_delegated_votes(store, d_voter, d_vot_delegs);
        Ok(true)
    }

    /// The tally: each candidate with its counter, in the order in which the
    /// candidates were registered. A candidate without a counter counts zero.
    pub fn count(store: &Store) -> (tally: Vec<(String, u32)>)
        ensures
            tallies(tally@) == store@.counts(),
    {
        let pts = storage::get_candidates(store);
        let mut tally: Vec<(String, u32)> = Vec::new();
        let mut i: usize = 0;
        while i < pts.len()
            invariant
                i <= pts.len(),
                names(pts@) == store@.parties,
                tally.len() == i,
                forall|j: int|
                    0 <= j < i ==> (#[trigger] tally@[j]).0@ == store@.parties[j] && tally@[j].1
                        == store@.tally(store@.parties[j]),
            decreases pts.len() - i,
        {
            let party = pts[i].clone();
            assert(party@ == names(pts@)[i as int]);
            let candidate_key = VCounter::Counter(party);
            let candidate_count: u32 = storage::get_candidate_votes_count(store, &candidate_key);
            match candidate_key {
                VCounter::Counter(party) => {
                    tally.push((party, candidate_count));
                },
            }
            i += 1;
        }
        assert(tallies(tally@) =~= store@.counts());
        tally
    }
}

/// A tally as contracts see it: each candidate's name with its count.
pub open spec fn tallies(list: Seq<(String, u32)>) -> Seq<(Name, nat)> {
    Seq::new(list.len(), |i: int| (list[i].0@, list[i].1 as nat))
}

} // verus!
