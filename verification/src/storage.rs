//! The store of a ballot, and the reads and writes that the operations make.
//!
//! A [`Store`] keeps what a ballot persists: the window, the candidates, the
//! voters that voted, the voters that delegated, a counter for each candidate
//! and, for each voter, the list of those that delegated to them. The
//! functions of this module read or replace one of these at a time and keep
//! no rule of the ballot: the rules are in the operations that call them.

use vstd::prelude::*;
use crate::model::BallotState;
use crate::names::{contains, copy_list, lemma_names_push, names, Name};
use crate::table::Table;

verus! {

/// The window of a ballot: votes and delegations are taken from `from` to
/// `to`, both included. `{0, 0}` stands for no restriction.
#[derive(Clone, Copy, Debug, PartialEq, Eq, Structural)]
pub struct Config {
    pub from: u64,
    pub to: u64,
}

impl Default for Config {
    fn default() -> (config: Config)
        ensures
            config == (Config { from: 0, to: 0 }),
    {
        Config { from: 0, to: 0 }
    }
}

/// The key under which a candidate's counter is stored.
pub enum VCounter {
    Counter(String),
}

impl VCounter {
    /// The candidate whose counter the key names.
    pub open spec fn name(self) -> Name {
        match self {
            VCounter::Counter(candidate) => candidate@,
        }
    }
}

/// What a ballot persists.
pub struct Store {
    config: Option<Config>,
    parties: Vec<String>,
    votes: Vec<String>,
    dvotes: Vec<String>,
    counters: Table<u32>,
    delegations: Table<Vec<String>>,
}

impl View for Store {
    type V = BallotState;

    closed spec fn view(&self) -> BallotState {
        BallotState {
            config: self.config,
            parties: names(self.parties@),
            votes: names(self.votes@),
            dvotes: names(self.dvotes@),
            counters: Map::new(
                |k: Name| self.counters@.contains_key(k),
                |k: Name| self.counters@[k] as nat,
            ),
            delegations: Map::new(
                |k: Name| self.delegations@.contains_key(k),
                |k: Name| names(self.delegations@[k]@),
            ),
        }
    }
}

impl Store {
    /// The store of a new ballot.
    pub fn new() -> (store: Store)
        ensures
            store@ == BallotState::empty(),
            store@.wf(),
            store@.balanced(),
    {
        let store = Store {
            config: None,
            parties: Vec::new(),
            votes: Vec::new(),
            dvotes: Vec::new(),
            counters: Table::new(),
            delegations: Table::new(),
        };
        proof {
            let s = store@;
            let e = BallotState::empty();
            assert(s.parties =~= e.parties);
            assert(s.votes =~= e.votes);
            assert(s.dvotes =~= e.dvotes);
            assert(s.counters =~= e.counters);
            assert(s.delegations =~= e.delegations);
        }
        store
    }
}

/// The candidates, in the order of their registration.
pub fn get_candidates(store: &Store) -> (parties: Vec<String>)
    ensures
        names(parties@) == store@.parties,
{
    copy_list(&store.parties)
}

/// Registers the candidate `p` unless it is registered, as the last one, and
/// tells whether it was new.
pub fn store_party(store: &mut Store, p: &String) -> (added: bool)
    ensures
        added == !old(store)@.parties.contains(p@),
        final(store)@ == old(store)@.with_party(p@),
{
    if !contains(&store.parties, p) {
        let id = p.clone();
        proof {
            lemma_names_push(store.parties@, id);
        }
        store.parties.push(id);
        return true;
    }
    false
}

/// The voters that have voted, in the order of their votes.
pub fn get_votes(store: &Store) -> (votes: Vec<String>)
    ensures
        names(votes@) == store@.votes,
{
    copy_list(&store.votes)
}

/// The voters that have delegated to `d_voter`, in the order of their
/// delegations; none where nothing is stored for `d_voter`.
pub fn get_voter_delegated_votes(store: &Store, d_voter: &String) -> (origins: Vec<String>)
    ensures
        names(origins@) == store@.incoming(d_voter@),
{
    match store.delegations.get(d_voter) {
        Some(list) => copy_list(list),
        None => {
            let origins: Vec<String> = Vec::new();
            assert(names(origins@) =~= Seq::<Name>::empty());
            origins
        },
    }
}

/// The voters that have delegated, in the order of their delegations.
pub fn get_delegated_votes(store: &Store) -> (dvotes: Vec<String>)
    ensures
        names(dvotes@) == store@.dvotes,
{
    copy_list(&store.dvotes)
}

/// The counter stored under `candidate`; zero where none is stored.
pub fn get_candidate_votes_count(store: &Store, candidate: &VCounter) -> (count: u32)
    ensures
        count == store@.tally(candidate.name()),
{
    match candidate {
        VCounter::Counter(id) => match store.counters.get(id) {
            Some(count) => *count,
            None => 0,
        },
    }
}

/// Stores `count` as the counter under `candidate`.
pub fn update_candidate_count(store: &mut Store, candidate: VCounter, count: u32)
    ensures
        final(store)@ == (BallotState {
            counters: old(store)@.counters.insert(candidate.name(), count as nat),
            ..old(store)@
        }),
{
    match candidate {
        VCounter::Counter(id) => {
            store.counters.put(id, count);
        },
    }
    assert(store@.counters =~= old(store)@.counters.insert(candidate.name(), count as nat));
}

/// Replaces the list of the voters that have voted.
pub fn update_votes(store: &mut Store, votes: Vec<String>)
    ensures
        final(store)@ == (BallotState { votes: names(votes@), ..old(store)@ }),
{
    store.votes = votes;
}

/// Replaces the list of the voters that have delegated.
pub fn update_delegated_votes(store: &mut Store, d_votes: Vec<String>)
    ensures
        final(store)@ == (BallotState { dvotes: names(d_votes@), ..old(store)@ }),
{
    store.dvotes = d_votes;
}

/// Replaces the list of the voters that have delegated to `d_voter`.
pub fn update_voter_delegated_votes(store: &mut Store, d_voter: String, d_vot_delegs: Vec<String>)
    ensures
        final(store)@ == (BallotState {
            delegations: old(store)@.delegations.insert(d_voter@, names(d_vot_delegs@)),
            ..old(store)@
        }),
{
    store.delegations.put(d_voter, d_vot_delegs);
    assert(store@.delegations =~= old(store)@.delegations.insert(
        d_voter@,
        names(d_vot_delegs@),
    ));
}

/// Sets the window to `ts_start` and `ts_end`, whatever it was.
pub fn store_config(store: &mut Store, ts_start: u64, ts_end: u64)
    ensures
        final(store)@ == old(store)@.configured(ts_start, ts_end),
{
    let cfg = Config { from: ts_start, to: ts_end };
    store.config = Some(cfg);
}

/// The window in force: the one stored, or `{0, 0}` where none is.
pub fn get_config(store: &Store) -> (config: Config)
    ensures
        config == store@.window(),
{
    match store.config {
        Some(config) => config,
        None => Config::default(),
    }
}

} // verus!
